//! Text as sequences of characters: the few string operations the scanner
//! needs, and the functions of the standard library it takes on trust.
use crate::sequences;
use crate::sequences::slice_to_vec;
use vstd::prelude::*;

verus! {

// ---------------------------------------------------------------------------
// Functions of the standard library
// ---------------------------------------------------------------------------

/// `String::push` appends one character.
pub assume_specification[ String::push ](s: &mut String, c: char)
    ensures
        final(s)@ == old(s)@.push(c),
;

/// What `str::to_lowercase` makes of a text.
pub uninterp spec fn lowercase(s: Seq<char>) -> Seq<char>;

/// `str::to_lowercase` depends on the text alone, and maps an ASCII text
/// letter by letter.
pub assume_specification[ str::to_lowercase ](s: &str) -> (r: String)
    ensures
        r@ == lowercase(s@),
        vstd::utf8::is_ascii_chars(s@) ==> r@ == ascii_lowercase(s@),
;

/// What `str::to_uppercase` makes of a text.
pub uninterp spec fn uppercase(s: Seq<char>) -> Seq<char>;

/// `str::to_uppercase` depends on the text alone, and maps an ASCII text
/// letter by letter.
pub assume_specification[ str::to_uppercase ](s: &str) -> (r: String)
    ensures
        r@ == uppercase(s@),
        vstd::utf8::is_ascii_chars(s@) ==> r@ == ascii_uppercase(s@),
;

/// A character with the Unicode property `White_Space`.
pub open spec fn white_space(c: char) -> bool {
    ||| '\u{9}' <= c <= '\u{D}'
    ||| c == ' '
    ||| c == '\u{85}'
    ||| c == '\u{A0}'
    ||| c == '\u{1680}'
    ||| '\u{2000}' <= c <= '\u{200A}'
    ||| c == '\u{2028}'
    ||| c == '\u{2029}'
    ||| c == '\u{202F}'
    ||| c == '\u{205F}'
    ||| c == '\u{3000}'
}

/// `char::is_whitespace` holds of the characters with the Unicode property
/// `White_Space`.
pub assume_specification[ char::is_whitespace ](c: char) -> (r: bool)
    ensures
        r == white_space(c),
;

/// What `String::from_utf8_lossy` makes of bytes that are not UTF-8.
pub uninterp spec fn utf8_repaired(bytes: Seq<u8>) -> Seq<char>;

/// The text that bytes hold: valid UTF-8 as it stands, other bytes repaired.
pub open spec fn utf8_lossy(bytes: Seq<u8>) -> Seq<char> {
    if vstd::utf8::valid_utf8(bytes) {
        vstd::utf8::decode_utf8(bytes)
    } else {
        utf8_repaired(bytes)
    }
}

/// `String::from_utf8_lossy` decodes valid UTF-8 as it stands; what it makes of
/// other bytes depends on the bytes alone.
#[verifier::external_body]
pub(crate) fn from_utf8_lossy(bytes: &[u8]) -> (r: String)
    ensures
        vstd::utf8::valid_utf8(bytes@) ==> r@ == vstd::utf8::decode_utf8(bytes@),
        !vstd::utf8::valid_utf8(bytes@) ==> r@ == utf8_repaired(bytes@),
{
    String::from_utf8_lossy(bytes).into_owned()
}

/// What `String::from_utf16_lossy` makes of some code units.
pub uninterp spec fn utf16_lossy(units: Seq<u16>) -> Seq<char>;

/// `String::from_utf16_lossy` depends on the code units alone, and turns code
/// units outside the surrogate range into characters one for one.
pub assume_specification[ String::from_utf16_lossy ](units: &[u16]) -> (r: String)
    ensures
        r@ == utf16_lossy(units@),
        (forall|i: int| 0 <= i < units@.len() ==> !(0xD800 <= #[trigger] units@[i] <= 0xDFFF))
            ==> r@ == Seq::new(units@.len(), |i: int| units@[i] as char),
;

/// How the `Debug` formatting of `str` shows a text: in double quotes, with
/// escapes.
pub uninterp spec fn quoted(s: Seq<char>) -> Seq<char>;

/// A character that the `Debug` formatting of `str` shows as it is: printable
/// ASCII, but for the double quote and the backslash.
pub open spec fn plain_char(c: char) -> bool {
    32 <= c as u32 <= 126 && c != '"' && c != '\\'
}

/// The `Debug` formatting of `str` depends on the text alone, and puts double
/// quotes around a text of plain characters.
#[verifier::external_body]
pub(crate) fn quote(s: &str) -> (r: String)
    ensures
        r@ == quoted(s@),
        (forall|i: int| 0 <= i < s@.len() ==> plain_char(#[trigger] s@[i])) ==> r@ == seq!['"']
            + s@ + seq!['"'],
{
    format!("{:?}", s)
}

// ---------------------------------------------------------------------------
// ASCII letters
// ---------------------------------------------------------------------------

/// The lower-case form of an ASCII capital, any other character itself.
pub open spec fn ascii_lower(c: char) -> char {
    if 'A' <= c <= 'Z' {
        (c as u32 + 32) as char
    } else {
        c
    }
}

/// The capital of an ASCII lower-case letter, any other character itself.
pub open spec fn ascii_upper(c: char) -> char {
    if 'a' <= c <= 'z' {
        (c as u32 - 32) as char
    } else {
        c
    }
}

/// A text with each ASCII capital replaced by its lower-case form.
pub open spec fn ascii_lowercase(s: Seq<char>) -> Seq<char> {
    s.map_values(|c: char| ascii_lower(c))
}

/// A text with each ASCII lower-case letter replaced by its capital.
pub open spec fn ascii_uppercase(s: Seq<char>) -> Seq<char> {
    s.map_values(|c: char| ascii_upper(c))
}

/// Two texts that differ in the case of ASCII letters at most.
pub open spec fn same_ignoring_ascii_case(a: Seq<char>, b: Seq<char>) -> bool {
    ascii_lowercase(a) == ascii_lowercase(b)
}

/// The lower-case form of an ASCII capital, any other character itself.
pub fn to_ascii_lower(c: char) -> (r: char)
    ensures
        r == ascii_lower(c),
{
    if 'A' <= c && c <= 'Z' {
        let b: u8 = c as u8;
        (b + 32) as char
    } else {
        c
    }
}

/// Whether two texts differ in the case of ASCII letters at most.
pub fn equal_ignoring_ascii_case(a: &str, b: &str) -> (r: bool)
    ensures
        r == same_ignoring_ascii_case(a@, b@),
{
    let x = chars_of(a);
    let y = chars_of(b);
    if x.len() != y.len() {
        assert(ascii_lowercase(a@).len() != ascii_lowercase(b@).len());
        return false;
    }
    let mut i: usize = 0;
    while i < x.len()
        invariant
            i <= x@.len(),
            x@.len() == y@.len(),
            x@ == a@,
            y@ == b@,
            forall|j: int| 0 <= j < i ==> ascii_lower(x@[j]) == ascii_lower(y@[j]),
        decreases x@.len() - i,
    {
        if to_ascii_lower(x[i]) != to_ascii_lower(y[i]) {
            assert(ascii_lowercase(a@)[i as int] != ascii_lowercase(b@)[i as int]);
            return false;
        }
        i += 1;
    }
    assert(ascii_lowercase(a@) =~= ascii_lowercase(b@));
    true
}

// ---------------------------------------------------------------------------
// Strings and characters
// ---------------------------------------------------------------------------

/// The texts that a list of strings holds.
pub open spec fn texts(list: Seq<String>) -> Seq<Seq<char>> {
    Seq::new(list.len(), |i: int| list[i]@)
}

/// A list with one string more holds one text more.
pub broadcast proof fn lemma_texts_push(list: Seq<String>, s: String)
    ensures
        #[trigger] texts(list.push(s)) == texts(list).push(s@),
{
    assert(texts(list.push(s)) =~= texts(list).push(s@));
}

/// The text that an optional string holds.
pub open spec fn text_of(s: Option<String>) -> Option<Seq<char>> {
    match s {
        Some(t) => Some(t@),
        None => None,
    }
}

/// The characters of a string.
pub fn chars_of(s: &str) -> (r: Vec<char>)
    ensures
        r@ == s@,
{
    let mut out: Vec<char> = Vec::new();
    for c in it: s.chars()
        invariant
            out@ == it.seq().take(it.index()),
            it.seq() == s@,
    {
        out.push(c);
    }
    out
}

/// The string of some characters.
pub fn string_of(chars: &[char]) -> (r: String)
    ensures
        r@ == chars@,
{
    let mut out: String = String::new();
    let mut i: usize = 0;
    while i < chars.len()
        invariant
            i <= chars@.len(),
            out@ == chars@.take(i as int),
        decreases chars@.len() - i,
    {
        out.push(chars[i]);
        assert(out@ =~= chars@.take(i + 1));
        i += 1;
    }
    assert(chars@.take(chars@.len() as int) =~= chars@);
    out
}

/// The string of the characters from index `from` up to index `to`.
pub fn substring(chars: &[char], from: usize, to: usize) -> (r: String)
    requires
        from <= to <= chars@.len(),
    ensures
        r@ == chars@.subrange(from as int, to as int),
{
    let part = slice_to_vec(chars, from, to);
    string_of(part.as_slice())
}

/// A copy of an optional string.
pub fn copy_of(s: &Option<String>) -> (r: Option<String>)
    ensures
        text_of(r) == text_of(*s),
{
    match s {
        Some(t) => Some(t.clone()),
        None => None,
    }
}

/// A copy of a list of strings.
pub fn copy_list(list: &[String]) -> (r: Vec<String>)
    ensures
        texts(r@) == texts(list@),
{
    let mut out: Vec<String> = Vec::new();
    let mut i: usize = 0;
    while i < list.len()
        invariant
            i <= list@.len(),
            out@.len() == i,
            forall|j: int| 0 <= j < i ==> (#[trigger] out@[j])@ == list@[j]@,
        decreases list@.len() - i,
    {
        out.push(list[i].clone());
        i += 1;
    }
    assert(texts(out@) =~= texts(list@));
    out
}

/// Whether two strings hold the same text.
pub fn same(a: &str, b: &str) -> (r: bool)
    ensures
        r == (a@ == b@),
{
    let x = chars_of(a);
    let y = chars_of(b);
    sequences::equal(x.as_slice(), y.as_slice())
}

/// A text that a list of names holds.
pub open spec fn one_of(s: Seq<char>, list: Seq<&'static str>) -> bool {
    exists|i: int| 0 <= i < list.len() && (#[trigger] list[i])@ == s
}

/// Whether a list of names holds a text.
pub fn is_one_of(s: &str, list: &[&'static str]) -> (r: bool)
    ensures
        r == one_of(s@, list@),
{
    let mut i: usize = 0;
    while i < list.len()
        invariant
            i <= list@.len(),
            forall|j: int| 0 <= j < i ==> (#[trigger] list@[j])@ != s@,
        decreases list@.len() - i,
    {
        if same(s, list[i]) {
            assert(list@[i as int]@ == s@);
            return true;
        }
        i += 1;
    }
    false
}

/// Whether a list of strings holds a text.
pub fn list_contains(list: &[String], s: &str) -> (r: bool)
    ensures
        r == texts(list@).contains(s@),
{
    let mut i: usize = 0;
    while i < list.len()
        invariant
            i <= list@.len(),
            forall|j: int| 0 <= j < i ==> (#[trigger] list@[j])@ != s@,
        decreases list@.len() - i,
    {
        if same(list[i].as_str(), s) {
            assert(texts(list@)[i as int] == s@);
            return true;
        }
        i += 1;
    }
    assert(forall|j: int| 0 <= j < list@.len() ==> (#[trigger] texts(list@)[j]) != s@);
    false
}

/// Whether `pat` stands in `s`.
pub fn contains(s: &str, pat: &str) -> (r: bool)
    ensures
        r == sequences::occurs(s@, pat@),
{
    let x = chars_of(s);
    let y = chars_of(pat);
    sequences::contains(x.as_slice(), y.as_slice())
}

/// Whether `s` begins with `pat`.
pub fn starts_with(s: &str, pat: &str) -> (r: bool)
    ensures
        r == sequences::begins_with(s@, pat@),
{
    let x = chars_of(s);
    let y = chars_of(pat);
    sequences::starts_with(x.as_slice(), y.as_slice())
}

// ---------------------------------------------------------------------------
// Parts of a name
// ---------------------------------------------------------------------------

/// Index `i` holds the last `c` of `s`.
pub open spec fn last_index_at(s: Seq<char>, c: char, i: int) -> bool {
    &&& 0 <= i < s.len()
    &&& s[i] == c
    &&& forall|j: int| i < j < s.len() ==> s[j] != c
}

/// Index `i` holds the first `c` of `s`.
pub open spec fn first_index_at(s: Seq<char>, c: char, i: int) -> bool {
    &&& 0 <= i < s.len()
    &&& s[i] == c
    &&& forall|j: int| 0 <= j < i ==> s[j] != c
}

/// The index of the last `c` in `s`.
pub open spec fn last_index(s: Seq<char>, c: char) -> Option<int> {
    if s.contains(c) {
        Some(choose|i: int| last_index_at(s, c, i))
    } else {
        None
    }
}

/// The index of the first `c` in `s`.
pub open spec fn first_index(s: Seq<char>, c: char) -> Option<int> {
    if s.contains(c) {
        Some(choose|i: int| first_index_at(s, c, i))
    } else {
        None
    }
}

/// The last index is the one that `last_index_at` describes.
pub proof fn lemma_last_index(s: Seq<char>, c: char, i: int)
    requires
        last_index_at(s, c, i),
    ensures
        last_index(s, c) == Some(i),
{
    assert(s.contains(s[i]));
    let k = choose|k: int| last_index_at(s, c, k);
    assert(last_index_at(s, c, k));
    assert(k == i);
}

/// The first index is the one that `first_index_at` describes.
pub proof fn lemma_first_index(s: Seq<char>, c: char, i: int)
    requires
        first_index_at(s, c, i),
    ensures
        first_index(s, c) == Some(i),
{
    assert(s.contains(s[i]));
    let k = choose|k: int| first_index_at(s, c, k);
    assert(first_index_at(s, c, k));
    assert(k == i);
}

/// A text that holds `c` has a first `c`.
pub proof fn lemma_first_index_exists(s: Seq<char>, c: char) -> (i: int)
    requires
        s.contains(c),
    ensures
        first_index_at(s, c, i),
        first_index(s, c) == Some(i),
    decreases s.len(),
{
    let before = s.drop_last();
    let i = if before.contains(c) {
        lemma_first_index_exists(before, c)
    } else {
        assert forall|j: int| 0 <= j < before.len() implies s[j] != c by {
            assert(before.contains(before[j]));
        }
        s.len() - 1
    };
    assert forall|j: int| 0 <= j < i implies s[j] != c by {
        assert(before[j] == s[j]);
    }
    lemma_first_index(s, c, i);
    i
}

/// A text that holds `c` has a last `c`.
pub proof fn lemma_last_index_exists(s: Seq<char>, c: char) -> (i: int)
    requires
        s.contains(c),
    ensures
        last_index_at(s, c, i),
        last_index(s, c) == Some(i),
    decreases s.len(),
{
    let before = s.drop_last();
    let i = if s.last() == c {
        s.len() - 1
    } else {
        let k = choose|k: int| 0 <= k < s.len() && s[k] == c;
        assert(before[k] == c);
        lemma_last_index_exists(before, c)
    };
    assert forall|j: int| i < j < s.len() implies s[j] != c by {
        if j < before.len() {
            assert(before[j] == s[j]);
        }
    }
    lemma_last_index(s, c, i);
    i
}

/// The index of the last `c`.
pub fn rfind_char(s: &[char], c: char) -> (r: Option<usize>)
    ensures
        r is None <==> last_index(s@, c) is None,
        r matches Some(i) ==> last_index(s@, c) == Some(i as int) && last_index_at(
            s@,
            c,
            i as int,
        ),
{
    let mut i: usize = s.len();
    while i > 0
        invariant
            i <= s@.len(),
            forall|j: int| i <= j < s@.len() ==> s@[j] != c,
        decreases i,
    {
        i -= 1;
        if s[i] == c {
            proof {
                lemma_last_index(s@, c, i as int);
            }
            return Some(i);
        }
    }
    None
}

/// The index of the first `c`.
pub fn find_char(s: &[char], c: char) -> (r: Option<usize>)
    ensures
        r is None <==> first_index(s@, c) is None,
        r matches Some(i) ==> first_index(s@, c) == Some(i as int) && first_index_at(
            s@,
            c,
            i as int,
        ),
{
    let mut i: usize = 0;
    while i < s.len()
        invariant
            i <= s@.len(),
            forall|j: int| 0 <= j < i ==> s@[j] != c,
        decreases s@.len() - i,
    {
        if s[i] == c {
            proof {
                lemma_first_index(s@, c, i as int);
            }
            return Some(i);
        }
        i += 1;
    }
    None
}

/// What follows the last dot of a name, if it has a dot.
pub open spec fn after_last_dot(s: Seq<char>) -> Option<Seq<char>> {
    match last_index(s, '.') {
        Some(i) => Some(s.subrange(i + 1, s.len() as int)),
        None => None,
    }
}

/// What follows the last dot of a name, in lower case; nothing where the name
/// has no dot.
pub open spec fn tail_extension(s: Seq<char>) -> Seq<char> {
    match after_last_dot(s) {
        Some(e) => lowercase(e),
        None => Seq::empty(),
    }
}

/// What follows the last dot of a name.
pub fn after_dot(s: &[char]) -> (r: Option<String>)
    ensures
        text_of(r) == after_last_dot(s@),
{
    let n: usize = s.len();
    match rfind_char(s, '.') {
        Some(i) => Some(substring(s, i + 1, n)),
        None => None,
    }
}

/// What follows the last dot of a name, in lower case.
pub fn tail_extension_of(s: &str) -> (r: String)
    ensures
        r@ == tail_extension(s@),
{
    let chars = chars_of(s);
    match after_dot(chars.as_slice()) {
        Some(e) => e.to_lowercase(),
        None => String::new(),
    }
}

/// The two characters that separate the parts of a path.
pub open spec fn separator(c: char) -> bool {
    c == '/' || c == '\\'
}

/// The part of a path behind its last separator starts at index `i`.
pub open spec fn base_starts_at(s: Seq<char>, i: int) -> bool {
    &&& 0 <= i <= s.len()
    &&& i > 0 ==> separator(s[i - 1])
    &&& forall|j: int| i <= j < s.len() ==> !separator(s[j])
}

/// The part of a path behind its last separator, the whole path where it has
/// none.
pub open spec fn base_name(s: Seq<char>) -> Seq<char> {
    s.subrange(choose|i: int| base_starts_at(s, i), s.len() as int)
}

/// There is one place where the part behind the last separator starts.
proof fn lemma_base_start_is_unique(s: Seq<char>, i: int, k: int)
    requires
        base_starts_at(s, i),
        base_starts_at(s, k),
    ensures
        i == k,
{
    if k < i {
        assert(separator(s[i - 1]));
    }
    if i < k {
        assert(separator(s[k - 1]));
    }
}

/// Where the part of a path behind its last separator starts.
pub fn base_start(s: &[char]) -> (r: usize)
    ensures
        base_starts_at(s@, r as int),
        base_name(s@) == s@.subrange(r as int, s@.len() as int),
{
    let mut i: usize = s.len();
    while i > 0 && s[i - 1] != '/' && s[i - 1] != '\\'
        invariant
            i <= s@.len(),
            forall|j: int| i <= j < s@.len() ==> !separator(s@[j]),
        decreases i,
    {
        i -= 1;
    }
    proof {
        assert(base_starts_at(s@, i as int));
        let k = choose|k: int| base_starts_at(s@, k);
        assert(base_starts_at(s@, k));
        lemma_base_start_is_unique(s@, i as int, k);
    }
    i
}

/// The last component of a path, as long as it names a file: empty components
/// and `.` count for nothing, and `..` names no file.
pub open spec fn file_name(s: Seq<char>) -> Option<Seq<char>>
    decreases s.len(),
{
    let start = choose|i: int| base_starts_at(s, i);
    let last = base_name(s);
    if last == seq!['.', '.'] {
        None
    } else if last.len() == 0 || last == seq!['.'] {
        if 0 < start <= s.len() {
            file_name(s.take(start - 1))
        } else {
            None
        }
    } else {
        Some(last)
    }
}

/// The extension of a file name: what follows its last dot, unless that dot
/// is the first character.
pub open spec fn name_extension(name: Seq<char>) -> Option<Seq<char>> {
    match last_index(name, '.') {
        Some(i) if i > 0 => Some(name.subrange(i + 1, name.len() as int)),
        _ => None,
    }
}

/// A file name without its extension.
pub open spec fn name_stem(name: Seq<char>) -> Seq<char> {
    match last_index(name, '.') {
        Some(i) if i > 0 => name.take(i),
        _ => name,
    }
}

/// The extension of the file that a path names.
pub open spec fn path_extension(path: Seq<char>) -> Option<Seq<char>> {
    match file_name(path) {
        Some(name) => name_extension(name),
        None => None,
    }
}

/// The extension of the file that a path names in lower case, nothing where
/// there is none.
pub open spec fn claimed_extension(path: Seq<char>) -> Seq<char> {
    match path_extension(path) {
        Some(e) => lowercase(e),
        None => lowercase(Seq::empty()),
    }
}

/// The last component of a path that names a file.
pub fn file_name_of(path: &[char]) -> (r: Option<Vec<char>>)
    ensures
        r is Some <==> file_name(path@) is Some,
        r matches Some(name) ==> file_name(path@) == Some(name@),
{
    let mut end: usize = path.len();
    assert(path@.take(end as int) =~= path@);
    loop
        invariant
            end <= path@.len(),
            file_name(path@) == file_name(path@.take(end as int)),
        decreases end,
    {
        let part = slice_to_vec(path, 0, end);
        assert(part@ =~= path@.take(end as int));
        let start: usize = base_start(part.as_slice());
        let last = slice_to_vec(part.as_slice(), start, end);
        assert(last@ == base_name(part@));
        proof {
            let k = choose|k: int| base_starts_at(part@, k);
            lemma_base_start_is_unique(part@, start as int, k);
        }
        if last.len() == 2 && last[0] == '.' && last[1] == '.' {
            assert(last@ =~= seq!['.', '.']);
            return None;
        }
        assert(last@ != seq!['.', '.']) by {
            assert(seq!['.', '.'][0] == '.' && seq!['.', '.'][1] == '.');
        }
        if last.len() == 0 || (last.len() == 1 && last[0] == '.') {
            assert(last.len() == 1 ==> last@ =~= seq!['.']);
            if start == 0 {
                return None;
            }
            assert(part@.take(start - 1) =~= path@.take(start - 1));
            end = start - 1;
        } else {
            assert(last@ != seq!['.']) by {
                assert(seq!['.'][0] == '.');
            }
            return Some(last);
        }
    }
}

/// The extension of a file name.
pub fn name_extension_of(name: &[char]) -> (r: Option<String>)
    ensures
        text_of(r) == name_extension(name@),
{
    let n: usize = name.len();
    match rfind_char(name, '.') {
        Some(i) => if i > 0 {
            Some(substring(name, i + 1, n))
        } else {
            None
        },
        None => None,
    }
}

/// A file name without its extension.
pub fn name_stem_of(name: &[char]) -> (r: String)
    ensures
        r@ == name_stem(name@),
{
    match rfind_char(name, '.') {
        Some(i) => if i > 0 {
            let r = substring(name, 0, i);
            assert(r@ =~= name@.take(i as int));
            r
        } else {
            string_of(name)
        },
        None => string_of(name),
    }
}

/// The extension of the file that a path names, in lower case.
pub fn claimed_extension_of(path: &str) -> (r: String)
    ensures
        r@ == claimed_extension(path@),
{
    let chars = chars_of(path);
    match file_name_of(chars.as_slice()) {
        Some(name) => match name_extension_of(name.as_slice()) {
            Some(e) => e.to_lowercase(),
            None => String::new().to_lowercase(),
        },
        None => String::new().to_lowercase(),
    }
}

// ---------------------------------------------------------------------------
// Shortening, trimming, splitting and joining
// ---------------------------------------------------------------------------

/// The mark that a shortened text ends with.
pub const ELLIPSIS: &'static str = "...";

/// A text of at most `max` characters as it is, a longer one cut there and
/// marked.
pub open spec fn shortened(s: Seq<char>, max: nat) -> Seq<char> {
    if s.len() <= max {
        s
    } else {
        s.take(max as int) + ELLIPSIS@
    }
}

/// A text cut to `max` characters.
pub fn truncate(s: &str, max: usize) -> (r: String)
    ensures
        r@ == shortened(s@, max as nat),
{
    let chars = chars_of(s);
    if chars.len() <= max {
        return string_of(chars.as_slice());
    }
    let mut head = substring(chars.as_slice(), 0, max);
    assert(head@ =~= s@.take(max as int));
    head.append(ELLIPSIS);
    head
}

/// What is left of a text without the white space in front of it.
pub open spec fn trimmed_start(s: Seq<char>) -> Seq<char>
    decreases s.len(),
{
    if s.len() > 0 && white_space(s[0]) {
        trimmed_start(s.skip(1))
    } else {
        s
    }
}

/// What is left of a text without the white space behind it.
pub open spec fn trimmed_end(s: Seq<char>) -> Seq<char>
    decreases s.len(),
{
    if s.len() > 0 && white_space(s.last()) {
        trimmed_end(s.drop_last())
    } else {
        s
    }
}

/// A text without the white space around it.
pub open spec fn trimmed(s: Seq<char>) -> Seq<char> {
    trimmed_end(trimmed_start(s))
}

/// A text without the white space around it.
pub fn trim(s: &[char]) -> (r: Vec<char>)
    ensures
        r@ == trimmed(s@),
{
    let n: usize = s.len();
    let mut from: usize = 0;
    assert(s@.skip(0) =~= s@);
    while from < n && s[from].is_whitespace()
        invariant
            n == s@.len(),
            from <= n,
            trimmed_start(s@) == trimmed_start(s@.skip(from as int)),
        decreases n - from,
    {
        assert(s@.skip(from as int).skip(1) =~= s@.skip(from + 1));
        from += 1;
    }
    let ghost t = s@.skip(from as int);
    assert(trimmed_start(s@) == t);
    let mut to: usize = n;
    assert(t.take(to - from) =~= t);
    while to > from && s[to - 1].is_whitespace()
        invariant
            n == s@.len(),
            from <= to <= n,
            t == s@.skip(from as int),
            trimmed_end(t) == trimmed_end(t.take(to - from)),
        decreases to,
    {
        assert(t.take(to - from).drop_last() =~= t.take(to - from - 1));
        to -= 1;
    }
    assert(s@.subrange(from as int, to as int) =~= t.take(to - from));
    slice_to_vec(s, from, to)
}

/// Texts put one behind the other with `sep` in between.
pub open spec fn joined(parts: Seq<Seq<char>>, sep: Seq<char>) -> Seq<char>
    decreases parts.len(),
{
    if parts.len() == 0 {
        Seq::empty()
    } else if parts.len() == 1 {
        parts[0]
    } else {
        joined(parts.drop_last(), sep) + sep + parts.last()
    }
}

/// Strings put one behind the other with `sep` in between.
pub fn join(parts: &[String], sep: &str) -> (r: String)
    ensures
        r@ == joined(texts(parts@), sep@),
{
    if parts.len() == 0 {
        return String::new();
    }
    let mut out: String = parts[0].clone();
    let mut i: usize = 1;
    assert(texts(parts@).take(1)[0] == parts@[0]@);
    while i < parts.len()
        invariant
            1 <= i <= parts@.len(),
            out@ == joined(texts(parts@).take(i as int), sep@),
        decreases parts@.len() - i,
    {
        out.append(sep);
        out.append(parts[i].as_str());
        proof {
            let longer = texts(parts@).take(i + 1);
            assert(longer.drop_last() =~= texts(parts@).take(i as int));
            assert(longer.last() == parts@[i as int]@);
        }
        i += 1;
    }
    assert(texts(parts@).take(parts@.len() as int) =~= texts(parts@));
    out
}

/// The lines of a text: what stands before, between and behind its line
/// feeds, each without a carriage return at its end; nothing for the end of a
/// text that a line feed closes.
pub open spec fn lines(s: Seq<char>) -> Seq<Seq<char>>
    decreases s.len(),
{
    match first_index(s, '\n') {
        Some(i) if 0 <= i < s.len() => seq![without_return(s.take(i))] + lines(s.skip(i + 1)),
        _ => if s.len() == 0 {
            Seq::empty()
        } else {
            seq![s]
        },
    }
}

/// A line without the carriage return at its end.
pub open spec fn without_return(line: Seq<char>) -> Seq<char> {
    if line.len() > 0 && line.last() == '\r' {
        line.drop_last()
    } else {
        line
    }
}

/// The lines of a text.
pub fn lines_of(s: &[char]) -> (r: Vec<String>)
    ensures
        texts(r@) == lines(s@),
{
    broadcast use lemma_texts_push;

    let n: usize = s.len();
    let mut out: Vec<String> = Vec::new();
    let mut from: usize = 0;
    assert(s@.skip(0) =~= s@);
    assert(texts(out@) =~= Seq::<Seq<char>>::empty());
    assert(texts(out@) + lines(s@) =~= lines(s@));
    loop
        invariant
            n == s@.len(),
            from <= n,
            lines(s@) == texts(out@) + lines(s@.skip(from as int)),
        decreases n - from,
    {
        let rest = slice_to_vec(s, from, n);
        assert(rest@ =~= s@.skip(from as int));
        match find_char(rest.as_slice(), '\n') {
            Some(i) => {
                let mut end: usize = i;
                if i > 0 && rest[i - 1] == '\r' {
                    end = i - 1;
                }
                let line = substring(rest.as_slice(), 0, end);
                assert(line@ =~= without_return(rest@.take(i as int)));
                let ghost before = texts(out@);
                out.push(line);
                proof {
                    assert(rest@.skip(i + 1) =~= s@.skip(from + i + 1));
                    let tail = lines(rest@.skip(i + 1));
                    assert(before + (seq![line@] + tail) =~= before.push(line@) + tail);
                }
                from = from + i + 1;
            },
            None => {
                if from < n {
                    let ghost before = texts(out@);
                    let line = string_of(rest.as_slice());
                    out.push(line);
                    assert(before + seq![rest@] =~= before.push(rest@));
                } else {
                    assert(texts(out@) + Seq::<Seq<char>>::empty() =~= texts(out@));
                }
                return out;
            },
        }
    }
}

// ---------------------------------------------------------------------------
// Laws
// ---------------------------------------------------------------------------

/// Where the base of a path starts, its base name does.
pub proof fn lemma_base_name(s: Seq<char>, i: int)
    requires
        base_starts_at(s, i),
    ensures
        (choose|k: int| base_starts_at(s, k)) == i,
        base_name(s) == s.subrange(i, s.len() as int),
{
    let k = choose|k: int| base_starts_at(s, k);
    assert(base_starts_at(s, k));
    lemma_base_start_is_unique(s, i, k);
}

/// The extension of a file is what follows the last dot of its name, in lower
/// case, whatever directory it is in.
pub proof fn law_the_extension_follows_the_last_dot(
    directory: Seq<char>,
    stem: Seq<char>,
    ext: Seq<char>,
)
    requires
        directory.len() == 0 || directory.last() == '/' || directory.last() == '\\',
        stem.len() > 0,
        ext.len() > 0,
        forall|i: int| 0 <= i < stem.len() ==> #[trigger] stem[i] != '/' && stem[i] != '\\',
        forall|i: int|
            0 <= i < ext.len() ==> #[trigger] ext[i] != '/' && ext[i] != '\\' && ext[i] != '.',
    ensures
        file_name(directory + stem + seq!['.'] + ext) == Some(stem + seq!['.'] + ext),
        claimed_extension(directory + stem + seq!['.'] + ext) == lowercase(ext),
        tail_extension(directory + stem + seq!['.'] + ext) == lowercase(ext),
{
    let name = stem + seq!['.'] + ext;
    let path = directory + stem + seq!['.'] + ext;
    assert(path =~= directory + name);
    lemma_base_behind(directory, name);
    assert(name.last() == ext.last());
    assert(name != seq!['.', '.'] && name != seq!['.']) by {
        assert(seq!['.', '.'].last() == '.');
        assert(seq!['.'].last() == '.');
    }
    lemma_behind_the_dot(stem, ext);
    lemma_behind_the_dot(directory + stem, ext);
}

/// What follows the last dot of a text.
pub proof fn lemma_behind_the_dot(front: Seq<char>, ext: Seq<char>)
    requires
        forall|i: int| 0 <= i < ext.len() ==> #[trigger] ext[i] != '.',
    ensures
        last_index(front + seq!['.'] + ext, '.') == Some(front.len() as int),
        (front + seq!['.'] + ext).take(front.len() as int) == front,
        (front + seq!['.'] + ext).subrange(
            front.len() as int + 1,
            (front + seq!['.'] + ext).len() as int,
        ) == ext,
{
    let s = front + seq!['.'] + ext;
    let dot = front.len() as int;
    assert forall|j: int| dot < j < s.len() implies s[j] != '.' by {
        assert(s[j] == ext[j - dot - 1]);
    }
    lemma_last_index(s, '.', dot);
    assert(s.take(dot) =~= front);
    assert(s.subrange(dot + 1, s.len() as int) =~= ext);
}

/// The base name of a path behind a directory.
pub proof fn lemma_base_behind(directory: Seq<char>, name: Seq<char>)
    requires
        directory.len() == 0 || directory.last() == '/' || directory.last() == '\\',
        forall|i: int| 0 <= i < name.len() ==> #[trigger] name[i] != '/' && name[i] != '\\',
    ensures
        (choose|k: int| base_starts_at(directory + name, k)) == directory.len(),
        base_name(directory + name) == name,
{
    let path = directory + name;
    let start = directory.len() as int;
    assert forall|j: int| start <= j < path.len() implies !separator(path[j]) by {
        assert(path[j] == name[j - start]);
    }
    assert(start > 0 ==> path[start - 1] == directory.last());
    lemma_base_name(path, start);
    assert(path.subrange(start, path.len() as int) =~= name);
}

/// A separator at the end of a path does not change the file that it names, nor
/// the extension.
pub proof fn law_a_separator_at_the_end_does_not_count(path: Seq<char>, sep: char)
    requires
        sep == '/' || sep == '\\',
    ensures
        file_name(path.push(sep)) == file_name(path),
        claimed_extension(path.push(sep)) == claimed_extension(path),
{
    let longer = path.push(sep);
    lemma_base_name(longer, longer.len() as int);
    assert(longer.subrange(longer.len() as int, longer.len() as int).len() == 0);
    assert(base_name(longer) != seq!['.', '.']) by {
        assert(seq!['.', '.'].len() == 2);
    }
    assert(longer.take(longer.len() - 1) =~= path);
}

/// A name without a dot has no extension.
pub proof fn law_without_a_dot_there_is_no_extension(name: Seq<char>)
    requires
        !name.contains('.'),
    ensures
        tail_extension(name) == Seq::<char>::empty(),
        name_extension(name) is None,
        name_stem(name) == name,
        after_last_dot(name) is None,
{
}

/// Stem and extension make up the name.
pub proof fn law_stem_and_extension_make_up_the_name(name: Seq<char>)
    ensures
        name_extension(name) matches Some(e) ==> name == name_stem(name) + seq!['.'] + e
            && !e.contains('.') && name_stem(name).len() > 0,
{
    if name.contains('.') {
        let k = lemma_last_index_exists(name, '.');
        lemma_last_index(name, '.', k);
        if k > 0 {
            let e = name.subrange(k + 1, name.len() as int);
            assert(name =~= name.take(k) + seq!['.'] + e);
            assert forall|i: int| 0 <= i < e.len() implies e[i] != '.' by {
                assert(e[i] == name[k + 1 + i]);
            }
        }
    }
}

/// A shortened text is the beginning of the text, and no longer than asked for
/// but for the mark; a text that is short enough stays as it is.
pub proof fn law_a_shortened_text_is_its_beginning(s: Seq<char>, max: nat)
    ensures
        s.len() <= max ==> shortened(s, max) == s,
        s.len() > max ==> shortened(s, max).len() == max + 3 && shortened(s, max).take(max as int)
            == s.take(max as int),
{
    reveal_strlit("...");
    if s.len() > max {
        assert(shortened(s, max).take(max as int) =~= s.take(max as int));
    }
}

proof fn lemma_trimmed_start(s: Seq<char>) -> (k: int)
    ensures
        0 <= k <= s.len(),
        trimmed_start(s) == s.skip(k),
        forall|i: int| 0 <= i < k ==> white_space(#[trigger] s[i]),
        k < s.len() ==> !white_space(s[k]),
    decreases s.len(),
{
    if s.len() > 0 && white_space(s[0]) {
        let k = lemma_trimmed_start(s.skip(1));
        assert(s.skip(1).skip(k) =~= s.skip(k + 1));
        assert forall|i: int| 0 <= i < k + 1 implies white_space(#[trigger] s[i]) by {
            if i > 0 {
                assert(s.skip(1)[i - 1] == s[i]);
            }
        }
        k + 1
    } else {
        assert(s.skip(0) =~= s);
        0
    }
}

proof fn lemma_trimmed_end(s: Seq<char>) -> (k: int)
    ensures
        0 <= k <= s.len(),
        trimmed_end(s) == s.take(k),
        forall|i: int| k <= i < s.len() ==> white_space(#[trigger] s[i]),
        k > 0 ==> !white_space(s[k - 1]),
    decreases s.len(),
{
    if s.len() > 0 && white_space(s.last()) {
        let k = lemma_trimmed_end(s.drop_last());
        assert(s.drop_last().take(k) =~= s.take(k));
        assert forall|i: int| k <= i < s.len() implies white_space(#[trigger] s[i]) by {
            if i < s.len() - 1 {
                assert(s.drop_last()[i] == s[i]);
            }
        }
        k
    } else {
        assert(s.take(s.len() as int) =~= s);
        s.len() as int
    }
}

/// Trimming takes off white space and nothing else, and leaves none at either
/// end.
pub proof fn law_trimming_takes_off_white_space(s: Seq<char>)
    ensures
        trimmed(s).len() > 0 ==> !white_space(trimmed(s)[0]) && !white_space(trimmed(s).last()),
        exists|from: int, to: int|
            0 <= from <= to <= s.len() && trimmed(s) == #[trigger] s.subrange(from, to) && (forall|
                i: int,
            |
                (0 <= i < from || to <= i < s.len()) ==> white_space(#[trigger] s[i])),
{
    let from = lemma_trimmed_start(s);
    let rest = s.skip(from);
    let k = lemma_trimmed_end(rest);
    let to = from + k;
    assert(rest.take(k) =~= s.subrange(from, to));
    assert forall|i: int| (0 <= i < from || to <= i < s.len()) implies white_space(
        #[trigger] s[i],
    ) by {
        if to <= i {
            assert(rest[i - from] == s[i]);
        }
    }
    if k > 0 {
        assert(trimmed(s)[0] == rest[0]);
        assert(trimmed(s).last() == rest[k - 1]);
        assert(rest[0] == s[from]);
    }
}

/// Joining keeps every part, in order: the text grows by the separator and the
/// part.
pub proof fn law_joining_keeps_every_part(parts: Seq<Seq<char>>, sep: Seq<char>, part: Seq<char>)
    ensures
        joined(Seq::empty(), sep).len() == 0,
        joined(seq![part], sep) == part,
        parts.len() > 0 ==> joined(parts.push(part), sep) == joined(parts, sep) + sep + part,
{
    assert(parts.push(part).drop_last() =~= parts);
}

/// The length and the first three characters of a short text, as one number.
pub open spec fn short_key(s: Seq<char>) -> int {
    s.len() * 0x100_0000 + letter(s, 0) * 0x1_0000 + letter(s, 1) * 0x100 + letter(s, 2)
}

/// The code of a character of a text, nothing behind its end.
pub open spec fn letter(s: Seq<char>, i: int) -> int {
    if i < s.len() {
        s[i] as int
    } else {
        0
    }
}

/// Neither an empty path nor one that ends in `.` or `..` alone names a file.
pub proof fn law_dots_name_no_file(directory: Seq<char>)
    requires
        directory.len() == 0 || directory.last() == '/' || directory.last() == '\\',
    ensures
        file_name(Seq::empty()) is None,
        file_name(directory + seq!['.', '.']) is None,
        file_name(seq!['.']) is None,
{
    lemma_base_behind(directory, seq!['.', '.']);
    lemma_base_behind(Seq::empty(), seq!['.']);
    lemma_base_behind(Seq::empty(), Seq::empty());
    assert(Seq::<char>::empty() + seq!['.'] =~= seq!['.']);
    assert(Seq::<char>::empty() + Seq::<char>::empty() =~= Seq::<char>::empty());
    assert(seq!['.'].len() == 1 && seq!['.', '.'].len() == 2);
}

} // verus!
