//! The quarantine directory, and file names that are safe to use in it.
//!
//! The directory holds live, unscanned files for as long as they are examined.
//! Creating and locking it is for the caller; a `Quarantine` comes only of a
//! directory for which both succeeded.
use crate::text;
use crate::text::{base_start, chars_of, find_char, is_one_of, string_of, substring, trim};
use crate::sequences::slice_to_vec;
use vstd::prelude::*;

verus! {

/// A quarantine directory that exists and has been locked down.
#[derive(Debug)]
pub struct Quarantine {
    dir: String,
}

impl Clone for Quarantine {
    fn clone(&self) -> (r: Self)
        ensures
            r@ == self@,
    {
        Quarantine { dir: self.dir.clone() }
    }
}

impl View for Quarantine {
    type V = Seq<char>;

    closed spec fn view(&self) -> Seq<char> {
        self.dir@
    }
}

/// Why a directory could not be secured, with the words of the failed step.
#[derive(Debug)]
pub enum SecureError {
    /// It could not be created.
    Create(String),
    /// It could not be locked.
    Lock(String),
}

impl Quarantine {
    /// The quarantine at `dir`, for which creating and locking went as told.
    /// Without both there is none.
    pub fn secure(dir: &str, created: Result<(), String>, locked: Result<(), String>) -> (r: Result<
        Quarantine,
        SecureError,
    >)
        ensures
            r is Ok <==> created is Ok && locked is Ok,
            r matches Ok(q) ==> q@ == dir@,
            created matches Err(e) ==> r matches Err(SecureError::Create(w)) && w@ == e@,
            created is Ok ==> (locked matches Err(e) ==> r matches Err(SecureError::Lock(w)) && w@
                == e@),
    {
        match created {
            Err(e) => Err(SecureError::Create(e)),
            Ok(()) => match locked {
                Err(e) => Err(SecureError::Lock(e)),
                Ok(()) => Ok(Quarantine { dir: dir.to_string() }),
            },
        }
    }

    /// The secured directory.
    pub fn dir(&self) -> (r: &str)
        ensures
            r@ == self@,
    {
        self.dir.as_str()
    }
}

/// What is said where the directory could not be created.
pub fn create_failure(dir: &str) -> (r: String)
    ensures
        r@ == "Failed to create quarantine dir: "@ + dir@,
{
    let mut out: String = "Failed to create quarantine dir: ".to_string();
    out.append(dir);
    out
}

/// What is said where the directory could not be closed to other users.
pub fn mode_failure(dir: &str) -> (r: String)
    ensures
        r@ == "Failed to set 0700 on quarantine dir: "@ + dir@,
{
    let mut out: String = "Failed to set 0700 on quarantine dir: ".to_string();
    out.append(dir);
    out
}

/// What is said where inherited access could not be taken away.
pub fn inheritance_failure(dir: &str, words: &str) -> (r: String)
    ensures
        r@ == "icacls /inheritance:r failed on "@ + dir@ + ": "@ + text::trimmed(words@),
{
    let mut out: String = "icacls /inheritance:r failed on ".to_string();
    out.append(dir);
    out.append(": ");
    out.append(string_of(trim(chars_of(words).as_slice()).as_slice()).as_str());
    out
}

/// What is said where access could not be granted.
pub fn grant_failure(dir: &str, principal: &str, words: &str) -> (r: String)
    ensures
        r@ == "icacls /grant:r failed on "@ + dir@ + " for "@ + principal@ + ": "@ + text::trimmed(
            words@,
        ),
{
    let mut out: String = "icacls /grant:r failed on ".to_string();
    out.append(dir);
    out.append(" for ");
    out.append(principal);
    out.append(": ");
    out.append(string_of(trim(chars_of(words).as_slice()).as_slice()).as_str());
    out
}

/// The account to which a directory is granted: the domain, a dot where there
/// is none, and the user name.
pub open spec fn principal_text(domain: Option<Seq<char>>, user: Seq<char>) -> Seq<char> {
    (match domain {
        Some(d) => d,
        None => "."@,
    }) + "\\"@ + user
}

/// The account to which a directory is granted.
pub fn acl_principal(domain: &Option<String>, user: &str) -> (r: String)
    ensures
        r@ == principal_text(text::text_of(*domain), user@),
{
    let mut out: String = match domain {
        Some(d) => d.clone(),
        None => ".".to_string(),
    };
    out.append("\\");
    out.append(user);
    out
}

/// The rule that gives an account, and nobody else, full control of a
/// directory and what it holds.
pub fn acl_grant(principal: &str) -> (r: String)
    ensures
        r@ == principal@ + ":(OI)(CI)F"@,
{
    let mut out: String = principal.to_string();
    out.append(":(OI)(CI)F");
    out
}

// ---------------------------------------------------------------------------
// File names
// ---------------------------------------------------------------------------

/// Device names that must never be the stem of a file name.
pub const WINDOWS_RESERVED: [&'static str; 22] = [
    "CON", "PRN", "AUX", "NUL", "COM1", "COM2", "COM3", "COM4", "COM5", "COM6", "COM7", "COM8",
    "COM9", "LPT1", "LPT2", "LPT3", "LPT4", "LPT5", "LPT6", "LPT7", "LPT8", "LPT9",
];

/// What stands for a device name.
pub const RESERVED_NAME: &'static str = "_reserved_name_";

/// What stands for no name.
pub const UNNAMED: &'static str = "_unnamed_";

/// Longest file name.
pub const MAX_FILENAME: usize = 128;

/// A text without zero characters.
pub open spec fn without_nul(s: Seq<char>) -> Seq<char>
    decreases s.len(),
{
    if s.len() == 0 {
        s
    } else {
        let before = without_nul(s.drop_last());
        if s.last() == '\0' {
            before
        } else {
            before.push(s.last())
        }
    }
}

/// A text in which each pair of dots, taken from the left, is an underscore.
pub open spec fn collapsed(s: Seq<char>) -> Seq<char>
    decreases s.len(),
{
    if s.len() >= 2 && s[0] == '.' && s[1] == '.' {
        seq!['_'] + collapsed(s.skip(2))
    } else if s.len() > 0 {
        seq![s[0]] + collapsed(s.skip(1))
    } else {
        s
    }
}

/// What stands before the first dot.
pub open spec fn stem(s: Seq<char>) -> Seq<char> {
    match text::first_index(s, '.') {
        Some(i) => s.take(i),
        None => s,
    }
}

/// A character that is safe in a file name.
pub open spec fn safe_char(c: char) -> bool {
    ||| 'a' <= c <= 'z'
    ||| 'A' <= c <= 'Z'
    ||| '0' <= c <= '9'
    ||| c == '.'
    ||| c == '-'
    ||| c == '_'
}

/// A text in which each character that is not safe is an underscore.
pub open spec fn made_safe(s: Seq<char>) -> Seq<char> {
    Seq::new(
        s.len(),
        |i: int|
            if safe_char(s[i]) {
                s[i]
            } else {
                '_'
            },
    )
}

/// A text cut to the longest file name.
pub open spec fn cut(s: Seq<char>) -> Seq<char> {
    if s.len() <= MAX_FILENAME {
        s
    } else {
        s.take(MAX_FILENAME as int)
    }
}

/// The file name that comes of a name whose stem in capitals is `upper`.
pub open spec fn neutralised(name: Seq<char>, upper: Seq<char>) -> Seq<char> {
    let safe = cut(
        made_safe(
            if text::one_of(upper, WINDOWS_RESERVED@) {
                RESERVED_NAME@
            } else {
                name
            },
        ),
    );
    if safe.len() == 0 {
        UNNAMED@
    } else {
        safe
    }
}

/// The name behind the last separator, without zero characters and pairs of
/// dots.
pub open spec fn plain_name(filename: Seq<char>) -> Seq<char> {
    collapsed(without_nul(text::base_name(filename)))
}

/// The safe file name for a name that the browser gave.
pub open spec fn sanitized(filename: Seq<char>) -> Seq<char> {
    neutralised(plain_name(filename), text::uppercase(stem(plain_name(filename))))
}

/// Two dots stand next to each other.
pub open spec fn has_dot_pair(s: Seq<char>) -> bool {
    exists|i: int| 0 <= i && i + 1 < s.len() && #[trigger] s[i] == '.' && s[i + 1] == '.'
}

/// A file name that names a device, whatever the case of its letters.
pub open spec fn names_device(name: Seq<char>) -> bool {
    text::one_of(text::ascii_uppercase(stem(name)), WINDOWS_RESERVED@)
}

/// A name that is safe as it stands.
pub open spec fn safe_name(name: Seq<char>) -> bool {
    &&& 0 < name.len() <= MAX_FILENAME
    &&& forall|i: int| 0 <= i < name.len() ==> safe_char(#[trigger] name[i])
    &&& !has_dot_pair(name)
    &&& !names_device(name)
}

/// A text without zero characters.
fn drop_nul(s: &[char]) -> (r: Vec<char>)
    ensures
        r@ == without_nul(s@),
{
    let mut out: Vec<char> = Vec::new();
    let mut i: usize = 0;
    assert(s@.take(0) =~= Seq::<char>::empty());
    while i < s.len()
        invariant
            i <= s@.len(),
            out@ == without_nul(s@.take(i as int)),
        decreases s@.len() - i,
    {
        assert(s@.take(i + 1).drop_last() =~= s@.take(i as int));
        if s[i] != '\0' {
            out.push(s[i]);
        }
        i += 1;
    }
    assert(s@.take(s@.len() as int) =~= s@);
    out
}

/// A text in which each pair of dots is an underscore.
fn collapse(s: &[char]) -> (r: Vec<char>)
    ensures
        r@ == collapsed(s@),
{
    let n: usize = s.len();
    let mut out: Vec<char> = Vec::new();
    let mut i: usize = 0;
    assert(s@.skip(0) =~= s@);
    assert(out@ + collapsed(s@) =~= collapsed(s@));
    while i < n
        invariant
            n == s@.len(),
            i <= n,
            collapsed(s@) == out@ + collapsed(s@.skip(i as int)),
        decreases n - i,
    {
        let ghost before = out@;
        let ghost rest = s@.skip(i as int);
        if n - i >= 2 && s[i] == '.' && s[i + 1] == '.' {
            out.push('_');
            proof {
                assert(rest.skip(2) =~= s@.skip(i + 2));
                let tail = collapsed(s@.skip(i + 2));
                assert(before + (seq!['_'] + tail) =~= before.push('_') + tail);
            }
            i += 2;
        } else {
            out.push(s[i]);
            proof {
                assert(rest.skip(1) =~= s@.skip(i + 1));
                let tail = collapsed(s@.skip(i + 1));
                assert(before + (seq![rest[0]] + tail) =~= before.push(rest[0]) + tail);
            }
            i += 1;
        }
    }
    assert(s@.skip(n as int) =~= Seq::<char>::empty());
    assert(out@ + Seq::<char>::empty() =~= out@);
    out
}

/// What stands before the first dot.
fn stem_of(s: &[char]) -> (r: String)
    ensures
        r@ == stem(s@),
{
    match find_char(s, '.') {
        Some(i) => {
            let r = substring(s, 0, i);
            assert(r@ =~= s@.take(i as int));
            r
        },
        None => string_of(s),
    }
}

/// Whether a character is safe in a file name.
fn is_safe(c: char) -> (r: bool)
    ensures
        r == safe_char(c),
{
    ('a' <= c && c <= 'z') || ('A' <= c && c <= 'Z') || ('0' <= c && c <= '9') || c == '.' || c
        == '-' || c == '_'
}

/// The file name that comes of a name whose stem in capitals is `upper`.
pub fn neutralise(name: &str, upper: &str) -> (r: String)
    ensures
        r@ == neutralised(name@, upper@),
{
    let chars = if is_one_of(upper, &WINDOWS_RESERVED) {
        chars_of(RESERVED_NAME)
    } else {
        chars_of(name)
    };
    let n: usize = if chars.len() <= MAX_FILENAME {
        chars.len()
    } else {
        MAX_FILENAME
    };
    let mut out: Vec<char> = Vec::new();
    let mut i: usize = 0;
    while i < n
        invariant
            i <= n <= chars@.len(),
            out@ == made_safe(chars@).take(i as int),
        decreases n - i,
    {
        if is_safe(chars[i]) {
            out.push(chars[i]);
        } else {
            out.push('_');
        }
        assert(out@ =~= made_safe(chars@).take(i + 1));
        i += 1;
    }
    assert(out@ =~= cut(made_safe(chars@)));
    if out.len() == 0 {
        UNNAMED.to_string()
    } else {
        string_of(out.as_slice())
    }
}

/// Makes a name that the browser gave safe to use as a file name. A name that
/// is safe as it stands is left alone.
pub fn sanitize_filename(filename: &str) -> (r: String)
    ensures
        r@ == sanitized(filename@),
        safe_name(r@),
        safe_name(filename@) ==> r@ == filename@,
{
    let chars = chars_of(filename);
    let from: usize = base_start(chars.as_slice());
    let base = slice_to_vec(chars.as_slice(), from, chars.len());
    let name = collapse(drop_nul(base.as_slice()).as_slice());
    let upper = stem_of(name.as_slice()).to_uppercase();
    proof {
        lemma_names_no_device(name@, upper@);
        law_sanitized_names_are_safe(filename@);
        if safe_name(filename@) {
            lemma_safe_names_are_left_alone(filename@, upper@);
        }
    }
    neutralise(string_of(name.as_slice()).as_str(), upper.as_str())
}


// ---------------------------------------------------------------------------
// Laws
// ---------------------------------------------------------------------------

/// No pair of dots is left behind.
proof fn lemma_no_dot_pair_is_left(s: Seq<char>)
    ensures
        !has_dot_pair(collapsed(s)),
        collapsed(s).len() > 0 && collapsed(s)[0] == '.' ==> s.len() > 0 && s[0] == '.' && !(s.len()
            >= 2 && s[1] == '.'),
    decreases s.len(),
{
    if s.len() >= 2 && s[0] == '.' && s[1] == '.' {
        lemma_no_dot_pair_is_left(s.skip(2));
        let rest = collapsed(s.skip(2));
        let whole = seq!['_'] + rest;
        assert forall|i: int| 0 <= i && i + 1 < whole.len() && #[trigger] whole[i] == '.' implies whole[i
            + 1] != '.' by {
            assert(rest[i - 1] == '.');
        }
    } else if s.len() > 0 {
        lemma_no_dot_pair_is_left(s.skip(1));
        let rest = collapsed(s.skip(1));
        let whole = seq![s[0]] + rest;
        assert forall|i: int| 0 <= i && i + 1 < whole.len() && #[trigger] whole[i] == '.' implies whole[i
            + 1] != '.' by {
            if i > 0 {
                assert(rest[i - 1] == '.');
            } else {
                assert(s.skip(1).len() > 0 ==> s.skip(1)[0] == s[1]);
            }
        }
    }
}

/// A name is made safe whatever the capitals of its stem are taken to be.
proof fn lemma_neutralised_is_safe(name: Seq<char>, upper: Seq<char>)
    requires
        !has_dot_pair(name),
    ensures
        0 < neutralised(name, upper).len() <= MAX_FILENAME,
        forall|i: int|
            0 <= i < neutralised(name, upper).len() ==> safe_char(
                #[trigger] neutralised(name, upper)[i],
            ),
        !has_dot_pair(neutralised(name, upper)),
{
    reveal_strlit("_reserved_name_");
    reveal_strlit("_unnamed_");
    let base = if text::one_of(upper, WINDOWS_RESERVED@) {
        RESERVED_NAME@
    } else {
        name
    };
    let out = neutralised(name, upper);
    assert(forall|i: int| 0 <= i < RESERVED_NAME@.len() ==> RESERVED_NAME@[i] != '.');
    assert(!has_dot_pair(base));
    assert forall|i: int| 0 <= i && i + 1 < out.len() && #[trigger] out[i] == '.' implies out[i + 1]
        != '.' by {
        if cut(made_safe(base)).len() > 0 {
            assert(base[i] == '.');
        }
    }
}

/// A sanitized name has at least one and at most 128 characters, each an ASCII
/// letter or digit, a dot, a dash or an underscore, and no two dots next to
/// each other. So it has no separator, and it cannot lead out of a directory.
pub proof fn law_sanitized_names_are_safe(filename: Seq<char>)
    ensures
        0 < sanitized(filename).len() <= MAX_FILENAME,
        forall|i: int|
            0 <= i < sanitized(filename).len() ==> safe_char(#[trigger] sanitized(filename)[i]),
        forall|i: int|
            0 <= i < sanitized(filename).len() ==> !text::separator(
                #[trigger] sanitized(filename)[i],
            ) && sanitized(filename)[i] != '\0',
        !has_dot_pair(sanitized(filename)),
{
    lemma_no_dot_pair_is_left(without_nul(text::base_name(filename)));
    lemma_neutralised_is_safe(
        plain_name(filename),
        text::uppercase(stem(plain_name(filename))),
    );
}

/// A capital or a digit.
spec fn device_char(c: char) -> bool {
    'A' <= c <= 'Z' || '0' <= c <= '9'
}

/// A device name is short and holds capitals and digits alone.
proof fn lemma_device_names(k: int)
    requires
        0 <= k < WINDOWS_RESERVED@.len(),
    ensures
        0 < WINDOWS_RESERVED@[k]@.len() <= 4,
        forall|i: int|
            0 <= i < WINDOWS_RESERVED@[k]@.len() ==> device_char(
                #[trigger] WINDOWS_RESERVED@[k]@[i],
            ),
{
    reveal_strlit("CON");
    reveal_strlit("PRN");
    reveal_strlit("AUX");
    reveal_strlit("NUL");
    reveal_strlit("COM1");
    reveal_strlit("COM2");
    reveal_strlit("COM3");
    reveal_strlit("COM4");
    reveal_strlit("COM5");
    reveal_strlit("COM6");
    reveal_strlit("COM7");
    reveal_strlit("COM8");
    reveal_strlit("COM9");
    reveal_strlit("LPT1");
    reveal_strlit("LPT2");
    reveal_strlit("LPT3");
    reveal_strlit("LPT4");
    reveal_strlit("LPT5");
    reveal_strlit("LPT6");
    reveal_strlit("LPT7");
    reveal_strlit("LPT8");
    reveal_strlit("LPT9");
}

/// A stem that is a prefix without a dot, and ends the text or is followed by
/// one.
proof fn lemma_stem(s: Seq<char>, n: int)
    requires
        0 <= n <= s.len(),
        forall|i: int| 0 <= i < n ==> s[i] != '.',
        n < s.len() ==> s[n] == '.',
    ensures
        stem(s) == s.take(n),
{
    if n < s.len() {
        text::lemma_first_index(s, '.', n);
    } else {
        assert(s.take(n) =~= s);
    }
}

/// Where the stem stands in a text.
proof fn lemma_stem_is_a_prefix(s: Seq<char>)
    ensures
        stem(s).len() <= s.len(),
        stem(s) == s.take(stem(s).len() as int),
        stem(s).len() < s.len() ==> s[stem(s).len() as int] == '.',
        forall|i: int| 0 <= i < stem(s).len() ==> #[trigger] stem(s)[i] == s[i] && s[i] != '.',
{
    if s.contains('.') {
        let n = text::lemma_first_index_exists(s, '.');
        assert(s.take(n).len() == n);
    } else {
        assert forall|i: int| 0 <= i < s.len() implies s[i] != '.' by {
            assert(s.contains(s[i]));
        }
        assert(s.take(s.len() as int) =~= s);
    }
}

/// What comes of a name is no device name.
proof fn lemma_names_no_device(name: Seq<char>, upper: Seq<char>)
    requires
        vstd::utf8::is_ascii_chars(stem(name)) ==> upper == text::ascii_uppercase(stem(name)),
    ensures
        !names_device(neutralised(name, upper)),
{
    reveal_strlit("_reserved_name_");
    reveal_strlit("_unnamed_");
    let out = neutralised(name, upper);
    let t = stem(out);
    lemma_stem_is_a_prefix(out);
    if names_device(out) {
        let k = choose|k: int|
            0 <= k < WINDOWS_RESERVED@.len() && (#[trigger] WINDOWS_RESERVED@[k])@
                == text::ascii_uppercase(t);
        lemma_device_names(k);
        let device = WINDOWS_RESERVED@[k]@;
        assert forall|i: int| 0 <= i < t.len() implies t[i] != '_' && (t[i] as u32) < 128 by {
            assert(device_char(device[i]));
            assert(device[i] == text::ascii_upper(t[i]));
        }
        assert(out[0] == t[0]);
        assert(!text::one_of(upper, WINDOWS_RESERVED@) && made_safe(name).len() > 0);
        let n = t.len() as int;
        assert forall|i: int| 0 <= i < n implies name[i] == t[i] by {
            assert(out[i] == t[i]);
        }
        lemma_stem(name, n);
        assert(stem(name) =~= t);
        assert(text::one_of(upper, WINDOWS_RESERVED@));
    }
}

/// A text without zero characters and pairs of dots loses nothing.
proof fn lemma_nothing_to_drop(s: Seq<char>)
    requires
        forall|i: int| 0 <= i < s.len() ==> s[i] != '\0',
    ensures
        without_nul(s) == s,
    decreases s.len(),
{
    if s.len() > 0 {
        lemma_nothing_to_drop(s.drop_last());
        assert(s.drop_last().push(s.last()) =~= s);
    }
}

/// A text without pairs of dots is left as it is.
proof fn lemma_nothing_to_collapse(s: Seq<char>)
    requires
        !has_dot_pair(s),
    ensures
        collapsed(s) == s,
    decreases s.len(),
{
    if s.len() > 0 {
        let rest = s.skip(1);
        assert forall|i: int| 0 <= i && i + 1 < rest.len() && #[trigger] rest[i] == '.' implies rest[i
            + 1] != '.' by {
            assert(s[i + 1] == '.');
        }
        lemma_nothing_to_collapse(rest);
        assert(seq![s[0]] + rest =~= s);
        if s.len() >= 2 && s[0] == '.' {
            assert(s[1] != '.');
        }
    }
}

/// A safe name is not changed.
proof fn lemma_safe_names_are_left_alone(name: Seq<char>, upper: Seq<char>)
    requires
        safe_name(name),
        vstd::utf8::is_ascii_chars(stem(plain_name(name))) ==> upper == text::ascii_uppercase(
            stem(plain_name(name)),
        ),
    ensures
        plain_name(name) == name,
        neutralised(name, upper) == name,
{
    assert(text::base_starts_at(name, 0));
    let from = choose|i: int| text::base_starts_at(name, i);
    assert(text::base_starts_at(name, from));
    assert(from == 0) by {
        if from > 0 {
            assert(safe_char(name[from - 1]));
        }
    }
    assert(text::base_name(name) =~= name);
    lemma_nothing_to_drop(name);
    lemma_nothing_to_collapse(name);
    lemma_stem_is_a_prefix(name);
    assert forall|i: int| 0 <= i < stem(name).len() implies (#[trigger] stem(name)[i] as u32)
        < 128 by {
        assert(safe_char(name[i]));
    }
    assert(made_safe(name) =~= name);
}

/// Only the last component of a path counts: what stands before a separator
/// does not change what a name becomes.
pub proof fn law_directories_do_not_count(directory: Seq<char>, name: Seq<char>)
    requires
        directory.len() > 0,
        directory.last() == '/' || directory.last() == '\\',
        forall|i: int| 0 <= i < name.len() ==> #[trigger] name[i] != '/' && name[i] != '\\',
    ensures
        sanitized(directory + name) == sanitized(name),
{
    let path = directory + name;
    let start = directory.len() as int;
    assert forall|j: int| start <= j < path.len() implies !text::separator(path[j]) by {
        assert(path[j] == name[j - start]);
    }
    text::lemma_base_name(path, start);
    text::lemma_base_name(name, 0);
    assert(path.subrange(start, path.len() as int) =~= name.subrange(0, name.len() as int));
}

/// A name keeps its shape: one that needs no more than other characters keeps
/// its length, each character that is safe, and an underscore for each that is
/// not. Of a longer one the first hundred and twenty-eight characters are kept.
pub proof fn law_a_name_keeps_its_safe_characters(name: Seq<char>)
    requires
        name.len() > 0,
        forall|i: int|
            0 <= i < name.len() ==> #[trigger] name[i] != '/' && name[i] != '\\' && name[i] != '\0',
        !has_dot_pair(name),
        !text::one_of(text::uppercase(stem(name)), WINDOWS_RESERVED@),
    ensures
        sanitized(name).len() == vstd::math::min(name.len() as int, 128),
        forall|i: int|
            0 <= i < sanitized(name).len() ==> #[trigger] sanitized(name)[i] == if ('a' <= name[i]
                <= 'z') || ('A' <= name[i] <= 'Z') || ('0' <= name[i] <= '9') || name[i] == '.'
                || name[i] == '-' || name[i] == '_' {
                name[i]
            } else {
                '_'
            },
{
    text::lemma_base_name(name, 0);
    assert(name.subrange(0, name.len() as int) =~= name);
    lemma_nothing_to_drop(name);
    lemma_nothing_to_collapse(name);
}

/// Two dots next to each other become an underscore, and the rest of the name
/// stays.
pub proof fn law_a_pair_of_dots_becomes_an_underscore(before: Seq<char>, after: Seq<char>)
    requires
        !has_dot_pair(before),
        before.len() == 0 || before.last() != '.',
    ensures
        collapsed(before + seq!['.', '.'] + after) == before + seq!['_'] + collapsed(after),
    decreases before.len(),
{
    let s = before + seq!['.', '.'] + after;
    if before.len() == 0 {
        assert(s.skip(2) =~= after);
        assert(seq!['_'] + collapsed(after) =~= before + seq!['_'] + collapsed(after));
    } else {
        let rest = before.skip(1);
        assert forall|i: int| 0 <= i && i + 1 < rest.len() && #[trigger] rest[i] == '.' implies rest[i
            + 1] != '.' by {
            assert(before[i + 1] == '.');
        }
        assert(rest.len() > 0 ==> rest.last() == before.last());
        law_a_pair_of_dots_becomes_an_underscore(rest, after);
        assert(s.skip(1) =~= rest + seq!['.', '.'] + after);
        assert(s[0] == before[0]);
        assert(s[0] == '.' ==> s[1] != '.') by {
            if before.len() > 1 {
                assert(s[1] == before[1]);
                assert(before[0] == '.' ==> before[1] != '.');
            }
        }
        assert(seq![s[0]] + (rest + seq!['_'] + collapsed(after)) =~= before + seq!['_']
            + collapsed(after));
    }
}

/// Zero characters are taken out, and nothing else is.
pub proof fn law_only_zero_characters_are_taken_out(s: Seq<char>, c: char)
    ensures
        without_nul(Seq::empty()).len() == 0,
        c != '\0' ==> without_nul(s.push(c)) == without_nul(s).push(c),
        without_nul(s.push('\0')) == without_nul(s),
{
    assert(s.push(c).drop_last() =~= s);
    assert(s.push('\0').drop_last() =~= s);
}

/// The name of a device is replaced, whatever extension it has.
pub proof fn law_device_names_are_replaced(filename: Seq<char>)
    requires
        ({
            let device = text::uppercase(stem(plain_name(filename)));
            ||| device == "CON"@
            ||| device == "PRN"@
            ||| device == "AUX"@
            ||| device == "NUL"@
            ||| device == "COM1"@
            ||| device == "COM2"@
            ||| device == "COM3"@
            ||| device == "COM4"@
            ||| device == "COM5"@
            ||| device == "COM6"@
            ||| device == "COM7"@
            ||| device == "COM8"@
            ||| device == "COM9"@
            ||| device == "LPT1"@
            ||| device == "LPT2"@
            ||| device == "LPT3"@
            ||| device == "LPT4"@
            ||| device == "LPT5"@
            ||| device == "LPT6"@
            ||| device == "LPT7"@
            ||| device == "LPT8"@
            ||| device == "LPT9"@
        }),
    ensures
        sanitized(filename) == "_reserved_name_"@,
{
    let list = WINDOWS_RESERVED@;
    assert(list.len() == 22);
    assert(list[0]@ == "CON"@);
    assert(list[1]@ == "PRN"@);
    assert(list[2]@ == "AUX"@);
    assert(list[3]@ == "NUL"@);
    assert(list[4]@ == "COM1"@);
    assert(list[5]@ == "COM2"@);
    assert(list[6]@ == "COM3"@);
    assert(list[7]@ == "COM4"@);
    assert(list[8]@ == "COM5"@);
    assert(list[9]@ == "COM6"@);
    assert(list[10]@ == "COM7"@);
    assert(list[11]@ == "COM8"@);
    assert(list[12]@ == "COM9"@);
    assert(list[13]@ == "LPT1"@);
    assert(list[14]@ == "LPT2"@);
    assert(list[15]@ == "LPT3"@);
    assert(list[16]@ == "LPT4"@);
    assert(list[17]@ == "LPT5"@);
    assert(list[18]@ == "LPT6"@);
    assert(list[19]@ == "LPT7"@);
    assert(list[20]@ == "LPT8"@);
    assert(list[21]@ == "LPT9"@);
    reveal_strlit("_reserved_name_");
    assert(made_safe("_reserved_name_"@) =~= "_reserved_name_"@);
}

/// A name of which nothing is left gets one.
pub proof fn law_an_empty_name_gets_one(filename: Seq<char>)
    requires
        plain_name(filename).len() == 0,
        !text::one_of(text::uppercase(stem(plain_name(filename))), WINDOWS_RESERVED@),
    ensures
        sanitized(filename) == "_unnamed_"@,
{
}

/// Access is granted to a user of a domain, or of the machine where no domain
/// is known.
pub proof fn law_who_is_granted_access(domain: Seq<char>, user: Seq<char>)
    ensures
        principal_text(Some(domain), user) == domain + "\\"@ + user,
        principal_text(None, user) == "."@ + "\\"@ + user,
{
}

} // verus!
