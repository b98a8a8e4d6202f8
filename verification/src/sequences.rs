//! Searching in sequences of bytes and of characters.
use vstd::prelude::*;

verus! {

/// `pat` stands in `s` starting at index `i`.
pub open spec fn occurs_at<T>(s: Seq<T>, pat: Seq<T>, i: int) -> bool {
    &&& 0 <= i
    &&& i + pat.len() <= s.len()
    &&& s.subrange(i, i + pat.len()) == pat
}

/// `pat` stands somewhere in `s`.
pub open spec fn occurs<T>(s: Seq<T>, pat: Seq<T>) -> bool {
    exists|i: int| occurs_at(s, pat, i)
}

/// `s` begins with `pat`.
pub open spec fn begins_with<T>(s: Seq<T>, pat: Seq<T>) -> bool {
    occurs_at(s, pat, 0)
}

/// `s` ends with `pat`.
pub open spec fn finishes_with<T>(s: Seq<T>, pat: Seq<T>) -> bool {
    occurs_at(s, pat, s.len() - pat.len())
}

/// Index `i` is the leftmost place at which `pat` stands in `s`.
pub open spec fn first_at<T>(s: Seq<T>, pat: Seq<T>, i: int) -> bool {
    &&& occurs_at(s, pat, i)
    &&& forall|j: int| j < i ==> !occurs_at(s, pat, j)
}

/// Index `i` is the rightmost place at which `pat` stands in `s`.
pub open spec fn last_at<T>(s: Seq<T>, pat: Seq<T>, i: int) -> bool {
    &&& occurs_at(s, pat, i)
    &&& forall|j: int| i < j ==> !occurs_at(s, pat, j)
}

/// The leftmost place at which `pat` stands in `s`, if it does.
pub open spec fn first_occurrence<T>(s: Seq<T>, pat: Seq<T>) -> Option<int> {
    if occurs(s, pat) {
        Some(choose|i: int| first_at(s, pat, i))
    } else {
        None
    }
}

/// The rightmost place at which `pat` stands in `s`, if it does.
pub open spec fn last_occurrence<T>(s: Seq<T>, pat: Seq<T>) -> Option<int> {
    if occurs(s, pat) {
        Some(choose|i: int| last_at(s, pat, i))
    } else {
        None
    }
}

/// The leftmost place is the one that `first_at` describes.
pub proof fn lemma_first<T>(s: Seq<T>, pat: Seq<T>, i: int)
    requires
        first_at(s, pat, i),
    ensures
        first_occurrence(s, pat) == Some(i),
{
    let c = choose|k: int| first_at(s, pat, k);
    assert(first_at(s, pat, c));
    if c < i {
        assert(!occurs_at(s, pat, c));
    }
    if i < c {
        assert(!occurs_at(s, pat, i));
    }
}

/// The rightmost place is the one that `last_at` describes.
pub proof fn lemma_last<T>(s: Seq<T>, pat: Seq<T>, i: int)
    requires
        last_at(s, pat, i),
    ensures
        last_occurrence(s, pat) == Some(i),
{
    let c = choose|k: int| last_at(s, pat, k);
    assert(last_at(s, pat, c));
    if c < i {
        assert(!occurs_at(s, pat, i));
    }
    if i < c {
        assert(!occurs_at(s, pat, c));
    }
}

/// An item that can be compared with another of its kind.
pub trait Symbol: Copy {
    fn same(&self, other: &Self) -> (r: bool)
        ensures
            r == (*self == *other),
    ;
}

impl Symbol for u8 {
    fn same(&self, other: &Self) -> (r: bool) {
        *self == *other
    }
}

impl Symbol for char {
    fn same(&self, other: &Self) -> (r: bool) {
        *self == *other
    }
}

/// Whether two slices hold the same items.
pub fn equal<T: Symbol>(a: &[T], b: &[T]) -> (r: bool)
    ensures
        r == (a@ == b@),
{
    if a.len() != b.len() {
        return false;
    }
    let mut i: usize = 0;
    while i < a.len()
        invariant
            i <= a@.len(),
            a@.len() == b@.len(),
            forall|j: int| 0 <= j < i ==> a@[j] == b@[j],
        decreases a@.len() - i,
    {
        if !a[i].same(&b[i]) {
            return false;
        }
        i += 1;
    }
    assert(a@ =~= b@);
    true
}

/// Whether `pat` stands in `s` at index `i`.
pub fn matches_at<T: Symbol>(s: &[T], pat: &[T], i: usize) -> (r: bool)
    ensures
        r == occurs_at(s@, pat@, i as int),
{
    if i > s.len() || pat.len() > s.len() - i {
        return false;
    }
    let n: usize = s.len();
    let mut k: usize = 0;
    while k < pat.len()
        invariant
            k <= pat@.len(),
            n == s@.len(),
            i + pat@.len() <= n,
            forall|j: int| 0 <= j < k ==> s@[i + j] == pat@[j],
        decreases pat@.len() - k,
    {
        if !s[i + k].same(&pat[k]) {
            assert(s@.subrange(i as int, i + pat@.len())[k as int] != pat@[k as int]);
            return false;
        }
        k += 1;
    }
    assert(s@.subrange(i as int, i + pat@.len()) =~= pat@);
    true
}

/// Whether `s` begins with `pat`.
pub fn starts_with<T: Symbol>(s: &[T], pat: &[T]) -> (r: bool)
    ensures
        r == begins_with(s@, pat@),
{
    matches_at(s, pat, 0)
}

/// Whether `s` ends with `pat`.
pub fn ends_with<T: Symbol>(s: &[T], pat: &[T]) -> (r: bool)
    ensures
        r == finishes_with(s@, pat@),
{
    if pat.len() > s.len() {
        return false;
    }
    matches_at(s, pat, s.len() - pat.len())
}

/// The leftmost place at which `pat` stands in `s`.
pub fn find<T: Symbol>(s: &[T], pat: &[T]) -> (r: Option<usize>)
    ensures
        r is None <==> first_occurrence(s@, pat@) is None,
        r matches Some(i) ==> first_occurrence(s@, pat@) == Some(i as int) && first_at(
            s@,
            pat@,
            i as int,
        ),
{
    if pat.len() > s.len() {
        return None;
    }
    let last: usize = s.len() - pat.len();
    let mut i: usize = 0;
    while i <= last
        invariant
            last + pat@.len() == s@.len(),
            i <= last + 1,
            forall|j: int| j < i ==> !occurs_at(s@, pat@, j),
        decreases last + 1 - i,
    {
        if matches_at(s, pat, i) {
            proof {
                assert(first_at(s@, pat@, i as int));
                lemma_first(s@, pat@, i as int);
            }
            return Some(i);
        }
        if i == last {
            assert(forall|j: int| j <= last ==> !occurs_at(s@, pat@, j));
            return None;
        }
        i += 1;
    }
    None
}

/// The rightmost place at which `pat` stands in `s`.
pub fn rfind<T: Symbol>(s: &[T], pat: &[T]) -> (r: Option<usize>)
    ensures
        r is None <==> last_occurrence(s@, pat@) is None,
        r matches Some(i) ==> last_occurrence(s@, pat@) == Some(i as int) && last_at(
            s@,
            pat@,
            i as int,
        ),
{
    if pat.len() > s.len() {
        return None;
    }
    let mut i: usize = s.len() - pat.len();
    loop
        invariant
            i + pat@.len() <= s@.len(),
            forall|j: int| i < j ==> !occurs_at(s@, pat@, j),
        decreases i,
    {
        if matches_at(s, pat, i) {
            proof {
                assert(last_at(s@, pat@, i as int));
                lemma_last(s@, pat@, i as int);
            }
            return Some(i);
        }
        if i == 0 {
            assert(forall|j: int| 0 <= j ==> !occurs_at(s@, pat@, j));
            return None;
        }
        i -= 1;
    }
}

/// Whether `pat` stands somewhere in `s`.
pub fn contains<T: Symbol>(s: &[T], pat: &[T]) -> (r: bool)
    ensures
        r == occurs(s@, pat@),
{
    match find(s, pat) {
        Some(i) => {
            assert(occurs_at(s@, pat@, i as int));
            true
        },
        None => false,
    }
}

/// The items of `s` from index `from` up to, but without, index `to`.
pub fn slice_to_vec<T: Symbol>(s: &[T], from: usize, to: usize) -> (r: Vec<T>)
    requires
        from <= to <= s@.len(),
    ensures
        r@ == s@.subrange(from as int, to as int),
{
    let mut out: Vec<T> = Vec::new();
    let mut i: usize = from;
    while i < to
        invariant
            from <= i <= to <= s@.len(),
            out@ == s@.subrange(from as int, i as int),
        decreases to - i,
    {
        out.push(s[i]);
        assert(out@ =~= s@.subrange(from as int, i + 1));
        i += 1;
    }
    out
}

/// What stands somewhere stands somewhere first.
pub proof fn lemma_first_exists<T>(s: Seq<T>, pat: Seq<T>, at: int) -> (i: int)
    requires
        occurs_at(s, pat, at),
    ensures
        first_at(s, pat, i),
        i <= at,
    decreases at,
{
    if forall|j: int| j < at ==> !occurs_at(s, pat, j) {
        at
    } else {
        let j = choose|j: int| j < at && occurs_at(s, pat, j);
        lemma_first_exists(s, pat, j)
    }
}

/// What stands somewhere in a sequence stands somewhere last.
pub proof fn lemma_last_exists<T>(s: Seq<T>, pat: Seq<T>, at: int) -> (i: int)
    requires
        occurs_at(s, pat, at),
    ensures
        last_at(s, pat, i),
        i >= at,
    decreases s.len() - at,
{
    if forall|j: int| at < j ==> !occurs_at(s, pat, j) {
        at
    } else {
        let j = choose|j: int| at < j && occurs_at(s, pat, j);
        lemma_last_exists(s, pat, j)
    }
}

/// A search finds what is there: the first place from the left, the last from
/// the right, and nothing only where nothing is.
pub proof fn law_a_search_finds_what_is_there<T>(s: Seq<T>, pat: Seq<T>)
    ensures
        first_occurrence(s, pat) matches Some(i) ==> first_at(s, pat, i),
        last_occurrence(s, pat) matches Some(i) ==> last_at(s, pat, i),
        first_occurrence(s, pat) is Some <==> occurs(s, pat),
        last_occurrence(s, pat) is Some <==> occurs(s, pat),
{
    if occurs(s, pat) {
        let at = choose|i: int| occurs_at(s, pat, i);
        let first = lemma_first_exists(s, pat, at);
        let last = lemma_last_exists(s, pat, at);
        lemma_first(s, pat, first);
        lemma_last(s, pat, last);
    }
}

} // verus!
