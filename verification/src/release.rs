//! The last gate before a file reaches the user.
//!
//! A cleared file is moved to the Downloads folder under a safe form of its
//! name. No file that is already there is ever overwritten: where the name is
//! taken, a numbered one is tried, as browsers do. The moves themselves are
//! for the caller.
use crate::config::ChunkingConfig;
use crate::numbers;
use crate::numbers::push_decimal;
use crate::quarantine;
use crate::quarantine::sanitize_filename;
use crate::text;
use crate::text::{chars_of, file_name_of, name_extension_of, name_stem_of, quote};
use vstd::prelude::*;

verus! {

/// A file that has been released.
#[derive(Debug)]
pub struct Released {
    /// Where the file landed.
    pub final_path: String,
    /// The name was changed so that no other file is overwritten.
    pub renamed: bool,
}

/// So many names are tried: the name itself, and the numbered ones.
pub const MAX_CANDIDATES: u32 = 10_000;

/// The stem of a name that has none.
pub const DEFAULT_STEM: &'static str = "download";

/// What the numbered forms of a name begin with.
pub open spec fn numbered_stem(name: Seq<char>) -> Seq<char> {
    match text::file_name(name) {
        Some(file) => text::name_stem(file),
        None => DEFAULT_STEM@,
    }
}

/// The name that is tried after `n` others: the name itself, then `name (1)`,
/// `name (2)` and so on, with the number before the extension.
pub open spec fn candidate_name(name: Seq<char>, n: nat) -> Seq<char> {
    if n == 0 {
        name
    } else {
        let numbered = numbered_stem(name) + " ("@ + numbers::decimal(n) + ")"@;
        match text::path_extension(name) {
            Some(e) => numbered + "."@ + e,
            None => numbered,
        }
    }
}

/// The name that is tried after `n` others.
pub fn candidate(name: &str, n: u32) -> (r: String)
    ensures
        r@ == candidate_name(name@, n as nat),
{
    if n == 0 {
        return name.to_string();
    }
    let (mut out, extension): (String, Option<String>) = match file_name_of(
        chars_of(name).as_slice(),
    ) {
        Some(file) => (name_stem_of(file.as_slice()), name_extension_of(file.as_slice())),
        None => (DEFAULT_STEM.to_string(), None),
    };
    out.append(" (");
    push_decimal(&mut out, n as u64);
    out.append(")");
    if let Some(e) = extension {
        out.append(".");
        out.append(e.as_str());
    }
    out
}

/// The name a file gets in a directory: the first that is free, if any of
/// them is. `taken` tells which names are not.
pub open spec fn free_name(name: Seq<char>, taken: spec_fn(Seq<char>) -> bool, n: nat) -> Option<
    (Seq<char>, bool),
>
    decreases MAX_CANDIDATES - n,
{
    if n >= MAX_CANDIDATES {
        None
    } else if !taken(candidate_name(name, n)) {
        Some((candidate_name(name, n), n > 0))
    } else {
        free_name(name, taken, n + 1)
    }
}

/// What to do with a name that was looked for in the directory.
#[derive(Debug)]
pub enum CollisionStep {
    /// It is free: the file gets it. The flag tells whether it was changed.
    Take(String, bool),
    /// It is taken: look for the name with this number.
    Next(u32),
    /// It is taken and there is no other.
    Exhausted,
}

/// What a step says.
pub enum CollisionModel {
    Take(Seq<char>, bool),
    Next(nat),
    Exhausted,
}

impl View for CollisionStep {
    type V = CollisionModel;

    open spec fn view(&self) -> CollisionModel {
        match self {
            CollisionStep::Take(name, renamed) => CollisionModel::Take(name@, *renamed),
            CollisionStep::Next(n) => CollisionModel::Next(*n as nat),
            CollisionStep::Exhausted => CollisionModel::Exhausted,
        }
    }
}

/// What to do with the name that is tried after `n` others.
pub open spec fn collision_step(name: Seq<char>, n: nat, taken: bool) -> CollisionModel {
    if !taken {
        CollisionModel::Take(candidate_name(name, n), n > 0)
    } else if n + 1 < MAX_CANDIDATES {
        CollisionModel::Next(n + 1)
    } else {
        CollisionModel::Exhausted
    }
}

/// What to do with the name that is tried after `n` others, of which `taken`
/// tells whether it is in the directory already.
pub fn resolve_collision(name: &str, n: u32, taken: bool) -> (r: CollisionStep)
    ensures
        r@ == collision_step(name@, n as nat, taken),
{
    if !taken {
        CollisionStep::Take(candidate(name, n), n > 0)
    } else if n < MAX_CANDIDATES - 1 {
        CollisionStep::Next(n + 1)
    } else {
        CollisionStep::Exhausted
    }
}

/// The safe name under which a file is released, where it is still in
/// quarantine.
pub fn release(quarantined: &str, present: bool, original_name: &str) -> (r: Result<String, String>)
    ensures
        r is Ok <==> present,
        r matches Ok(name) ==> name@ == quarantine::sanitized(original_name@)
            && quarantine::safe_name(name@),
        r matches Err(words) ==> words@ == "cannot release "@ + quarantined@
            + ": file is not in quarantine"@,
{
    if !present {
        let mut words: String = "cannot release ".to_string();
        words.append(quarantined);
        words.append(": file is not in quarantine");
        return Err(words);
    }
    Ok(sanitize_filename(original_name))
}

/// What is said where every name is taken.
pub fn no_free_name(name: &str, dir: &str) -> (r: String)
    ensures
        r@ == "could not find a free filename for "@ + text::quoted(name@) + " in "@ + dir@,
{
    let mut out: String = "could not find a free filename for ".to_string();
    out.append(quote(name).as_str());
    out.append(" in ");
    out.append(dir);
    out
}

/// What is said where the file could not be copied either.
pub fn copy_failure(from: &str, to: &str) -> (r: String)
    ensures
        r@ == "copy "@ + from@ + " -> "@ + to@ + " during release"@,
{
    let mut out: String = "copy ".to_string();
    out.append(from);
    out.append(" -> ");
    out.append(to);
    out.append(" during release");
    out
}

/// A file in quarantine that no session can still be writing: it is older than
/// twice the time that a transfer may take. Ages are in seconds.
pub open spec fn stale(age: nat, config: ChunkingConfig) -> bool {
    age > 2 * config.total_transfer_timeout_secs
}

/// Whether a file in quarantine has been abandoned.
pub fn is_stale(age_secs: u64, config: &ChunkingConfig) -> (r: bool)
    ensures
        r == stale(age_secs as nat, *config),
{
    age_secs as u128 > 2 * (config.total_transfer_timeout_secs as u128)
}

// ---------------------------------------------------------------------------
// Laws
// ---------------------------------------------------------------------------

/// A file that a running session may still be writing is never swept.
pub proof fn law_a_running_session_is_never_swept(age: nat, config: ChunkingConfig)
    requires
        age <= config.total_transfer_timeout_secs,
    ensures
        !stale(age, config),
{
}

/// A release never overwrites: the name that a file gets is not taken, and it
/// is the first of its names that is not.
pub proof fn law_a_release_never_overwrites(
    name: Seq<char>,
    taken: spec_fn(Seq<char>) -> bool,
    n: nat,
)
    ensures
        free_name(name, taken, n) matches Some(p) ==> !taken(p.0) && exists|k: nat|
            n <= k < MAX_CANDIDATES && p.0 == #[trigger] candidate_name(name, k) && p.1 == (k > 0)
                && forall|j: nat| n <= j < k ==> taken(#[trigger] candidate_name(name, j)),
        free_name(name, taken, n) is None ==> forall|j: nat|
            n <= j < MAX_CANDIDATES ==> taken(#[trigger] candidate_name(name, j)),
    decreases MAX_CANDIDATES - n,
{
    if n < MAX_CANDIDATES {
        if taken(candidate_name(name, n)) {
            law_a_release_never_overwrites(name, taken, n + 1);
            if let Some(p) = free_name(name, taken, n + 1) {
                let k = choose|k: nat|
                    n + 1 <= k < MAX_CANDIDATES && p.0 == #[trigger] candidate_name(name, k) && p.1
                        == (k > 0) && forall|j: nat|
                        n + 1 <= j < k ==> taken(#[trigger] candidate_name(name, j));
                assert forall|j: nat| n <= j < k implies taken(
                    #[trigger] candidate_name(name, j),
                ) by {}
                assert(p.0 == candidate_name(name, k));
            }
        } else {
            assert(candidate_name(name, n) == candidate_name(name, n));
        }
    }
}

/// The steps lead to that name: a name that is taken is passed over for the
/// next one, and the search ends at the first that is not.
pub proof fn law_the_steps_find_the_free_name(
    name: Seq<char>,
    taken: spec_fn(Seq<char>) -> bool,
    n: nat,
)
    requires
        n < MAX_CANDIDATES,
    ensures
        match collision_step(name, n, taken(candidate_name(name, n))) {
            CollisionModel::Take(file, renamed) => free_name(name, taken, n) == Some(
                (file, renamed),
            ),
            CollisionModel::Next(k) => k == n + 1 && k < MAX_CANDIDATES && free_name(name, taken, n)
                == free_name(name, taken, k),
            CollisionModel::Exhausted => free_name(name, taken, n) is None,
        },
{
    reveal_with_fuel(free_name, 2);
}

/// Different numbers have different digits.
proof fn lemma_decimal_is_injective(a: nat, b: nat)
    requires
        numbers::decimal(a) == numbers::decimal(b),
    ensures
        a == b,
    decreases a,
{
    let x = numbers::decimal(a);
    let y = numbers::decimal(b);
    assert(x.last() == y.last());
    assert(x.last() == numbers::digit(a % 10));
    assert(y.last() == numbers::digit(b % 10));
    lemma_decimal_is_not_empty(a / 10);
    lemma_decimal_is_not_empty(b / 10);
    if a >= 10 && b >= 10 {
        assert(x.drop_last() =~= numbers::decimal(a / 10));
        assert(y.drop_last() =~= numbers::decimal(b / 10));
        lemma_decimal_is_injective(a / 10, b / 10);
    } else {
        assert(a < 10 ==> x.len() == 1);
        assert(b < 10 ==> y.len() == 1);
    }
}

/// Every number has a digit.
proof fn lemma_decimal_is_not_empty(n: nat)
    ensures
        numbers::decimal(n).len() > 0,
{
}

/// The part of a candidate that stands between the stem and the extension.
proof fn lemma_candidate_parts(name: Seq<char>, n: nat)
    requires
        n > 0,
    ensures
        ({
            let stem = numbered_stem(name);
            let c = candidate_name(name, n);
            let d = numbers::decimal(n);
            let tail = match text::path_extension(name) {
                Some(e) => 1 + e.len(),
                None => 0,
            };
            c.len() == stem.len() + 3 + d.len() + tail && c.subrange(
                stem.len() as int + 2,
                stem.len() as int + 2 + d.len(),
            ) == d
        }),
{
    reveal_strlit(" (");
    reveal_strlit(")");
    reveal_strlit(".");
    let stem = numbered_stem(name);
    let d = numbers::decimal(n);
    assert(candidate_name(name, n).subrange(
        stem.len() as int + 2,
        stem.len() as int + 2 + d.len(),
    ) =~= d);
}

/// A name that no separator divides.
pub open spec fn undivided(name: Seq<char>) -> bool {
    forall|i: int| 0 <= i < name.len() ==> !text::separator(#[trigger] name[i])
}

/// The parts of an undivided name.
proof fn lemma_undivided_parts(name: Seq<char>)
    requires
        undivided(name),
    ensures
        text::file_name(name) is Some ==> text::file_name(name) == Some(name),
        text::file_name(name) is None ==> name.len() <= 2,
        text::file_name(name) is Some ==> name.len() == numbered_stem(name).len() + match
            text::path_extension(name) {
            Some(e) => 1 + e.len(),
            None => 0,
        },
        undivided(numbered_stem(name)),
        text::path_extension(name) matches Some(e) ==> undivided(e),
{
    reveal_strlit("download");
    let start = choose|i: int| text::base_starts_at(name, i);
    assert(text::base_starts_at(name, 0));
    if start > 0 {
        assert(text::separator(name[start - 1]));
    }
    assert(text::base_name(name) =~= name);
    if name.contains('.') {
        let i = text::lemma_last_index_exists(name, '.');
        assert(0 <= i < name.len());
    }
}

/// No name is tried twice.
pub proof fn law_candidates_differ(name: Seq<char>, a: nat, b: nat)
    requires
        undivided(name),
        a < b,
    ensures
        candidate_name(name, a) != candidate_name(name, b),
{
    lemma_candidate_parts(name, b);
    if a > 0 {
        lemma_candidate_parts(name, a);
        if candidate_name(name, a) == candidate_name(name, b) {
            assert(numbers::decimal(a) =~= numbers::decimal(b));
            lemma_decimal_is_injective(a, b);
        }
    } else {
        lemma_undivided_parts(name);
        reveal_strlit("download");
    }
}

/// A release cannot lead out of the directory: whatever name the browser gave,
/// no separator stands in any name that is tried for it.
pub proof fn law_a_release_stays_in_the_directory(original_name: Seq<char>, n: nat)
    ensures
        undivided(candidate_name(quarantine::sanitized(original_name), n)),
{
    let name = quarantine::sanitized(original_name);
    quarantine::law_sanitized_names_are_safe(original_name);
    assert(undivided(name));
    lemma_undivided_parts(name);
    numbers::lemma_decimal_digits(n);
    reveal_strlit(" (");
    reveal_strlit(")");
    reveal_strlit(".");
}

/// A name that is free is kept as it is; one that is taken gets a number behind
/// its stem, before its extension, and says so.
pub proof fn law_a_taken_name_gets_a_number(stem: Seq<char>, ext: Seq<char>, n: nat)
    requires
        stem.len() > 0,
        ext.len() > 0,
        forall|i: int| 0 <= i < stem.len() ==> #[trigger] stem[i] != '/' && stem[i] != '\\',
        forall|i: int|
            0 <= i < ext.len() ==> #[trigger] ext[i] != '/' && ext[i] != '\\' && ext[i] != '.',
    ensures
        candidate_name(stem + seq!['.'] + ext, 0) == stem + seq!['.'] + ext,
        n > 0 ==> candidate_name(stem + seq!['.'] + ext, n) == stem + " ("@ + numbers::decimal(n)
            + ")."@ + ext,
{
    let name = stem + seq!['.'] + ext;
    let none = Seq::<char>::empty();
    text::law_the_extension_follows_the_last_dot(none, stem, ext);
    assert(none + stem + seq!['.'] + ext =~= name);
    let dot = stem.len() as int;
    assert forall|j: int| dot < j < name.len() implies name[j] != '.' by {
        assert(name[j] == ext[j - dot - 1]);
    }
    text::lemma_last_index(name, '.', dot);
    assert(name.take(dot) =~= stem);
    assert(name.subrange(dot + 1, name.len() as int) =~= ext);
    reveal_strlit(")");
    reveal_strlit(".");
    reveal_strlit(").");
    assert(stem + " ("@ + numbers::decimal(n) + ")"@ + "."@ + ext =~= stem + " ("@
        + numbers::decimal(n) + ")."@ + ext);
}

/// A name without an extension gets its number at its end.
pub proof fn law_a_name_without_extension_gets_a_number(name: Seq<char>, n: nat)
    requires
        name.len() > 0,
        n > 0,
        forall|i: int|
            0 <= i < name.len() ==> #[trigger] name[i] != '/' && name[i] != '\\' && name[i] != '.',
    ensures
        candidate_name(name, n) == name + " ("@ + numbers::decimal(n) + ")"@,
{
    text::lemma_base_name(name, 0);
    assert(name.subrange(0, name.len() as int) =~= name);
    assert(name != seq!['.'] && name != seq!['.', '.']) by {
        assert(name[0] != '.');
        assert(seq!['.'][0] == '.' && seq!['.', '.'][0] == '.');
    }
    assert(!name.contains('.'));
}

/// The search goes on as long as names are taken, up to ten thousand of them,
/// and a name that is not taken ends it, whichever it is.
pub proof fn law_the_search_for_a_name_is_bounded(name: Seq<char>, n: nat)
    ensures
        collision_step(name, n, false) == CollisionModel::Take(candidate_name(name, n), n > 0),
        n < 9_999 ==> collision_step(name, n, true) == CollisionModel::Next(n + 1),
        n >= 9_999 ==> collision_step(name, n, true) == CollisionModel::Exhausted,
{
}

/// What no session can still be writing is swept.
pub proof fn law_abandoned_files_are_swept(age: nat, config: ChunkingConfig)
    ensures
        age > 2 * config.total_transfer_timeout_secs <==> stale(age, config),
{
}

/// A name that names no file gets one to put its number behind.
pub proof fn law_a_name_of_no_file_gets_a_stem(name: Seq<char>, n: nat)
    requires
        n > 0,
        text::file_name(name) is None,
    ensures
        candidate_name(name, n) == "download"@ + " ("@ + numbers::decimal(n) + ")"@,
{
}

} // verus!
