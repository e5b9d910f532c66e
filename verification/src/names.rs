//! Names: marker attributes, short names and file names.

use vstd::prelude::*;
use vstd::string::*;
use crate::store::Attribute;
use crate::text::{chars_of, join, joined, texts};

verus! {

/// Number of characters an automatically derived file name may have.
pub const DEFAULT_NAME_BUDGET: usize = 20;

/// The text that the name of a marker attribute holds.
pub open spec fn marker_pattern() -> Seq<char> {
    "PhantomPersistTag"@
}

/// `pat` stands in `text` from position `at` on.
pub open spec fn occurs_at(text: Seq<char>, pat: Seq<char>, at: int) -> bool {
    &&& 0 <= at
    &&& at + pat.len() <= text.len()
    &&& text.subrange(at, at + pat.len()) == pat
}

/// `pat` stands somewhere in `text`.
pub open spec fn contains_text(text: Seq<char>, pat: Seq<char>) -> bool {
    exists|at: int| occurs_at(text, pat, at)
}

/// Whether a name is that of a marker attribute: one that selects what is
/// exported and is itself left out of schema and columns.
pub open spec fn is_marker_name(name: Seq<char>) -> bool {
    contains_text(name, marker_pattern())
}

/// Whether `pat` stands in `text` from position `at` on.
fn matches_at(text: &Vec<char>, pat: &Vec<char>, at: usize) -> (r: bool)
    requires
        at + pat.len() <= text.len(),
    ensures
        r == occurs_at(text@, pat@, at as int),
{
    let mut k: usize = 0;
    while k < pat.len()
        invariant
            k <= pat.len(),
            at + pat.len() <= text.len(),
            forall|j: int| 0 <= j < k ==> text@[at + j] == pat@[j],
        decreases pat.len() - k,
    {
        if text[at + k] != pat[k] {
            proof {
                assert(text@.subrange(at as int, at + pat.len())[k as int] == text@[at + k]);
            }
            return false;
        }
        k = k + 1;
    }
    proof {
        assert(text@.subrange(at as int, at + pat.len()) =~= pat@);
    }
    true
}

/// Whether `pat` stands somewhere in `text`.
pub fn contains(text: &str, pat: &str) -> (r: bool)
    ensures
        r == contains_text(text@, pat@),
{
    let t = chars_of(text);
    let p = chars_of(pat);
    if p.len() > t.len() {
        return false;
    }
    let last: usize = t.len() - p.len();
    let mut at: usize = 0;
    loop
        invariant
            at <= last,
            last == t.len() - p.len(),
            p.len() <= t.len(),
            t@ == text@,
            p@ == pat@,
            forall|j: int| 0 <= j < at ==> !occurs_at(t@, p@, j),
        decreases last - at,
    {
        if matches_at(&t, &p, at) {
            return true;
        }
        if at == last {
            return false;
        }
        at = at + 1;
    }
}

/// Whether a name is that of a marker attribute.
pub fn is_marker(name: &str) -> (r: bool)
    ensures
        r == is_marker_name(name@),
{
    contains(name, "PhantomPersistTag")
}

/// A namespace separator stands in `s` at position `i`.
pub open spec fn separator_at(s: Seq<char>, i: int) -> bool {
    0 <= i && i + 1 < s.len() && s[i] == ':' && s[i + 1] == ':'
}

/// `i` is the position of the first namespace separator of `s`.
pub open spec fn first_separator_at(s: Seq<char>, i: int) -> bool {
    separator_at(s, i) && forall|j: int| 0 <= j < i ==> !separator_at(s, j)
}

/// The part of a qualified name after its last namespace separator, the
/// separators being found from the left, one after the other: a name without
/// a separator is its own short name, any other has the short name of what
/// follows its first separator.
pub open spec fn short_name_of(s: Seq<char>) -> Seq<char>
    decreases s.len(),
{
    if exists|i: int| first_separator_at(s, i) {
        let i = choose|i: int| first_separator_at(s, i);
        short_name_of(s.skip(i + 2))
    } else {
        s
    }
}

/// With its first separator at `i`, a name has the short name of what
/// follows the separator.
proof fn lemma_short_name_step(s: Seq<char>, i: int)
    requires
        first_separator_at(s, i),
    ensures
        short_name_of(s) == short_name_of(s.skip(i + 2)),
{
    let c = choose|c: int| first_separator_at(s, c);
    assert(first_separator_at(s, c));
    if c < i {
        assert(!separator_at(s, c));
    } else if i < c {
        assert(!separator_at(s, i));
    }
}

/// A name without a separator is its own short name.
proof fn lemma_short_name_plain(s: Seq<char>)
    requires
        forall|j: int| 0 <= j ==> !separator_at(s, j),
    ensures
        short_name_of(s) == s,
{
    if exists|i: int| first_separator_at(s, i) {
        let c = choose|c: int| first_separator_at(s, c);
        assert(separator_at(s, c));
    }
}

/// A short name holds no namespace separator and ends the name it was taken
/// from.
pub proof fn lemma_short_name_is_suffix(s: Seq<char>)
    ensures
        forall|j: int| !separator_at(short_name_of(s), j),
        short_name_of(s).len() <= s.len(),
        short_name_of(s) == s.skip(s.len() - short_name_of(s).len()),
    decreases s.len(),
{
    if exists|i: int| first_separator_at(s, i) {
        let i = choose|i: int| first_separator_at(s, i);
        let rest = s.skip(i + 2);
        lemma_short_name_is_suffix(rest);
        let n = short_name_of(rest).len();
        assert(rest.skip(rest.len() - n) =~= s.skip(s.len() - n));
    } else {
        assert(s.skip(0) =~= s);
        assert forall|j: int| !separator_at(s, j) by {
            if separator_at(s, j) {
                lemma_has_first_separator(s, j);
            }
        }
    }
}

/// Where a separator stands at `k`, a first one exists.
proof fn lemma_has_first_separator(s: Seq<char>, k: int)
    requires
        separator_at(s, k),
    ensures
        exists|i: int| first_separator_at(s, i),
    decreases k,
{
    if exists|j: int| 0 <= j < k && separator_at(s, j) {
        let j = choose|j: int| 0 <= j < k && separator_at(s, j);
        lemma_has_first_separator(s, j);
    } else {
        assert(first_separator_at(s, k));
    }
}

/// The position at which the short name of `name` starts.
fn short_name_start(name: &Vec<char>) -> (start: usize)
    ensures
        start <= name.len(),
        short_name_of(name@) == name@.skip(start as int),
{
    let n = name.len();
    let mut start: usize = 0;
    let mut i: usize = 0;
    proof {
        assert(name@.skip(0) =~= name@);
    }
    while i < n && i + 1 < n
        invariant
            n == name.len(),
            start <= i <= n,
            short_name_of(name@) == short_name_of(name@.skip(start as int)),
            forall|j: int| 0 <= j < i - start ==> !separator_at(name@.skip(start as int), j),
        decreases n - i,
    {
        let ghost tail = name@.skip(start as int);
        if name[i] == ':' && name[i + 1] == ':' {
            proof {
                assert(separator_at(tail, i - start));
                assert(first_separator_at(tail, i - start));
                lemma_short_name_step(tail, i - start);
                assert(tail.skip(i - start + 2) =~= name@.skip(i + 2));
                assert(name@.skip(i + 2).skip(0) =~= name@.skip(i + 2));
            }
            start = i + 2;
            i = i + 2;
        } else {
            i = i + 1;
        }
    }
    proof {
        let tail = name@.skip(start as int);
        assert forall|j: int| 0 <= j implies !separator_at(tail, j) by {
            if separator_at(tail, j) {
                assert(j + 1 < n - start);
                assert(j < i - start);
            }
        }
        lemma_short_name_plain(tail);
    }
    start
}

/// The short name of a qualified name.
pub fn short_name(name: &str) -> (r: String)
    ensures
        r@ == short_name_of(name@),
{
    let chars = chars_of(name);
    let start = short_name_start(&chars);
    proof {
        assert(name@.skip(start as int) =~= name@.subrange(start as int, name@.len() as int));
    }
    name.substring_char(start, chars.len()).to_owned()
}

/// The short names of a cluster's attributes, markers included.
pub open spec fn short_names(cluster: Seq<Attribute>) -> Seq<Seq<char>> {
    cluster.map_values(|a: Attribute| short_name_of(a.name@))
}

/// `s` cut to at most `budget` characters.
pub open spec fn truncated(s: Seq<char>, budget: nat) -> Seq<char> {
    if s.len() > budget {
        s.take(budget as int)
    } else {
        s
    }
}

/// The name that a cluster's file gets where none is configured: the short
/// names of its attributes with `_` between them, cut to `budget`
/// characters.
pub open spec fn derived_name_of(cluster: Seq<Attribute>, budget: nat) -> Seq<char> {
    truncated(joined(short_names(cluster), "_"@), budget)
}

/// The name of a cluster's file: the configured one, or else the derived
/// one.
pub open spec fn file_name_of(cluster: Seq<Attribute>, configured: Option<String>, budget: nat)
    -> Seq<char> {
    match configured {
        Some(name) => name@,
        None => derived_name_of(cluster, budget),
    }
}

/// Where a cluster's file is written: the output path, `_`, the file's
/// name and the extension.
pub open spec fn destination_of(output_path: Seq<char>, file_name: Seq<char>) -> Seq<char> {
    output_path + "_"@ + file_name + ".parquet"@
}

/// A derived name is never longer than the budget, and the destination adds
/// to the output path and the name nine characters: the `_` and the extension.
pub proof fn lemma_name_lengths(cluster: Seq<Attribute>, budget: nat, output_path: Seq<char>)
    ensures
        derived_name_of(cluster, budget).len() <= budget,
        destination_of(output_path, derived_name_of(cluster, budget)).len() <= output_path.len()
            + budget + 9,
{
    reveal_strlit("_");
    reveal_strlit(".parquet");
}

/// Cuts `s` to at most `budget` characters.
pub fn truncate(s: String, budget: usize) -> (r: String)
    ensures
        r@ == truncated(s@, budget as nat),
        r@.len() <= budget,
{
    if s.as_str().unicode_len() > budget {
        proof {
            assert(s@.take(budget as int) =~= s@.subrange(0, budget as int));
        }
        s.as_str().substring_char(0, budget).to_owned()
    } else {
        s
    }
}

/// Derives the name of a cluster's file from its attributes.
pub fn derived_name(cluster: &Vec<Attribute>, budget: usize) -> (r: String)
    ensures
        r@ == derived_name_of(cluster@, budget as nat),
        r@.len() <= budget,
{
    let mut parts: Vec<String> = Vec::new();
    let mut i: usize = 0;
    while i < cluster.len()
        invariant
            i <= cluster.len(),
            parts.len() == i,
            forall|j: int|
                0 <= j < i ==> (#[trigger] parts@[j])@ == short_name_of(cluster@[j].name@),
        decreases cluster.len() - i,
    {
        parts.push(short_name(cluster[i].name.as_str()));
        i = i + 1;
    }
    proof {
        assert(texts(parts@) =~= short_names(cluster@));
    }
    truncate(join(&parts, "_"), budget)
}

/// The name of a cluster's file: the configured one, or else the derived
/// one.
pub fn file_name(cluster: &Vec<Attribute>, configured: &Option<String>, budget: usize) -> (r:
    String)
    ensures
        r@ == file_name_of(cluster@, *configured, budget as nat),
        configured is None ==> r@.len() <= budget,
{
    match configured {
        Some(name) => name.clone(),
        None => derived_name(cluster, budget),
    }
}

/// Where a cluster's file is written.
pub fn destination(output_path: &str, file_name: &str) -> (r: String)
    ensures
        r@ == destination_of(output_path@, file_name@),
        r@.len() == output_path@.len() + file_name@.len() + 9,
{
    let mut out = String::from_str(output_path);
    out.append("_");
    out.append(file_name);
    out.append(".parquet");
    proof {
        reveal_strlit("_");
        reveal_strlit(".parquet");
    }
    out
}

} // verus!
