//! The task registry: snapshots of the task documents under the watched
//! root, and delta computation between two snapshots.
//!
//! A snapshot is the set of filenames with the task extension taken from
//! one directory listing; the delta of two snapshots is the set of names
//! present in the new one but not in the old one — the newly appeared
//! tasks.

use vstd::prelude::*;

use crate::text::has_suffix;
use crate::text::views_of;

verus! {

/// A filename names a task document when it ends in `.md` and has a
/// non-empty stem.
pub open spec fn is_task_name(n: Seq<char>) -> bool {
    n.len() > ".md"@.len() && has_suffix(n, ".md"@)
}

/// Whether this filename names a task document.
pub fn is_task_file(name: &String) -> (r: bool)
    ensures
        r == is_task_name(name@),
{
    proof {
        reveal_strlit(".md");
    }
    let len: usize = name.as_str().unicode_len();
    if len <= 3 {
        return false;
    }
    crate::text::ends_with_str(name.as_str(), ".md")
}

/// The task names in a directory listing, in listing order.
pub open spec fn snapshot_spec(names: Seq<Seq<char>>) -> Seq<Seq<char>> {
    names.filter(|n: Seq<char>| is_task_name(n))
}

proof fn lemma_snapshot_push(ns: Seq<Seq<char>>, n: Seq<char>)
    ensures
        snapshot_spec(ns.push(n)) == if is_task_name(n) {
            snapshot_spec(ns).push(n)
        } else {
            snapshot_spec(ns)
        },
{
    reveal(Seq::filter);
    assert(ns.push(n).drop_last() =~= ns);
    assert(ns.push(n).last() == n);
}

/// Take a registry snapshot from a directory listing: keep the filenames
/// that name task documents, in listing order.
pub fn snapshot(listing: &Vec<String>) -> (r: Vec<String>)
    ensures
        views_of(r@) == snapshot_spec(views_of(listing@)),
{
    let n: usize = listing.len();
    let mut out: Vec<String> = Vec::new();
    let mut i: usize = 0;
    proof {
        reveal(Seq::filter);
        assert(views_of(listing@).take(0) =~= Seq::<Seq<char>>::empty());
        assert(views_of(out@) =~= Seq::<Seq<char>>::empty());
    }
    while i < n
        invariant
            0 <= i <= n,
            n == listing@.len(),
            views_of(out@) == snapshot_spec(views_of(listing@).take(i as int)),
        decreases n - i,
    {
        let ghost pre = views_of(listing@).take(i as int);
        proof {
            assert(views_of(listing@).take(i as int + 1) =~= pre.push(listing@[i as int]@));
            lemma_snapshot_push(pre, listing@[i as int]@);
        }
        if is_task_file(&listing[i]) {
            out.push(listing[i].clone());
            proof {
                assert(views_of(out@) =~= snapshot_spec(pre).push(listing@[i as int]@));
            }
        }
        i += 1;
    }
    proof {
        assert(views_of(listing@).take(n as int) =~= views_of(listing@));
    }
    out
}

/// Whether `n` occurs among `ns`.
pub open spec fn contains_name(ns: Seq<Seq<char>>, n: Seq<char>) -> bool {
    exists|i: int| 0 <= i < ns.len() && ns[i] == n
}

/// Whether the string `s` occurs in `v`.
pub fn contains_string(v: &Vec<String>, s: &String) -> (r: bool)
    ensures
        r == contains_name(views_of(v@), s@),
{
    let n: usize = v.len();
    let mut i: usize = 0;
    while i < n
        invariant
            0 <= i <= n,
            n == v@.len(),
            forall|j: int| 0 <= j < i ==> views_of(v@)[j] != s@,
        decreases n - i,
    {
        if *s == v[i] {
            proof {
                assert(views_of(v@)[i as int] == s@);
            }
            return true;
        }
        i += 1;
    }
    false
}

/// The names in `curr` that are not in `prev`, in `curr`'s order: the
/// newly appeared tasks.
pub open spec fn delta_spec(prev: Seq<Seq<char>>, curr: Seq<Seq<char>>) -> Seq<Seq<char>> {
    curr.filter(|n: Seq<char>| !contains_name(prev, n))
}

proof fn lemma_delta_push(prev: Seq<Seq<char>>, curr: Seq<Seq<char>>, n: Seq<char>)
    ensures
        delta_spec(prev, curr.push(n)) == if contains_name(prev, n) {
            delta_spec(prev, curr)
        } else {
            delta_spec(prev, curr).push(n)
        },
{
    reveal(Seq::filter);
    assert(curr.push(n).drop_last() =~= curr);
    assert(curr.push(n).last() == n);
}

/// The set difference `curr` minus `prev`, in `curr`'s order.
pub fn delta(prev: &Vec<String>, curr: &Vec<String>) -> (r: Vec<String>)
    ensures
        views_of(r@) == delta_spec(views_of(prev@), views_of(curr@)),
{
    let n: usize = curr.len();
    let mut out: Vec<String> = Vec::new();
    let mut i: usize = 0;
    proof {
        reveal(Seq::filter);
        assert(views_of(curr@).take(0) =~= Seq::<Seq<char>>::empty());
        assert(views_of(out@) =~= Seq::<Seq<char>>::empty());
    }
    while i < n
        invariant
            0 <= i <= n,
            n == curr@.len(),
            views_of(out@) == delta_spec(views_of(prev@), views_of(curr@).take(i as int)),
        decreases n - i,
    {
        let ghost pre = views_of(curr@).take(i as int);
        proof {
            assert(views_of(curr@).take(i as int + 1) =~= pre.push(curr@[i as int]@));
            lemma_delta_push(views_of(prev@), pre, curr@[i as int]@);
        }
        if !contains_string(prev, &curr[i]) {
            out.push(curr[i].clone());
            proof {
                assert(views_of(out@) =~= delta_spec(views_of(prev@), pre).push(
                    curr@[i as int]@,
                ));
            }
        }
        i += 1;
    }
    proof {
        assert(views_of(curr@).take(n as int) =~= views_of(curr@));
    }
    out
}

// ---------------------------------------------------------------------------
// Laws
// ---------------------------------------------------------------------------
proof fn lemma_delta_all_contained(prev: Seq<Seq<char>>, curr: Seq<Seq<char>>)
    requires
        forall|i: int| 0 <= i < curr.len() ==> contains_name(prev, #[trigger] curr[i]),
    ensures
        delta_spec(prev, curr) == Seq::<Seq<char>>::empty(),
    decreases curr.len(),
{
    reveal(Seq::filter);
    if curr.len() > 0 {
        assert(forall|i: int| 0 <= i < curr.drop_last().len() ==> #[trigger] curr.drop_last()[i]
            == curr[i]);
        lemma_delta_all_contained(prev, curr.drop_last());
        assert(contains_name(prev, curr.last()));
    }
}

/// Law: the delta of a snapshot against itself is empty.
pub proof fn lemma_delta_self(s: Seq<Seq<char>>)
    ensures
        delta_spec(s, s) == Seq::<Seq<char>>::empty(),
{
    assert forall|i: int| 0 <= i < s.len() implies contains_name(s, #[trigger] s[i]) by {
        assert(0 <= i < s.len() && s[i] == s[i]);
    }
    lemma_delta_all_contained(s, s);
}

/// Law: against an empty previous snapshot, every name is newly appeared.
pub proof fn lemma_delta_from_empty(curr: Seq<Seq<char>>)
    ensures
        delta_spec(Seq::<Seq<char>>::empty(), curr) == curr,
    decreases curr.len(),
{
    reveal(Seq::filter);
    if curr.len() > 0 {
        lemma_delta_from_empty(curr.drop_last());
        assert(!contains_name(Seq::<Seq<char>>::empty(), curr.last()));
        assert(curr.drop_last().push(curr.last()) =~= curr);
    }
}

} // verus!
