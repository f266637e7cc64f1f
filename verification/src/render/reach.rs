//! Which nodes can still be heard: those from which some path of
//! connections leads to a terminal destination.

use vstd::prelude::*;
use crate::render::elimination::ranked;
use crate::render::order::{is_path, linked, reaches, Edge, NodeId};

verus! {

/// Some path of `links` leads from `v` to a node of `ids` that `sinks`
/// marks.
pub open spec fn heard(ids: Seq<NodeId>, sinks: Seq<bool>, links: Seq<Edge>, v: NodeId) -> bool {
    exists|j: int| 0 <= j < ids.len() && sinks[j] && reaches(links, v, #[trigger] ids[j])
}

/// How many of the first `upto` flags are not set.
pub open spec fn unset(flags: Seq<bool>, upto: int) -> int
    decreases upto,
{
    if upto <= 0 {
        0
    } else {
        unset(flags, upto - 1) + if flags[upto - 1] {
            0int
        } else {
            1int
        }
    }
}

/// No more flags are unset than there are.
proof fn lemma_unset_bounds(flags: Seq<bool>, upto: int)
    requires
        0 <= upto,
    ensures
        0 <= unset(flags, upto) <= upto,
    decreases upto,
{
    if upto > 0 {
        lemma_unset_bounds(flags, upto - 1);
    }
}

/// Setting a flag that was not set leaves one flag fewer unset.
proof fn lemma_unset_after_set(flags: Seq<bool>, i: int, upto: int)
    requires
        0 <= i < flags.len(),
        0 <= upto <= flags.len(),
        !flags[i],
    ensures
        unset(flags.update(i, true), upto) == unset(flags, upto) - if i < upto {
            1int
        } else {
            0int
        },
    decreases upto,
{
    if upto > 0 {
        lemma_unset_after_set(flags, i, upto - 1);
    }
}

/// A path with one more edge in front is a path.
proof fn lemma_path_prepend(links: Seq<Edge>, v: NodeId, p: Seq<NodeId>)
    requires
        is_path(links, p),
        linked(links, v, p[0]),
    ensures
        is_path(links, seq![v] + p),
        (seq![v] + p)[0] == v,
        (seq![v] + p).last() == p.last(),
{
}

/// Where the marks hold every sink and are closed under walking an edge
/// backwards, every node on a path to a sink is marked.
proof fn lemma_closed_holds_path(
    ids: Seq<NodeId>,
    ends: Seq<(usize, usize)>,
    links: Seq<Edge>,
    marks: Seq<bool>,
    p: Seq<NodeId>,
    j: int,
    at: int,
)
    requires
        ids.no_duplicates(),
        ranked(ids, ends, links),
        marks.len() == ids.len(),
        forall|k: int| 0 <= k < ends.len() && marks[(#[trigger] ends[k]).1 as int] ==> marks[ends[k].0 as int],
        is_path(links, p),
        0 <= j < ids.len(),
        marks[j],
        p.last() == ids[j],
        0 <= at < p.len(),
    ensures
        exists|i: int| 0 <= i < ids.len() && #[trigger] ids[i] == p[at] && marks[i],
    decreases p.len() - at,
{
    if !(at == p.len() - 1) {
        lemma_closed_holds_path(ids, ends, links, marks, p, j, at + 1);
        let k = choose|k: int|
            0 <= k < links.len() && (#[trigger] links[k]).source == p[at] && links[k].destination == p[at + 1];
        assert(ends[k].1 < ids.len());
    }
}

/// For each node of `ids`, whether some path of `links` leads from it to a
/// node that `sinks` marks. `ends` gives the edges of `links` by position.
///
/// The sinks are marked first. Then every edge whose destination is marked
/// marks its source, again and again until a whole pass marks nothing new.
pub(crate) fn flow_back(
    ids: &Vec<NodeId>,
    ends: &Vec<(usize, usize)>,
    sinks: &Vec<bool>,
    Ghost(links): Ghost<Seq<Edge>>,
) -> (marks: Vec<bool>)
    requires
        ids@.no_duplicates(),
        ranked(ids@, ends@, links),
        sinks@.len() == ids@.len(),
    ensures
        marks@.len() == ids@.len(),
        forall|i: int| 0 <= i < ids@.len() ==> (#[trigger] marks@[i] <==> heard(ids@, sinks@, links, ids@[i])),
{
    let n = ids.len();
    let m = ends.len();
    let mut marks: Vec<bool> = Vec::new();
    let mut left: usize = 0;
    let mut i: usize = 0;
    while i < n
        invariant
            i <= n,
            n == ids.len(),
            n == sinks.len(),
            marks.len() == i,
            left == unset(marks@, i as int),
            left <= i,
            forall|x: int| 0 <= x < i ==> marks[x] == sinks[x],
        decreases n - i,
    {
        let ghost before = marks@;
        marks.push(sinks[i]);
        proof {
            assert(unset(marks@, i as int) == unset(before, i as int)) by {
                lemma_unset_same(before, marks@, i as int);
            }
        }
        if !sinks[i] {
            left += 1;
        }
        i += 1;
    }
    proof {
        assert forall|x: int| 0 <= x < n && marks[x] implies heard(ids@, sinks@, links, #[trigger] ids[x]) by {
            let p = seq![ids[x]];
            assert(is_path(links, p));
        }
    }
    let mut changed = true;
    while changed
        invariant
            n == ids.len(),
            n == sinks.len(),
            m == ends.len(),
            marks.len() == n,
            ids@.no_duplicates(),
            ranked(ids@, ends@, links),
            left == unset(marks@, n as int),
            forall|x: int| 0 <= x < n && sinks[x] ==> marks[x],
            forall|x: int| 0 <= x < n && marks[x] ==> heard(ids@, sinks@, links, #[trigger] ids[x]),
            !changed ==> forall|k: int|
                0 <= k < m && marks[(#[trigger] ends[k]).1 as int] ==> marks[ends[k].0 as int],
        decreases
                left + if changed {
                    1int
                } else {
                    0int
                },
    {
        changed = false;
        let ghost start = left;
        let mut k: usize = 0;
        while k < m
            invariant
                k <= m,
                n == ids.len(),
                n == sinks.len(),
                m == ends.len(),
                marks.len() == n,
                ids@.no_duplicates(),
                ranked(ids@, ends@, links),
                left == unset(marks@, n as int),
                forall|x: int| 0 <= x < n && sinks[x] ==> marks[x],
                forall|x: int| 0 <= x < n && marks[x] ==> heard(ids@, sinks@, links, #[trigger] ids[x]),
                changed ==> left < start,
                !changed ==> left == start,
                !changed ==> forall|j: int|
                    0 <= j < k && marks[(#[trigger] ends[j]).1 as int] ==> marks[ends[j].0 as int],
            decreases m - k,
        {
            let s = ends[k].0;
            let d = ends[k].1;
            if marks[d] && !marks[s] {
                proof {
                    lemma_unset_after_set(marks@, s as int, n as int);
                    lemma_unset_bounds(marks@.update(s as int, true), n as int);
                    let j = choose|j: int| 0 <= j < n && sinks[j] && reaches(links, ids[d as int], #[trigger] ids[j]);
                    let p = choose|p: Seq<NodeId>| #[trigger]
                        is_path(links, p) && p[0] == ids[d as int] && p.last() == ids[j];
                    lemma_path_prepend(links, ids[s as int], p);
                }
                marks.set(s, true);
                left -= 1;
                changed = true;
            }
            k += 1;
        }
    }
    proof {
        assert forall|i: int| 0 <= i < n implies (#[trigger] marks@[i] <==> heard(ids@, sinks@, links, ids@[i])) by {
            if heard(ids@, sinks@, links, ids[i]) {
                let j = choose|j: int| 0 <= j < n && sinks[j] && reaches(links, ids[i], #[trigger] ids[j]);
                let p = choose|p: Seq<NodeId>| #[trigger] is_path(links, p) && p[0] == ids[i] && p.last() == ids[j];
                lemma_closed_holds_path(ids@, ends@, links, marks@, p, j, 0);
            }
        }
    }
    marks
}

/// Flags that agree have equally many unset.
proof fn lemma_unset_same(a: Seq<bool>, b: Seq<bool>, upto: int)
    requires
        0 <= upto <= a.len(),
        upto <= b.len(),
        forall|i: int| 0 <= i < upto ==> a[i] == b[i],
    ensures
        unset(a, upto) == unset(b, upto),
    decreases upto,
{
    if upto > 0 {
        lemma_unset_same(a, b, upto - 1);
    }
}

} // verus!
