//! Round-end ranking: the best three scores, ties broken by the lower id.
use vstd::prelude::*;

verus! {

/// Number of places on the podium.
pub const PODIUM_SIZE: usize = 3;

/// A duck's id and score at the end of a round.
#[derive(Clone, Copy, Debug, PartialEq, Eq, Structural)]
pub struct Standing {
    pub id: u32,
    pub score: u32,
}

/// `a` ranks strictly before `b`: a higher score, or an equal score and a
/// lower id.
pub open spec fn outranks(a: Standing, b: Standing) -> bool {
    a.score > b.score || (a.score == b.score && a.id < b.id)
}

/// No two standings share an id.
pub open spec fn distinct_ids(s: Seq<Standing>) -> bool {
    forall|i: int, j: int| 0 <= i < j < s.len() ==> s[i].id != s[j].id
}

/// `r` is strictly ordered by rank.
pub open spec fn ranked(r: Seq<Standing>) -> bool {
    forall|a: int, b: int| 0 <= a < b < r.len() ==> outranks(r[a], r[b])
}

/// `r` holds the best `min(k, |entries|)` of `entries`, best first.
pub open spec fn is_top(entries: Seq<Standing>, k: int, r: Seq<Standing>) -> bool {
    &&& r.len() == if entries.len() < k { entries.len() as int } else { k }
    &&& ranked(r)
    &&& forall|a: int| 0 <= a < r.len() ==> entries.contains(#[trigger] r[a])
    &&& forall|j: int|
        0 <= j < entries.len() ==> r.contains(#[trigger] entries[j]) || outranks(
            r[r.len() - 1],
            entries[j],
        )
}

/// Index of the first place that `e` outranks, or `r.len()` if none.
fn insertion_point(r: &Vec<Standing>, e: Standing) -> (pos: usize)
    ensures
        pos <= r@.len(),
        forall|a: int| 0 <= a < pos ==> !outranks(e, #[trigger] r@[a]),
        pos < r@.len() ==> outranks(e, r@[pos as int]),
{
    let mut pos: usize = 0;
    while pos < r.len()
        invariant
            pos <= r@.len(),
            forall|a: int| 0 <= a < pos ==> !outranks(e, #[trigger] r@[a]),
        decreases r@.len() - pos,
    {
        let c = r[pos];
        if e.score > c.score || (e.score == c.score && e.id < c.id) {
            return pos;
        }
        pos = pos + 1;
    }
    pos
}

/// Selects the podium: the best three standings, best first.
///
/// Each standing is slotted in front of the first place it outranks, and the
/// list is cut back to three places.
pub fn select_podium(entries: &Vec<Standing>) -> (r: Vec<Standing>)
    requires
        distinct_ids(entries@),
    ensures
        is_top(entries@, PODIUM_SIZE as int, r@),
{
    let k: usize = PODIUM_SIZE;
    let mut r: Vec<Standing> = Vec::new();
    let mut i: usize = 0;
    while i < entries.len()
        invariant
            distinct_ids(entries@),
            k == PODIUM_SIZE,
            0 <= i <= entries@.len(),
            r@.len() == if i < k { i as int } else { k as int },
            ranked(r@),
            forall|a: int|
                0 <= a < r@.len() ==> exists|j: int| 0 <= j < i && entries@[j] == #[trigger] r@[a],
            forall|j: int|
                0 <= j < i ==> r@.contains(#[trigger] entries@[j]) || (r@.len() == k && outranks(
                    r@[k - 1],
                    entries@[j],
                )),
        decreases entries@.len() - i,
    {
        let e = entries[i];
        let ghost old_r = r@;
        proof {
            assert forall|a: int| 0 <= a < old_r.len() implies (#[trigger] old_r[a]).id != e.id by {
                let j = choose|j: int| 0 <= j < i && entries@[j] == old_r[a];
            }
        }
        let pos = insertion_point(&r, e);
        if pos < k {
            r.insert(pos, e);
            let ghost ins = r@;
            assert(ins == old_r.insert(pos as int, e));
            assert(ranked(ins)) by {
                assert forall|a: int, b: int| 0 <= a < b < ins.len() implies outranks(
                    ins[a],
                    ins[b],
                ) by {
                    if b < pos {
                    } else if b == pos {
                        assert(!outranks(e, old_r[a]));
                    } else if a == pos {
                        assert(outranks(e, old_r[pos as int]));
                        assert(b - 1 == pos || outranks(old_r[pos as int], old_r[b - 1]));
                    } else if a < pos {
                        assert(outranks(old_r[a], old_r[b - 1]));
                    } else {
                        assert(outranks(old_r[a - 1], old_r[b - 1]));
                    }
                }
            }
            if r.len() > k {
                r.pop();
            }
            proof {
                let nr = r@;
                assert(nr == ins.subrange(0, nr.len() as int));
                assert forall|a: int|
                    0 <= a < nr.len() implies exists|j: int|
                    0 <= j < i + 1 && entries@[j] == #[trigger] nr[a] by {
                    if a < pos {
                        assert(nr[a] == old_r[a]);
                        let j = choose|j: int| 0 <= j < i && entries@[j] == old_r[a];
                    } else if a == pos {
                        assert(entries@[i as int] == nr[a]);
                    } else {
                        assert(nr[a] == old_r[a - 1]);
                        let j = choose|j: int| 0 <= j < i && entries@[j] == old_r[a - 1];
                    }
                }
                assert forall|j: int| 0 <= j < i + 1 implies nr.contains(
                    #[trigger] entries@[j],
                ) || (nr.len() == k && outranks(nr[k - 1], entries@[j])) by {
                    if j == i {
                        assert(nr[pos as int] == e);
                    } else if old_r.contains(entries@[j]) {
                        let a = choose|a: int| 0 <= a < old_r.len() && old_r[a] == entries@[j];
                        if a < pos {
                            assert(nr[a] == entries@[j]);
                        } else if a + 1 < nr.len() {
                            assert(nr[a + 1] == entries@[j]);
                        } else {
                            assert(ins[a + 1] == entries@[j]);
                            assert(outranks(ins[k - 1], ins[k as int]));
                        }
                    } else {
                        assert(outranks(old_r[k - 1], entries@[j]));
                        assert(outranks(ins[k - 1], ins[k as int]));
                    }
                }
            }
        } else {
            proof {
                assert(pos == k);
                assert(!outranks(e, r@[k - 1]));
                assert(r@[k - 1].id != e.id);
                assert(outranks(r@[k - 1], e));
                assert forall|a: int|
                    0 <= a < r@.len() implies exists|j: int|
                    0 <= j < i + 1 && entries@[j] == #[trigger] r@[a] by {
                    let j = choose|j: int| 0 <= j < i && entries@[j] == r@[a];
                }
            }
        }
        i = i + 1;
    }
    proof {
        let n = entries@.len();
        assert forall|a: int| 0 <= a < r@.len() implies entries@.contains(#[trigger] r@[a]) by {
            let j = choose|j: int| 0 <= j < n && entries@[j] == r@[a];
        }
        if n < k {
            assert forall|j: int| 0 <= j < n implies r@.contains(#[trigger] entries@[j]) by {}
        }
    }
    r
}

/// The podium has at most three places, its scores never rise from one
/// place to the next, and when every entry has a real (non-zero) id so does
/// every place; it is short of three only when there are fewer entries.
pub proof fn lemma_podium_shape(entries: Seq<Standing>, r: Seq<Standing>)
    requires
        is_top(entries, PODIUM_SIZE as int, r),
        forall|i: int| 0 <= i < entries.len() ==> (#[trigger] entries[i]).id != 0,
    ensures
        r.len() <= PODIUM_SIZE,
        r.len() < PODIUM_SIZE ==> r.len() == entries.len(),
        forall|a: int, b: int| 0 <= a < b < r.len() ==> r[a].score >= r[b].score,
        forall|a: int| 0 <= a < r.len() ==> r[a].id != 0,
{
    assert forall|a: int| 0 <= a < r.len() implies r[a].id != 0 by {
        assert(entries.contains(r[a]));
    }
    assert forall|a: int, b: int| 0 <= a < b < r.len() implies r[a].score >= r[b].score by {
        assert(outranks(r[a], r[b]));
    }
}

} // verus!
