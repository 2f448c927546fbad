//! The retention sweeper's decision core: for one topic it leads, a node
//! orders the sealed segments oldest-first and asks the retention policy
//! about each. What comes out is the deletion plan; committing the delete
//! command and removing the bytes on disk is the caller's loop.

use vstd::prelude::*;

verus! {

use crate::metadata::TopicState;
use crate::metadata::TopicStateV;
use crate::retention::spec_should_delete;
use crate::tables::lemma_assoc_contains;

/// Strictly ascending: sorted with no repeats.
pub open spec fn strictly_sorted(s: Seq<u64>) -> bool {
    forall|i: int, j: int| 0 <= i < j < s.len() ==> s[i] < s[j]
}

/// `s` lists exactly the keys of `m`, oldest segment id first.
pub open spec fn sorted_keys_of(s: Seq<u64>, m: Map<u64, u64>) -> bool {
    strictly_sorted(s) && forall|id: u64| #[trigger] s.contains(id) <==> m.contains_key(id)
}

/// Two strictly sorted listings of the same keys are the same listing.
pub proof fn lemma_sorted_unique(a: Seq<u64>, b: Seq<u64>)
    requires
        strictly_sorted(a),
        strictly_sorted(b),
        forall|id: u64| #[trigger] a.contains(id) <==> b.contains(id),
    ensures
        a == b,
    decreases a.len(),
{
    if a.len() == 0 {
        if b.len() > 0 {
            assert(b.contains(b[0]));
            assert(a.contains(b[0]));
        }
        assert(a =~= b);
    } else {
        assert(a.contains(a.last()));
        assert(b.contains(a.last()));
        if b.len() == 0 {
            assert(!b.contains(a.last()));
        }
        assert(b.len() > 0);
        assert(b.contains(b.last()));
        assert(a.contains(b.last()));
        // the last elements are each other's upper bounds, so they are equal
        let ja = choose|j: int| 0 <= j < b.len() && #[trigger] b[j] == a.last();
        let jb = choose|j: int| 0 <= j < a.len() && #[trigger] a[j] == b.last();
        assert(a.last() <= b.last() && b.last() <= a.last()) by {
            assert(b[ja] <= b.last());
            assert(a[jb] <= a.last());
        }
        assert forall|id: u64| #[trigger] a.drop_last().contains(id) implies b.drop_last().contains(
            id,
        ) by {
            let k = choose|k: int| 0 <= k < a.drop_last().len() && a.drop_last()[k] == id;
            assert(a[k] == id && id < a.last());
            assert(a.contains(id));
            assert(b.contains(id));
            let k2 = choose|k2: int| 0 <= k2 < b.len() && b[k2] == id;
            assert(k2 < b.len() - 1);
            assert(b.drop_last()[k2] == id);
        }
        assert forall|id: u64| #[trigger] b.drop_last().contains(id) implies a.drop_last().contains(
            id,
        ) by {
            let k = choose|k: int| 0 <= k < b.drop_last().len() && b.drop_last()[k] == id;
            assert(b[k] == id && id < b.last());
            assert(b.contains(id));
            assert(a.contains(id));
            let k2 = choose|k2: int| 0 <= k2 < a.len() && a[k2] == id;
            assert(k2 < a.len() - 1);
            assert(a.drop_last()[k2] == id);
        }
        lemma_sorted_unique(a.drop_last(), b.drop_last());
        assert(a.len() == b.len());
        assert forall|i: int| 0 <= i < a.len() implies a[i] == b[i] by {
            if i < a.len() - 1 {
                assert(a.drop_last()[i] == a[i]);
                assert(b.drop_last()[i] == b[i]);
            }
        }
        assert(a =~= b);
    }
}

/// A sealed segment's age at time `now`: zero when its creation time is
/// unrecorded or lies in the future.
pub open spec fn seg_age(t: TopicStateV, id: u64, now: u64) -> u64 {
    if t.segment_created_at.contains_key(id) {
        if now >= t.segment_created_at[id] {
            (now - t.segment_created_at[id]) as u64
        } else {
            0u64
        }
    } else {
        0u64
    }
}

/// The ids the policy approves for deletion, walking `s` (the sealed ids,
/// oldest first) with each segment's rank among `total`.
pub open spec fn spec_approved(s: Seq<u64>, t: TopicStateV, now: u64, total: u64) -> Seq<u64>
    decreases s.len(),
{
    if s.len() == 0 {
        Seq::empty()
    } else {
        let pre = spec_approved(s.drop_last(), t, now, total);
        if spec_should_delete(
            t.retention,
            seg_age(t, s.last(), now),
            total,
            (s.len() - 1) as u64,
        ) {
            pre.push(s.last())
        } else {
            pre
        }
    }
}

/// Sorts distinct ids into ascending order.
fn sort_ids(v: Vec<u64>) -> (r: Vec<u64>)
    requires
        forall|i: int, j: int| 0 <= i < j < v@.len() ==> v@[i] != v@[j],
    ensures
        strictly_sorted(r@),
        forall|id: u64| #[trigger] r@.contains(id) <==> v@.contains(id),
        r@.len() == v@.len(),
{
    let mut out: Vec<u64> = Vec::new();
    let mut i: usize = 0;
    while i < v.len()
        invariant
            i <= v@.len(),
            forall|a: int, b: int| 0 <= a < b < v@.len() ==> v@[a] != v@[b],
            strictly_sorted(out@),
            out@.len() == i,
            forall|id: u64| #[trigger] out@.contains(id) <==> v@.take(i as int).contains(id),
        decreases v@.len() - i,
    {
        let x: u64 = v[i];
        proof {
            assert(!v@.take(i as int).contains(x)) by {
                if v@.take(i as int).contains(x) {
                    let k = choose|k: int| 0 <= k < i && v@.take(i as int)[k] == x;
                    assert(v@[k] == v@[i as int]);
                }
            }
            assert(!out@.contains(x));
        }
        let mut j: usize = 0;
        while j < out.len() && out[j] < x
            invariant
                j <= out@.len(),
                forall|k: int| 0 <= k < j ==> out@[k] < x,
            decreases out@.len() - j,
        {
            j = j + 1;
        }
        proof {
            assert(j < out@.len() ==> out@[j as int] >= x);
            assert(j < out@.len() ==> out@[j as int] != x ==> out@[j as int] > x);
            if j < out@.len() {
                assert(out@.contains(out@[j as int]));
            }
        }
        let ghost pre = out@;
        out.insert(j, x);
        proof {
            assert(out@ == pre.insert(j as int, x));
            assert forall|a: int, b: int| 0 <= a < b < out@.len() implies out@[a] < out@[b] by {
                let av: u64 = out@[a];
                let bv: u64 = out@[b];
                if a < j && b < j {
                    assert(av == pre[a] && bv == pre[b]);
                } else if a < j && b == j {
                    assert(av == pre[a] && bv == x);
                } else if a < j && b > j {
                    assert(av == pre[a] && bv == pre[b - 1]);
                } else if a == j && b > j {
                    assert(av == x && bv == pre[b - 1]);
                    assert(pre[b - 1] >= x);
                    assert(pre.contains(pre[b - 1]));
                    assert(pre[b - 1] != x);
                } else {
                    assert(av == pre[a - 1] && bv == pre[b - 1]);
                }
            }
            assert forall|id: u64| #[trigger] out@.contains(id) implies v@.take(
                i as int + 1,
            ).contains(id) by {
                let k = choose|k: int| 0 <= k < out@.len() && out@[k] == id;
                if k == j {
                    assert(v@.take(i as int + 1)[i as int] == x);
                } else {
                    let k0: int = if k < j {
                        k
                    } else {
                        k - 1
                    };
                    assert(pre[k0] == id);
                    assert(pre.contains(id));
                    assert(v@.take(i as int).contains(id));
                    let m = choose|m: int| 0 <= m < i && v@.take(i as int)[m] == id;
                    assert(v@.take(i as int + 1)[m] == id);
                }
            }
            assert forall|id: u64| #[trigger] v@.take(i as int + 1).contains(id)
                implies out@.contains(id) by {
                let m = choose|m: int| 0 <= m < i + 1 && #[trigger] v@.take(i as int + 1)[m] == id;
                if m == i {
                    assert(out@[j as int] == id);
                } else {
                    assert(v@.take(i as int)[m] == id);
                    assert(v@.take(i as int).contains(id));
                    assert(pre.contains(id));
                    let k = choose|k: int| 0 <= k < pre.len() && pre[k] == id;
                    if k < j {
                        assert(out@[k] == id);
                    } else {
                        assert(out@[k + 1] == id);
                    }
                }
            }
        }
        i = i + 1;
    }
    proof {
        assert(v@.take(v@.len() as int) =~= v@);
    }
    out
}

/// The deletion plan for one topic at time `now_secs`: walking the sealed
/// segments oldest-first, every id the topic's policy approves, in that
/// order. The open segment is never among them, since only sealed ids are
/// walked.
pub fn plan_deletions(t: &TopicState, now_secs: u64) -> (r: Vec<u64>)
    requires
        t.wf(),
    ensures
        forall|s: Seq<u64>|
            sorted_keys_of(s, t@.sealed_segments) ==> r@ == spec_approved(
                s,
                t@,
                now_secs,
                s.len() as u64,
            ),
{
    let mut keys: Vec<u64> = Vec::new();
    let mut i: usize = 0;
    while i < t.sealed_segments.entries.len()
        invariant
            i <= t.sealed_segments.entries@.len(),
            t.wf(),
            keys@.len() == i,
            forall|k: int| 0 <= k < i ==> keys@[k] == (#[trigger] t.sealed_segments.entries@[k]).0,
        decreases t.sealed_segments.entries@.len() - i,
    {
        keys.push(t.sealed_segments.entries[i].0);
        i = i + 1;
    }
    proof {
        assert forall|a: int, b: int| 0 <= a < b < keys@.len() implies keys@[a] != keys@[b] by {
            assert(t.sealed_segments.entries@[a].0 != t.sealed_segments.entries@[b].0);
        }
    }
    let sorted: Vec<u64> = sort_ids(keys);
    proof {
        assert forall|id: u64| #[trigger] sorted@.contains(id)
            <==> t@.sealed_segments.contains_key(id) by {
            lemma_assoc_contains(t.sealed_segments.entries@, id);
            if keys@.contains(id) {
                let k = choose|k: int| 0 <= k < keys@.len() && keys@[k] == id;
                assert(t.sealed_segments.entries@[k].0 == id);
            }
            if t@.sealed_segments.contains_key(id) {
                let k = choose|k: int|
                    0 <= k < t.sealed_segments.entries@.len()
                        && (#[trigger] t.sealed_segments.entries@[k]).0 == id;
                assert(keys@[k] == id);
            }
        }
        assert(sorted_keys_of(sorted@, t@.sealed_segments));
    }
    let total: u64 = sorted.len() as u64;
    let mut out: Vec<u64> = Vec::new();
    let mut i: usize = 0;
    while i < sorted.len()
        invariant
            i <= sorted@.len(),
            t.wf(),
            total == sorted@.len(),
            strictly_sorted(sorted@),
            out@ == spec_approved(sorted@.take(i as int), t@, now_secs, total),
        decreases sorted@.len() - i,
    {
        let id: u64 = sorted[i];
        let age: u64 = match t.segment_created_at.get(id) {
            Some(c) => if now_secs >= c {
                now_secs - c
            } else {
                0
            },
            None => 0,
        };
        proof {
            assert(age == seg_age(t@, id, now_secs));
            assert(sorted@.take(i as int + 1).drop_last() =~= sorted@.take(i as int));
            assert(sorted@.take(i as int + 1).last() == id);
        }
        if t.retention.should_delete_segment(age, total, i as u64) {
            out.push(id);
        }
        i = i + 1;
    }
    proof {
        assert(sorted@.take(sorted@.len() as int) =~= sorted@);
        assert forall|s: Seq<u64>| sorted_keys_of(s, t@.sealed_segments) implies out@
            == spec_approved(s, t@, now_secs, s.len() as u64) by {
            lemma_sorted_unique(s, sorted@);
        }
    }
    out
}

} // verus!
