use vstd::prelude::*;
use crate::position::Position;

verus! {

/// `a` stands before `b`, row by row and within a row column by column.
pub open spec fn precedes(a: Position, b: Position) -> bool {
    a.0 < b.0 || (a.0 == b.0 && a.1 < b.1)
}

/// Each entry stands before every later one.
pub open spec fn ascending<V>(listed: Seq<(Position, V)>) -> bool {
    forall|i: int, j: int|
        0 <= i < j < listed.len() ==> precedes((#[trigger] listed[i]).0, (#[trigger] listed[j]).0)
}

/// No two entries have the same position.
pub open spec fn apart<V>(listed: Seq<(Position, V)>) -> bool {
    forall|i: int, j: int|
        0 <= i < j < listed.len() ==> (#[trigger] listed[i]).0 != (#[trigger] listed[j]).0
}

/// The entry is one of those from index `from` up to `upto`.
pub open spec fn occurs<V>(listed: Seq<(Position, V)>, from: int, upto: int, entry: (Position, V)) -> bool {
    exists|k: int| from <= k < upto && #[trigger] listed[k] == entry
}

/// Whether `a` stands before `b`.
pub fn stands_before(a: Position, b: Position) -> (r: bool)
    ensures
        r == precedes(a, b),
{
    a.0 < b.0 || (a.0 == b.0 && a.1 < b.1)
}

/// The entries of two ascending lists, which share no position, in one
/// ascending list.
pub fn merge<V: Copy>(left: &Vec<(Position, V)>, right: &Vec<(Position, V)>) -> (r: Vec<
    (Position, V),
>)
    requires
        ascending(left@),
        ascending(right@),
        left.len() + right.len() <= usize::MAX,
        forall|i: int, j: int|
            0 <= i < left.len() && 0 <= j < right.len() ==> (#[trigger] left@[i]).0
                != (#[trigger] right@[j]).0,
    ensures
        ascending(r@),
        r.len() == left.len() + right.len(),
        forall|e: (Position, V)|
            #![trigger occurs(r@, 0, r.len() as int, e)]
            #![trigger occurs(left@, 0, left.len() as int, e)]
            #![trigger occurs(right@, 0, right.len() as int, e)]
            occurs(r@, 0, r.len() as int, e) <==> occurs(left@, 0, left.len() as int, e) || occurs(
                right@,
                0,
                right.len() as int,
                e,
            ),
{
    let mut out: Vec<(Position, V)> = Vec::new();
    let mut i: usize = 0;
    let mut j: usize = 0;
    while i < left.len() || j < right.len()
        invariant
            i <= left.len(),
            j <= right.len(),
            left.len() + right.len() <= usize::MAX,
            out.len() == i + j,
            ascending(left@),
            ascending(right@),
            ascending(out@),
            forall|a: int, b: int|
                0 <= a < left.len() && 0 <= b < right.len() ==> (#[trigger] left@[a]).0
                    != (#[trigger] right@[b]).0,
            forall|t: int, k: int|
                0 <= t < out.len() && i <= k < left.len() ==> precedes(
                    (#[trigger] out@[t]).0,
                    (#[trigger] left@[k]).0,
                ),
            forall|t: int, k: int|
                0 <= t < out.len() && j <= k < right.len() ==> precedes(
                    (#[trigger] out@[t]).0,
                    (#[trigger] right@[k]).0,
                ),
            forall|t: int|
                0 <= t < out.len() ==> occurs(left@, 0, i as int, #[trigger] out@[t]) || occurs(
                    right@,
                    0,
                    j as int,
                    out@[t],
                ),
            forall|k: int| 0 <= k < i ==> occurs(out@, 0, out.len() as int, #[trigger] left@[k]),
            forall|k: int| 0 <= k < j ==> occurs(out@, 0, out.len() as int, #[trigger] right@[k]),
        decreases left.len() - i + right.len() - j,
    {
        let ghost before = out@;
        let from_left: bool = if i == left.len() {
            false
        } else if j == right.len() {
            true
        } else {
            stands_before(left[i].0, right[j].0)
        };
        if from_left {
            let entry = left[i];
            out.push(entry);
            i += 1;
            proof {
                assert(out@[out.len() - 1] == left@[i - 1]);
                assert forall|t: int, k: int| 0 <= t < out.len() && j <= k < right.len() implies precedes(
                    (#[trigger] out@[t]).0,
                    (#[trigger] right@[k]).0,
                ) by {
                    if t < before.len() {
                        assert(out@[t] == before[t]);
                    } else {
                        assert(precedes(left@[i - 1].0, right@[j as int].0));
                        if k > j {
                            assert(precedes(right@[j as int].0, right@[k].0));
                        }
                    }
                }
                assert forall|t: int, k: int| 0 <= t < out.len() && i <= k < left.len() implies precedes(
                    (#[trigger] out@[t]).0,
                    (#[trigger] left@[k]).0,
                ) by {
                    if t < before.len() {
                        assert(out@[t] == before[t]);
                    } else {
                        assert(precedes(left@[i - 1].0, left@[k].0));
                    }
                }
            }
        } else {
            let entry = right[j];
            out.push(entry);
            j += 1;
            proof {
                assert(out@[out.len() - 1] == right@[j - 1]);
                assert forall|t: int, k: int| 0 <= t < out.len() && i <= k < left.len() implies precedes(
                    (#[trigger] out@[t]).0,
                    (#[trigger] left@[k]).0,
                ) by {
                    if t < before.len() {
                        assert(out@[t] == before[t]);
                    } else {
                        assert(left@[i as int].0 != right@[j - 1].0);
                        assert(precedes(right@[j - 1].0, left@[i as int].0));
                        if k > i {
                            assert(precedes(left@[i as int].0, left@[k].0));
                        }
                    }
                }
                assert forall|t: int, k: int| 0 <= t < out.len() && j <= k < right.len() implies precedes(
                    (#[trigger] out@[t]).0,
                    (#[trigger] right@[k]).0,
                ) by {
                    if t < before.len() {
                        assert(out@[t] == before[t]);
                    } else {
                        assert(precedes(right@[j - 1].0, right@[k].0));
                    }
                }
            }
        }
        proof {
            let last = out.len() - 1;
            assert forall|a: int, b: int| 0 <= a < b < out.len() implies precedes(
                (#[trigger] out@[a]).0,
                (#[trigger] out@[b]).0,
            ) by {
                assert(out@[a] == before[a]);
                if b < last {
                    assert(out@[b] == before[b]);
                }
            }
            assert forall|t: int| 0 <= t < out.len() implies occurs(
                left@,
                0,
                i as int,
                #[trigger] out@[t],
            ) || occurs(right@, 0, j as int, out@[t]) by {
                if t < last {
                    assert(out@[t] == before[t]);
                    if occurs(left@, 0, i as int - (if from_left { 1int } else { 0int }), before[t]) {
                        let k = choose|k: int|
                            0 <= k < i as int - (if from_left { 1int } else { 0int })
                                && #[trigger] left@[k] == before[t];
                        assert(left@[k] == out@[t]);
                    } else {
                        let k = choose|k: int|
                            0 <= k < j as int - (if from_left { 0int } else { 1int })
                                && #[trigger] right@[k] == before[t];
                        assert(right@[k] == out@[t]);
                    }
                } else if from_left {
                    assert(left@[i - 1] == out@[t]);
                } else {
                    assert(right@[j - 1] == out@[t]);
                }
            }
            assert forall|k: int| 0 <= k < i implies occurs(
                out@,
                0,
                out.len() as int,
                #[trigger] left@[k],
            ) by {
                if from_left && k == i - 1 {
                    assert(out@[last] == left@[k]);
                } else {
                    let t = choose|t: int| 0 <= t < before.len() && #[trigger] before[t] == left@[k];
                    assert(out@[t] == left@[k]);
                }
            }
            assert forall|k: int| 0 <= k < j implies occurs(
                out@,
                0,
                out.len() as int,
                #[trigger] right@[k],
            ) by {
                if !from_left && k == j - 1 {
                    assert(out@[last] == right@[k]);
                } else {
                    let t = choose|t: int| 0 <= t < before.len() && #[trigger] before[t] == right@[k];
                    assert(out@[t] == right@[k]);
                }
            }
        }
    }
    proof {
        assert forall|e: (Position, V)|
            occurs(out@, 0, out.len() as int, e) <==> occurs(left@, 0, left.len() as int, e)
                || occurs(right@, 0, right.len() as int, e) by {
            if occurs(out@, 0, out.len() as int, e) {
                let t = choose|t: int| 0 <= t < out.len() && #[trigger] out@[t] == e;
                assert(occurs(left@, 0, i as int, out@[t]) || occurs(right@, 0, j as int, out@[t]));
            }
            if occurs(left@, 0, left.len() as int, e) {
                let k = choose|k: int| 0 <= k < left.len() && #[trigger] left@[k] == e;
                assert(occurs(out@, 0, out.len() as int, left@[k]));
            }
            if occurs(right@, 0, right.len() as int, e) {
                let k = choose|k: int| 0 <= k < right.len() && #[trigger] right@[k] == e;
                assert(occurs(out@, 0, out.len() as int, right@[k]));
            }
        }
    }
    out
}

/// The entries from index `from` up to `upto` in ascending order.
pub fn ordered<V: Copy>(listed: &Vec<(Position, V)>, from: usize, upto: usize) -> (r: Vec<
    (Position, V),
>)
    requires
        from <= upto <= listed.len(),
        apart(listed@),
    ensures
        ascending(r@),
        r.len() == upto - from,
        forall|e: (Position, V)|
            #![trigger occurs(r@, 0, r.len() as int, e)]
            #![trigger occurs(listed@, from as int, upto as int, e)]
            occurs(r@, 0, r.len() as int, e) <==> occurs(listed@, from as int, upto as int, e),
    decreases upto - from,
{
    let mut r: Vec<(Position, V)> = Vec::new();
    if upto - from == 0 {
        return r;
    }
    if upto - from == 1 {
        r.push(listed[from]);
        proof {
            assert(r@[0] == listed@[from as int]);
            assert forall|e: (Position, V)|
                occurs(r@, 0, r.len() as int, e) <==> occurs(listed@, from as int, upto as int, e) by {
                if occurs(r@, 0, r.len() as int, e) {
                    assert(listed@[from as int] == e);
                }
                if occurs(listed@, from as int, upto as int, e) {
                    assert(r@[0] == e);
                }
            }
        }
        return r;
    }
    let middle: usize = from + (upto - from) / 2;
    let left = ordered(listed, from, middle);
    let right = ordered(listed, middle, upto);
    proof {
        assert forall|i: int, j: int| 0 <= i < left.len() && 0 <= j < right.len() implies (
        #[trigger] left@[i]).0 != (#[trigger] right@[j]).0 by {
            let first = left@[i];
            let second = right@[j];
            assert(occurs(left@, 0, left.len() as int, first));
            assert(occurs(right@, 0, right.len() as int, second));
            assert(occurs(listed@, from as int, middle as int, first));
            assert(occurs(listed@, middle as int, upto as int, second));
            let a = choose|a: int| from <= a < middle && #[trigger] listed@[a] == left@[i];
            let b = choose|b: int| middle <= b < upto && #[trigger] listed@[b] == right@[j];
            assert(listed@[a].0 != listed@[b].0);
        }
    }
    let merged = merge(&left, &right);
    proof {
        assert forall|e: (Position, V)|
            occurs(merged@, 0, merged.len() as int, e) <==> occurs(
                listed@,
                from as int,
                upto as int,
                e,
            ) by {
            if occurs(listed@, from as int, upto as int, e) {
                let k = choose|k: int| from <= k < upto && #[trigger] listed@[k] == e;
                if k < middle {
                    assert(occurs(listed@, from as int, middle as int, e));
                } else {
                    assert(occurs(listed@, middle as int, upto as int, e));
                }
            }
            if occurs(left@, 0, left.len() as int, e) {
                let k = choose|k: int| from <= k < middle && #[trigger] listed@[k] == e;
                assert(occurs(listed@, from as int, upto as int, e));
            }
            if occurs(right@, 0, right.len() as int, e) {
                let k = choose|k: int| middle <= k < upto && #[trigger] listed@[k] == e;
                assert(occurs(listed@, from as int, upto as int, e));
            }
        }
    }
    merged
}

} // verus!
