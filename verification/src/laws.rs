//! The replay laws of the environment-override set.
//!
//! A [`CommandEnv`](crate::env::CommandEnv) records clear/set/remove
//! operations and merges them over an ambient snapshot on capture.  The
//! lemmas here state that this recording is faithful: capturing after any
//! sequence of recorded operations yields the same variables and values as
//! replaying the operations one by one against the snapshot, and the
//! "unchanged" fast path answers exactly when no operation was ever
//! recorded.

use vstd::prelude::*;

use crate::env::{ambient_map, capture_base, env_apply, merged, snapshot_view, vm_set};
use crate::wide::norm_key;

verus! {

/// One recorded operation on an environment-override set.
pub enum EnvOp {
    /// `set(key, val)`.
    SetVar { key: Seq<u16>, val: Seq<u16> },
    /// `remove(key)`.
    RemoveVar { key: Seq<u16> },
    /// `clear()`.
    ClearAll,
}

/// The override-set state, `(cleared, override map)`, that a fresh set
/// reaches after a sequence of operations; each step mirrors the contract
/// of the corresponding `CommandEnv` method.
pub open spec fn op_state(ops: Seq<EnvOp>) -> (bool, Map<Seq<u16>, (Seq<u16>, Option<Seq<u16>>)>)
    decreases ops.len(),
{
    if ops.len() == 0 {
        (false, Map::empty())
    } else {
        let prev = op_state(ops.drop_last());
        match ops.last() {
            EnvOp::SetVar { key, val } => (prev.0, vm_set(prev.1, key, Some(val))),
            EnvOp::RemoveVar { key } => if prev.0 {
                (prev.0, prev.1.remove(norm_key(key)))
            } else {
                (prev.0, vm_set(prev.1, key, None))
            },
            EnvOp::ClearAll => (true, Map::empty()),
        }
    }
}

/// Replaying the operations directly, one by one, against a base
/// environment: set inserts or overwrites, remove deletes, clear empties.
pub open spec fn replay_ops(
    base: Map<Seq<u16>, (Seq<u16>, Seq<u16>)>,
    ops: Seq<EnvOp>,
) -> Map<Seq<u16>, (Seq<u16>, Seq<u16>)>
    decreases ops.len(),
{
    if ops.len() == 0 {
        base
    } else {
        let prev = replay_ops(base, ops.drop_last());
        match ops.last() {
            EnvOp::SetVar { key, val } => env_apply(prev, key, Some(val)),
            EnvOp::RemoveVar { key } => env_apply(prev, key, None),
            EnvOp::ClearAll => Map::empty(),
        }
    }
}

/// An environment with the casing of its keys forgotten: normalized key to
/// value.
pub open spec fn values_of(m: Map<Seq<u16>, (Seq<u16>, Seq<u16>)>) -> Map<Seq<u16>, Seq<u16>> {
    Map::new(|n: Seq<u16>| m.dom().contains(n), |n: Seq<u16>| m[n].1)
}

/// What a capture starts from, given the recorded cleared flag.
pub open spec fn base_if(base: Map<Seq<u16>, (Seq<u16>, Seq<u16>)>, cleared: bool) -> Map<
    Seq<u16>,
    (Seq<u16>, Seq<u16>),
> {
    if cleared {
        Map::empty()
    } else {
        base
    }
}

/// Capturing after any sequence of recorded operations gives, variable for
/// variable, the same values as replaying set/remove/clear one by one
/// against the initial snapshot — however the operations were grouped into
/// the recorded override map.
pub proof fn lemma_capture_replays_ops(base: Map<Seq<u16>, (Seq<u16>, Seq<u16>)>, ops: Seq<EnvOp>)
    ensures
        values_of(merged(base_if(base, op_state(ops).0), op_state(ops).1)) == values_of(
            replay_ops(base, ops),
        ),
    decreases ops.len(),
{
    if ops.len() == 0 {
        assert(values_of(merged(base, Map::empty())) =~= values_of(base));
    } else {
        lemma_capture_replays_ops(base, ops.drop_last());
        let prev = op_state(ops.drop_last());
        let cur = op_state(ops);
        let rprev = replay_ops(base, ops.drop_last());
        let rcur = replay_ops(base, ops);
        let lhs_prev = merged(base_if(base, prev.0), prev.1);
        let lhs = merged(base_if(base, cur.0), cur.1);
        match ops.last() {
            EnvOp::SetVar { key, val } => {
                let n = norm_key(key);
                assert(values_of(lhs) =~= values_of(rcur)) by {
                    assert forall|x: Seq<u16>|
                        values_of(lhs).dom().contains(x) <==> values_of(rcur).dom().contains(
                            x,
                        ) by {
                        if x != n {
                            assert(values_of(lhs_prev).dom().contains(x) <==> values_of(
                                rprev,
                            ).dom().contains(x));
                        }
                    }
                    assert forall|x: Seq<u16>| values_of(lhs).dom().contains(x) implies values_of(
                        lhs,
                    )[x] == values_of(rcur)[x] by {
                        if x != n {
                            assert(values_of(lhs_prev).dom().contains(x));
                            assert(values_of(lhs_prev)[x] == values_of(rprev)[x]);
                        }
                    }
                }
            },
            EnvOp::RemoveVar { key } => {
                let n = norm_key(key);
                assert(values_of(lhs) =~= values_of(rcur)) by {
                    assert forall|x: Seq<u16>|
                        values_of(lhs).dom().contains(x) <==> values_of(rcur).dom().contains(
                            x,
                        ) by {
                        if x != n {
                            assert(values_of(lhs_prev).dom().contains(x) <==> values_of(
                                rprev,
                            ).dom().contains(x));
                        }
                    }
                    assert forall|x: Seq<u16>| values_of(lhs).dom().contains(x) implies values_of(
                        lhs,
                    )[x] == values_of(rcur)[x] by {
                        if x != n {
                            assert(values_of(lhs_prev).dom().contains(x));
                            assert(values_of(lhs_prev)[x] == values_of(rprev)[x]);
                        }
                    }
                }
            },
            EnvOp::ClearAll => {
                assert(values_of(lhs) =~= values_of(rcur));
            },
        }
    }
}

/// The same law, said of what `capture` promises: for an override set in
/// the state that a sequence of recorded operations reaches, the captured
/// environment holds, variable for variable, the values of replaying the
/// operations one by one against the ambient snapshot.
pub proof fn lemma_capture_state_replays(a: Seq<(Vec<u16>, Vec<u16>)>, ops: Seq<EnvOp>)
    ensures
        values_of(merged(capture_base(a, op_state(ops).0), op_state(ops).1)) == values_of(
            replay_ops(ambient_map(snapshot_view(a)), ops),
        ),
{
    lemma_capture_replays_ops(ambient_map(snapshot_view(a)), ops);
    assert(capture_base(a, op_state(ops).0) == base_if(
        ambient_map(snapshot_view(a)),
        op_state(ops).0,
    ));
}

/// Whether any operation at all was recorded.
pub open spec fn no_ops_recorded(ops: Seq<EnvOp>) -> bool {
    forall|i: int| 0 <= i < ops.len() ==> !(ops[i] is ClearAll) && !(ops[i] is SetVar) && !(ops[i] is RemoveVar)
}

/// The override set reports "unchanged" — so a spawner may simply inherit
/// the ambient environment — exactly when clear was never requested and no
/// set or remove was ever recorded.
pub proof fn lemma_unchanged_iff_no_ops(ops: Seq<EnvOp>)
    ensures
        (!op_state(ops).0 && op_state(ops).1 == Map::<
            Seq<u16>,
            (Seq<u16>, Option<Seq<u16>>),
        >::empty()) <==> no_ops_recorded(ops),
    decreases ops.len(),
{
    if ops.len() == 0 {
    } else {
        lemma_unchanged_iff_no_ops(ops.drop_last());
        let prev = op_state(ops.drop_last());
        assert(!no_ops_recorded(ops)) by {
            assert(0 <= ops.len() - 1 < ops.len());
        }
        match ops.last() {
            EnvOp::SetVar { key, val } => {
                let n = norm_key(key);
                assert(op_state(ops).1.dom().contains(n));
                assert(op_state(ops).1 != Map::<
                    Seq<u16>,
                    (Seq<u16>, Option<Seq<u16>>),
                >::empty());
            },
            EnvOp::RemoveVar { key } => {
                if !prev.0 {
                    let n = norm_key(key);
                    assert(op_state(ops).1.dom().contains(n));
                    assert(op_state(ops).1 != Map::<
                        Seq<u16>,
                        (Seq<u16>, Option<Seq<u16>>),
                    >::empty());
                }
            },
            EnvOp::ClearAll => {
                assert(op_state(ops).0);
            },
        }
    }
}

} // verus!
