//! The outside collections that pathfinding keeps its state in: a
//! fixed-capacity `ArrayVec` of moves and `FxHashMap`s keyed by position.

use vstd::prelude::*;
use arrayvec::ArrayVec;
use rustc_hash::{FxBuildHasher, FxHashMap};

verus! {

/// Key of a block position in pathfinding maps.
pub type PosKey = (i32, i32, i32);

#[verifier::external_type_specification]
#[verifier::external_body]
#[verifier::reject_recursive_types(T)]
pub struct ExArrayVec<T, const CAP: usize>(ArrayVec<T, CAP>);

#[verifier::external_type_specification]
#[verifier::external_body]
pub struct ExFxBuildHasher(FxBuildHasher);

/// What an `ArrayVec` of moves holds, in order: destination key and cost.
pub uninterp spec fn moves_of(v: ArrayVec<(PosKey, i32), 8>) -> Seq<(PosKey, i32)>;

/// `ArrayVec::new`: an empty vector (capacity 8 is within its limit, so it
/// does not panic).
#[verifier::external_body]
pub(crate) fn moves_new() -> (r: ArrayVec<(PosKey, i32), 8>)
    ensures
        moves_of(r).len() == 0,
{
    ArrayVec::new()
}

/// `ArrayVec::push`: appends `m`; it panics only when the vector is full,
/// which `requires` rules out.
#[verifier::external_body]
pub(crate) fn moves_push(v: &mut ArrayVec<(PosKey, i32), 8>, m: (PosKey, i32))
    requires
        moves_of(*old(v)).len() < 8,
    ensures
        moves_of(*final(v)) == moves_of(*old(v)).push(m),
{
    v.push(m);
}

/// `ArrayVec::len`: the number of elements held.
#[verifier::external_body]
pub(crate) fn moves_len(v: &ArrayVec<(PosKey, i32), 8>) -> (r: usize)
    ensures
        r == moves_of(*v).len(),
{
    v.len()
}

/// Element `i` of `ArrayVec::as_slice`.
#[verifier::external_body]
pub(crate) fn moves_get(v: &ArrayVec<(PosKey, i32), 8>, i: usize) -> (r: (PosKey, i32))
    requires
        i < moves_of(*v).len(),
    ensures
        r == moves_of(*v)[i as int],
{
    v.as_slice()[i]
}

/// `FxHashMap::default`: an empty map.
#[verifier::external_body]
pub(crate) fn pos_map_new<V>() -> (r: FxHashMap<PosKey, V>)
    ensures
        r@.is_empty(),
{
    FxHashMap::default()
}

/// `HashMap::get` (copied out): the value stored under `k`, if any.
#[verifier::external_body]
pub(crate) fn pos_map_get<V: Copy>(m: &FxHashMap<PosKey, V>, k: PosKey) -> (r: Option<V>)
    ensures
        r == (if m@.contains_key(k) { Some(m@[k]) } else { None }),
{
    m.get(&k).copied()
}

/// `HashMap::insert`: stores `v` under `k`, replacing any earlier value.
#[verifier::external_body]
pub(crate) fn pos_map_insert<V>(m: &mut FxHashMap<PosKey, V>, k: PosKey, v: V)
    ensures
        final(m)@ == old(m)@.insert(k, v),
{
    m.insert(k, v);
}

} // verus!
