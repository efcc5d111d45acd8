//! The inline-capacity lists of `smallvec` used for cell lists and for the
//! entities stacked on a surface cell.

use vstd::prelude::*;
use smallvec::SmallVec;

verus! {

/// A list of grid cells, inline up to 8 (a `smallvec::SmallVec`).
#[verifier::external_body]
pub struct CellList {
    inner: SmallVec<[(i32, i32); 8]>,
}

/// A list of entity ids, inline up to 4 (a `smallvec::SmallVec`).
#[verifier::external_body]
pub struct EntityList {
    inner: SmallVec<[u64; 4]>,
}

/// The cells held by a cell list, in order.
pub uninterp spec fn cells_of(v: CellList) -> Seq<(i32, i32)>;

/// The entity ids held by an entity list, in order.
pub uninterp spec fn entities_of(v: EntityList) -> Seq<u64>;

/// Lists shorter than this can take one more element: growing doubles the
/// capacity to the next power of two, and the allocation of 8-byte items
/// must stay within `isize::MAX` bytes.
pub open spec fn list_room() -> int {
    isize::MAX / 16
}

/// `SmallVec::new`: an empty list.
#[verifier::external_body]
pub(crate) fn cells_new() -> (r: CellList)
    ensures
        cells_of(r) == Seq::<(i32, i32)>::empty(),
{
    CellList { inner: SmallVec::new() }
}

/// `SmallVec::push`: appends the cell at the end.
#[verifier::external_body]
pub(crate) fn cells_push(v: &mut CellList, c: (i32, i32))
    requires
        cells_of(*old(v)).len() < list_room(),
    ensures
        cells_of(*final(v)) == cells_of(*old(v)).push(c),
{
    v.inner.push(c)
}

/// `SmallVec::as_slice`: the cells in order.
#[verifier::external_body]
pub(crate) fn cells_as_slice(v: &CellList) -> (r: &[(i32, i32)])
    ensures
        r@ == cells_of(*v),
{
    v.inner.as_slice()
}

/// `SmallVec::drain(..n)`, with the drained items dropped: removes the first
/// `n` cells and keeps the rest in order. `drain` panics when `n` exceeds the
/// length, which the precondition rules out.
#[verifier::external_body]
pub(crate) fn cells_drop_front(v: &mut CellList, n: usize)
    requires
        n <= cells_of(*old(v)).len(),
    ensures
        cells_of(*final(v)) == cells_of(*old(v)).subrange(n as int, cells_of(*old(v)).len() as int),
{
    v.inner.drain(..n);
}

/// `SmallVec::new`: an empty list.
#[verifier::external_body]
pub(crate) fn entities_new() -> (r: EntityList)
    ensures
        entities_of(r) == Seq::<u64>::empty(),
{
    EntityList { inner: SmallVec::new() }
}

/// `SmallVec::push`: appends the entity at the end.
#[verifier::external_body]
pub(crate) fn entities_push(v: &mut EntityList, e: u64)
    requires
        entities_of(*old(v)).len() < list_room(),
    ensures
        entities_of(*final(v)) == entities_of(*old(v)).push(e),
{
    v.inner.push(e)
}

/// The entity `x` is not `e`.
pub fn differs(x: &u64, e: u64) -> (r: bool)
    ensures
        r == (*x != e),
{
    *x != e
}

/// The entities of `s` other than `e`, in order.
pub open spec fn without(s: Seq<u64>, e: u64) -> Seq<u64> {
    s.filter(|x: u64| x != e)
}

/// `SmallVec::retain`, keeping the entities other than `e`: as documented,
/// the kept elements stay in their order.
#[verifier::external_body]
pub(crate) fn entities_remove_all(v: &mut EntityList, e: u64)
    ensures
        entities_of(*final(v)) == without(entities_of(*old(v)), e),
{
    v.inner.retain(|x| differs(x, e))
}

/// `SmallVec::as_slice`: the entities in order.
#[verifier::external_body]
pub(crate) fn entities_as_slice(v: &EntityList) -> (r: &[u64])
    ensures
        r@ == entities_of(*v),
{
    v.inner.as_slice()
}

impl CellList {
    /// The cells, in order.
    pub fn to_vec(&self) -> (r: Vec<(i32, i32)>)
        ensures
            r@ == cells_of(*self),
    {
        let s = cells_as_slice(self);
        let mut out: Vec<(i32, i32)> = Vec::new();
        let mut i: usize = 0;
        while i < s.len()
            invariant
                0 <= i <= s@.len(),
                s@ == cells_of(*self),
                out@ == s@.subrange(0, i as int),
            decreases s@.len() - i,
        {
            out.push(s[i]);
            i = i + 1;
        }
        assert(out@ == s@);
        out
    }
}

impl EntityList {
    /// The entities, in order.
    pub fn to_vec(&self) -> (r: Vec<u64>)
        ensures
            r@ == entities_of(*self),
    {
        let s = entities_as_slice(self);
        let mut out: Vec<u64> = Vec::new();
        let mut i: usize = 0;
        while i < s.len()
            invariant
                0 <= i <= s@.len(),
                s@ == entities_of(*self),
                out@ == s@.subrange(0, i as int),
            decreases s@.len() - i,
        {
            out.push(s[i]);
            i = i + 1;
        }
        assert(out@ == s@);
        out
    }
}

} // verus!
