use bit_vec::BitVec;
use vstd::prelude::*;

verus! {

#[verifier::external_type_specification]
#[verifier::external_body]
#[verifier::reject_recursive_types(B)]
pub struct ExBitVec<B>(BitVec<B>);

/// The bits that a bit vector holds, in order.
pub uninterp spec fn bits_of(v: BitVec) -> Seq<bool>;

/// Relies on `BitVec::with_capacity`: the new vector holds no bits.
#[verifier::external_body]
pub(crate) fn bits_with_capacity(nbits: usize) -> (r: BitVec)
    ensures
        bits_of(r) == Seq::<bool>::empty(),
{
    BitVec::with_capacity(nbits)
}

/// Relies on `BitVec::len`: the number of bits held.
#[verifier::external_body]
pub(crate) fn bits_len(v: &BitVec) -> (r: usize)
    ensures
        r == bits_of(*v).len(),
{
    v.len()
}

/// Relies on `BitVec::push`: the bit is added at the end.
#[verifier::external_body]
pub(crate) fn push_bit(v: &mut BitVec, bit: bool)
    requires
        bits_of(*old(v)).len() < usize::MAX,
    ensures
        bits_of(*final(v)) == bits_of(*old(v)).push(bit),
{
    v.push(bit)
}

/// Relies on `BitVec::get`: the bit at `i`, or `None` past the end.
#[verifier::external_body]
pub(crate) fn get_bit(v: &BitVec, i: usize) -> (r: Option<bool>)
    ensures
        i < bits_of(*v).len() ==> r == Some(bits_of(*v)[i as int]),
        i >= bits_of(*v).len() ==> r.is_none(),
{
    v.get(i)
}

/// Relies on `BitVec::set`: the bit at `i` takes the new value; it panics past the end.
#[verifier::external_body]
pub(crate) fn set_bit(v: &mut BitVec, i: usize, bit: bool)
    requires
        i < bits_of(*old(v)).len(),
    ensures
        bits_of(*final(v)) == bits_of(*old(v)).update(i as int, bit),
{
    v.set(i, bit)
}

/// Relies on `BitVec`'s `Clone`: the copy holds the same bits.
#[verifier::external_body]
pub(crate) fn copy_bits(v: &BitVec) -> (r: BitVec)
    ensures
        bits_of(r) == bits_of(*v),
{
    v.clone()
}

/// The bit at `i`, which lies within the vector.
pub fn bit_at(v: &BitVec, i: usize) -> (r: bool)
    requires
        i < bits_of(*v).len(),
    ensures
        r == bits_of(*v)[i as int],
{
    match get_bit(v, i) {
        Some(bit) => bit,
        None => false,
    }
}

/// A light schedule: one row of phase bits per intersection, one bit per timestep.
pub open spec fn schedule_of(c: Seq<BitVec>) -> Seq<Seq<bool>> {
    c.map_values(|row: BitVec| bits_of(row))
}

/// Every one of the `rows` rows holds `cols` bits.
pub open spec fn has_shape(s: Seq<Seq<bool>>, rows: int, cols: int) -> bool {
    &&& s.len() == rows
    &&& forall|i: int| 0 <= i < rows ==> #[trigger] s[i].len() == cols
}

/// A copy of a schedule, row by row.
pub fn copy_candidate(c: &Vec<BitVec>) -> (r: Vec<BitVec>)
    ensures
        schedule_of(r@) == schedule_of(c@),
{
    let mut r: Vec<BitVec> = Vec::with_capacity(c.len());
    for i in 0..c.len()
        invariant
            r@.len() == i,
            forall|k: int| 0 <= k < i ==> bits_of(#[trigger] r@[k]) == bits_of(c@[k]),
    {
        r.push(copy_bits(&c[i]));
    }
    assert(schedule_of(r@) =~= schedule_of(c@));
    r
}

} // verus!
