//! Sets of node numbers as rows of bits.
use fixedbitset::FixedBitSet;
use vstd::prelude::*;

verus! {

/// The set of `fixedbitset`, whose inside is not looked at.
#[verifier::external_type_specification]
#[verifier::external_body]
pub struct ExFixedBitSet(fixedbitset::FixedBitSet);

/// The numbers whose bits are set.
pub uninterp spec fn set_bits(bits: FixedBitSet) -> Set<usize>;

/// How many bits there are, set or not.
pub uninterp spec fn bit_length(bits: FixedBitSet) -> nat;

/// The members of a set below a bound, in ascending order.
pub open spec fn members_below(set: Set<usize>, bound: nat) -> Seq<usize>
    decreases bound,
{
    if bound == 0 {
        Seq::empty()
    } else if set.contains((bound - 1) as usize) {
        members_below(set, (bound - 1) as nat).push((bound - 1) as usize)
    } else {
        members_below(set, (bound - 1) as nat)
    }
}

/// The members of a set in ascending order.
pub open spec fn members(set: Set<usize>) -> Seq<usize> {
    members_below(set, (usize::MAX + 1) as nat)
}

/// `FixedBitSet::with_capacity`: as many bits as asked for, none of them set.
pub assume_specification[ FixedBitSet::with_capacity ](bits: usize) -> (r: FixedBitSet)
    ensures
        set_bits(r) == Set::<usize>::empty(),
        bit_length(r) == bits,
;

/// `FixedBitSet::grow_and_insert`: sets a bit, after adding unset bits up to it where there are
/// fewer.
pub assume_specification[ FixedBitSet::grow_and_insert ](set: &mut FixedBitSet, bits: usize)
    requires
        bits < usize::MAX,
    ensures
        set_bits(*final(set)) == set_bits(*old(set)).insert(bits),
        bit_length(*final(set)) == (if bit_length(*old(set)) > bits {
            bit_length(*old(set))
        } else {
            (bits + 1) as nat
        }),
;

/// `FixedBitSet::contains`: whether a bit is set. A bit beyond the last one is not.
pub assume_specification[ FixedBitSet::contains ](bits: &FixedBitSet, bit: usize) -> (r: bool)
    ensures
        r == set_bits(*bits).contains(bit),
        r ==> bit < bit_length(*bits),
;

/// `FixedBitSet::remove`: clears a bit. It must be one of the bits that there are.
pub assume_specification[ FixedBitSet::remove ](bits: &mut FixedBitSet, bit: usize)
    requires
        bit < bit_length(*old(bits)),
    ensures
        set_bits(*final(bits)) == set_bits(*old(bits)).remove(bit),
        bit_length(*final(bits)) == bit_length(*old(bits)),
;

/// `FixedBitSet::clear`: clears all bits.
pub assume_specification[ FixedBitSet::clear ](bits: &mut FixedBitSet)
    ensures
        set_bits(*final(bits)) == Set::<usize>::empty(),
        bit_length(*final(bits)) == bit_length(*old(bits)),
;

/// `FixedBitSet::intersect_with`: keeps the bits that are set in the other set too.
pub assume_specification[ FixedBitSet::intersect_with ](bits: &mut FixedBitSet, other: &FixedBitSet)
    ensures
        set_bits(*final(bits)) == set_bits(*old(bits)).intersect(set_bits(*other)),
        bit_length(*final(bits)) == bit_length(*old(bits)),
;

/// `FixedBitSet::ones`: the numbers of the set bits in ascending order, here collected. Each lies
/// below the number of bits, which is a `usize`.
#[verifier::external_body]
pub(crate) fn ones(bits: &FixedBitSet) -> (r: Vec<usize>)
    ensures
        r@ == members(set_bits(*bits)),
        forall|i: int| 0 <= i < r@.len() ==> (#[trigger] r@[i]) < usize::MAX,
{
    bits.ones().collect()
}

/// `FixedBitSet::count_ones` over all bits: how many are set.
#[verifier::external_body]
pub(crate) fn count_ones(bits: &FixedBitSet) -> (r: usize)
    ensures
        r == members(set_bits(*bits)).len(),
{
    bits.count_ones(..)
}

/// `Clone` for `FixedBitSet`: as many bits, the same ones set.
#[verifier::external_body]
pub(crate) fn copy_bits(bits: &FixedBitSet) -> (r: FixedBitSet)
    ensures
        set_bits(r) == set_bits(*bits),
        bit_length(r) == bit_length(*bits),
{
    bits.clone()
}

proof fn lemma_members_below(set: Set<usize>, bound: nat)
    requires
        bound <= usize::MAX + 1,
    ensures
        forall|x: usize|
            #[trigger] members_below(set, bound).contains(x) <==> set.contains(x) && x < bound,
        forall|i: int, j: int|
            0 <= i < j < members_below(set, bound).len() ==> members_below(set, bound)[i]
                < members_below(set, bound)[j],
    decreases bound,
{
    if bound > 0 {
        let before = members_below(set, (bound - 1) as nat);
        let all = members_below(set, bound);
        let last = (bound - 1) as usize;
        lemma_members_below(set, (bound - 1) as nat);
        assert forall|x: usize| #[trigger] all.contains(x) <==> set.contains(x) && x < bound by {
            if before.contains(x) {
                let k = choose|k: int| 0 <= k < before.len() && before[k] == x;
                assert(all[k] == x);
            }
            if set.contains(last) {
                assert(all[all.len() - 1] == last);
            }
            if all.contains(x) {
                let k = choose|k: int| 0 <= k < all.len() && all[k] == x;
                if k < before.len() {
                    assert(before[k] == x);
                    assert(before.contains(x));
                }
            }
        }
        assert forall|i: int, j: int| 0 <= i < j < all.len() implies all[i] < all[j] by {
            assert(all[i] == before[i]);
            assert(before.contains(before[i]));
            if j < before.len() {
                assert(all[j] == before[j]);
            }
        }
    }
}

/// The members of a set, each once, in ascending order.
pub proof fn lemma_members(set: Set<usize>)
    ensures
        forall|x: usize| #[trigger] members(set).contains(x) <==> set.contains(x),
        forall|i: int, j: int| 0 <= i < j < members(set).len() ==> members(set)[i] < members(set)[j],
{
    lemma_members_below(set, (usize::MAX + 1) as nat);
}

/// Numbers above all members do not change the list.
pub proof fn lemma_members_below_bound(set: Set<usize>, bound: nat, more: nat)
    requires
        bound <= more <= usize::MAX + 1,
        forall|x: usize| #[trigger] set.contains(x) ==> x < bound,
    ensures
        members_below(set, more) == members_below(set, bound),
    decreases more,
{
    if bound < more {
        lemma_members_below_bound(set, bound, (more - 1) as nat);
        assert(!set.contains((more - 1) as usize));
    }
}

} // verus!
