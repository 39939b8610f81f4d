//! The piece randomizer: a bag with one piece of each kind, dealt from in
//! a shuffled order and refilled when it is used up.

use vstd::multiset::*;
use vstd::prelude::*;
use vstd::seq_lib::*;
use rand::seq::SliceRandom;
use crate::piece::Piece;

verus! {

/// Number of pieces in a bag.
pub const BAG_SIZE: usize = 7;

/// The identifiers of a fresh bag, in their natural order.
pub open spec fn sorted_bag() -> Seq<u8> {
    seq![1u8, 2u8, 3u8, 4u8, 5u8, 6u8, 7u8]
}

/// The content of a bag: each identifier from 1 to 7 once.
pub open spec fn full_bag() -> Multiset<u8> {
    sorted_bag().to_multiset()
}

/// Shuffles the bag in place with `rand::seq::SliceRandom::shuffle`, drawing
/// from `rand::thread_rng`. The shuffle only swaps entries, so the bag holds
/// after the call what it held before, in some order. Nothing is claimed
/// about which order.
#[verifier::external_body]
pub(crate) fn shuffle_bag(bag: &mut [u8; BAG_SIZE])
    ensures
        final(bag)@.to_multiset() == old(bag)@.to_multiset(),
{
    bag.shuffle(&mut rand::thread_rng());
}

/// Whether the bag holds each identifier from 1 to 7 once.
pub open spec fn is_full_bag(bag: [u8; BAG_SIZE]) -> bool {
    bag@.to_multiset() == full_bag()
}

/// The bag and the position of the next piece to deal from it.
#[derive(Clone, Copy, Debug, PartialEq, Eq)]
pub struct PieceGenerator {
    pub bag: [u8; BAG_SIZE],
    pub idx: usize,
}

impl PieceGenerator {
    /// Validity: the cursor is inside the bag, and the bag is a permutation
    /// of the seven identifiers.
    pub open spec fn wf(self) -> bool {
        &&& self.idx < BAG_SIZE
        &&& is_full_bag(self.bag)
    }

    /// The identifier of the piece that is dealt next.
    pub open spec fn upcoming(self) -> u8 {
        self.bag[self.idx as int]
    }

    /// The generator after one piece has been dealt: the cursor has moved
    /// on, or, when the bag is used up, stands at the start of the bag
    /// `refill`.
    pub open spec fn advanced(self, refill: [u8; BAG_SIZE]) -> PieceGenerator {
        if self.idx + 1 < BAG_SIZE {
            PieceGenerator { bag: self.bag, idx: (self.idx + 1) as usize }
        } else {
            PieceGenerator { bag: refill, idx: 0 }
        }
    }

    /// A generator that deals the given bag from its start.
    pub fn with_bag(bag: [u8; BAG_SIZE]) -> (r: PieceGenerator)
        requires
            is_full_bag(bag),
        ensures
            r.wf(),
            r.bag == bag,
            r.idx == 0,
    {
        PieceGenerator { bag, idx: 0 }
    }

    /// A generator with a freshly shuffled bag.
    pub fn new() -> (r: PieceGenerator)
        ensures
            r.wf(),
            r.idx == 0,
    {
        let mut bag: [u8; BAG_SIZE] = [1, 2, 3, 4, 5, 6, 7];
        assert(bag@ =~= sorted_bag());
        shuffle_bag(&mut bag);
        PieceGenerator::with_bag(bag)
    }

    /// Deals the piece under the cursor and advances the cursor. When the
    /// bag is used up, `refill` becomes the bag and the cursor returns to
    /// its start.
    pub fn get_next_with(&mut self, refill: [u8; BAG_SIZE]) -> (r: Piece)
        requires
            old(self).wf(),
            is_full_bag(refill),
        ensures
            1 <= old(self).upcoming() <= 7,
            r == Piece::spawned(old(self).upcoming()),
            r.wf(),
            *final(self) == old(self).advanced(refill),
            final(self).wf(),
    {
        proof {
            self.lemma_bag_permutation();
        }
        let piece = Piece::new_from_idx(self.bag[self.idx]);
        self.idx = self.idx + 1;
        if self.idx > 6 {
            self.idx = 0;
            self.bag = refill;
        }
        piece
    }

    /// Deals the piece under the cursor and advances the cursor. When the
    /// bag is used up it is shuffled anew and the cursor returns to its
    /// start.
    pub fn get_next(&mut self) -> (r: Piece)
        requires
            old(self).wf(),
        ensures
            1 <= old(self).upcoming() <= 7,
            r == Piece::spawned(old(self).upcoming()),
            r.wf(),
            final(self).wf(),
            exists|refill: [u8; BAG_SIZE]|
                is_full_bag(refill) && *final(self) == old(self).advanced(refill),
    {
        let mut refill = self.bag;
        if self.idx + 1 >= BAG_SIZE {
            shuffle_bag(&mut refill);
        }
        self.get_next_with(refill)
    }

    /// The seven draws that start at a bag boundary are the seven entries of
    /// the bag, and among them each identifier from 1 to 7 occurs exactly
    /// once; every entry is such an identifier.
    pub proof fn lemma_bag_permutation(self)
        requires
            self.wf(),
        ensures
            self.bag@.len() == BAG_SIZE,
            forall|k: u8| 1 <= k <= 7 ==> self.bag@.to_multiset().count(k) == 1,
            forall|i: int| 0 <= i < BAG_SIZE ==> 1 <= #[trigger] self.bag[i] <= 7,
            forall|i: int, j: int|
                0 <= i < j < BAG_SIZE ==> #[trigger] self.bag[i] != #[trigger] self.bag[j],
    {
        lemma_full_bag_counts();
        assert forall|i: int| 0 <= i < BAG_SIZE implies 1 <= #[trigger] self.bag[i] <= 7 by {
            assert(self.bag@.contains(self.bag@[i]));
            to_multiset_contains(self.bag@, self.bag@[i]);
        }
        assert forall|i: int, j: int| 0 <= i < j < BAG_SIZE implies #[trigger] self.bag[i]
            != #[trigger] self.bag[j] by {
            if self.bag[i] == self.bag[j] {
                let rest = self.bag@.remove(j);
                to_multiset_remove(self.bag@, j);
                assert(rest[i] == self.bag@[i]);
                assert(rest.contains(self.bag@[i]));
                to_multiset_contains(rest, self.bag@[i]);
            }
        }
    }
}

/// A full bag holds each of the identifiers 1 to 7 once and nothing else.
pub proof fn lemma_full_bag_counts()
    ensures
        forall|k: u8| #[trigger]
            full_bag().count(k) == if 1 <= k <= 7 {
                1nat
            } else {
                0nat
            },
{
    broadcast use group_multiset_axioms;

    let s0 = Seq::<u8>::empty();
    let s1 = s0.push(1u8);
    let s2 = s1.push(2u8);
    let s3 = s2.push(3u8);
    let s4 = s3.push(4u8);
    let s5 = s4.push(5u8);
    let s6 = s5.push(6u8);
    let s7 = s6.push(7u8);
    assert(s7 =~= sorted_bag());
    assert forall|k: u8| s0.to_multiset().count(k) == 0 by {
        to_multiset_contains(s0, k);
    }
    to_multiset_build(s0, 1u8);
    to_multiset_build(s1, 2u8);
    to_multiset_build(s2, 3u8);
    to_multiset_build(s3, 4u8);
    to_multiset_build(s4, 5u8);
    to_multiset_build(s5, 6u8);
    to_multiset_build(s6, 7u8);
}

} // verus!
