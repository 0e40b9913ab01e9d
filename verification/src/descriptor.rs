//! The packed chain-length-and-bag-stripe-index descriptor.
//!
//! A free chain sitting in a bag stripe is described by two sub-fields that
//! must be read and written together, so that no reader can see a torn pair:
//! the length of the chain in blocks, and the index of the stripe the chain
//! is filed under. Both are packed into one fixed-width word.
//!
//! Layout of the packed word, from most to least significant bit:
//! the high 10 bits hold the chain length (0 ..= 1023) and the low 6 bits
//! hold the bag stripe index (0 ..= 63), so
//! `packed == chain_length * 64 + bag_stripe_index`. This layout is part of
//! the persisted format of a pool and must not change across its lifetime.

use vstd::prelude::*;

verus! {

/// Largest chain length, in blocks, that the packed word can carry.
pub const MAXIMUM_CHAIN_LENGTH: u16 = 1023;

/// Largest bag stripe index that the packed word can carry.
pub const MAXIMUM_BAG_STRIPE_INDEX: u16 = 63;

/// Width of the stripe-index field: the chain length is stored as a multiple
/// of this, which is `1 << 6`.
pub const STRIPE_FIELD_SPAN: u16 = 64;

/// The two sub-fields packed into one word. A value with chain length zero
/// denotes "not filed in any stripe"; a live free chain always has length
/// at least one.
#[derive(Clone, Copy, PartialEq, Eq, Structural, Debug)]
pub struct ChainLengthAndBagStripeIndex(pub u16);

impl ChainLengthAndBagStripeIndex {
    /// The chain length carried by the packed word.
    pub open spec fn spec_chain_length(self) -> u16 {
        self.0 / STRIPE_FIELD_SPAN
    }

    /// The stripe index carried by the packed word.
    pub open spec fn spec_bag_stripe_index(self) -> u16 {
        self.0 % STRIPE_FIELD_SPAN
    }

    /// Whether the word denotes a chain filed in some stripe.
    pub open spec fn spec_is_filed(self) -> bool {
        self.spec_chain_length() >= 1
    }

    /// Packs a chain length and a stripe index into one word.
    pub fn new(chain_length: u16, bag_stripe_index: u16) -> (r: Self)
        requires
            chain_length <= MAXIMUM_CHAIN_LENGTH,
            bag_stripe_index <= MAXIMUM_BAG_STRIPE_INDEX,
        ensures
            r.spec_chain_length() == chain_length,
            r.spec_bag_stripe_index() == bag_stripe_index,
    {
        proof {
            lemma_pack_unpack(chain_length, bag_stripe_index);
        }
        ChainLengthAndBagStripeIndex(chain_length * STRIPE_FIELD_SPAN + bag_stripe_index)
    }

    /// The word that denotes "not filed in any stripe".
    pub fn unfiled() -> (r: Self)
        ensures
            !r.spec_is_filed(),
            r.spec_chain_length() == 0,
    {
        ChainLengthAndBagStripeIndex(0)
    }

    /// Unpacks the chain length.
    pub fn chain_length(&self) -> (r: u16)
        ensures
            r == self.spec_chain_length(),
    {
        self.0 / STRIPE_FIELD_SPAN
    }

    /// Unpacks the stripe index.
    pub fn bag_stripe_index(&self) -> (r: u16)
        ensures
            r == self.spec_bag_stripe_index(),
    {
        self.0 % STRIPE_FIELD_SPAN
    }

    /// Whether the word denotes a chain filed in some stripe.
    pub fn is_filed(&self) -> (r: bool)
        ensures
            r == self.spec_is_filed(),
    {
        self.0 / STRIPE_FIELD_SPAN >= 1
    }
}

/// Packing then unpacking gives back the two fields: over the full valid
/// range of both fields, decode is a left inverse of encode.
pub proof fn lemma_pack_unpack(chain_length: u16, bag_stripe_index: u16)
    requires
        chain_length <= MAXIMUM_CHAIN_LENGTH,
        bag_stripe_index <= MAXIMUM_BAG_STRIPE_INDEX,
    ensures
        chain_length * STRIPE_FIELD_SPAN + bag_stripe_index <= u16::MAX,
        ChainLengthAndBagStripeIndex(
            (chain_length * STRIPE_FIELD_SPAN + bag_stripe_index) as u16,
        ).spec_chain_length() == chain_length,
        ChainLengthAndBagStripeIndex(
            (chain_length * STRIPE_FIELD_SPAN + bag_stripe_index) as u16,
        ).spec_bag_stripe_index() == bag_stripe_index,
{
    assert(chain_length * STRIPE_FIELD_SPAN + bag_stripe_index <= u16::MAX) by (nonlinear_arith)
        requires
            chain_length <= MAXIMUM_CHAIN_LENGTH,
            bag_stripe_index <= MAXIMUM_BAG_STRIPE_INDEX,
    ;
    let packed = (chain_length * STRIPE_FIELD_SPAN + bag_stripe_index) as u16;
    assert(packed / STRIPE_FIELD_SPAN == chain_length
        && packed % STRIPE_FIELD_SPAN == bag_stripe_index) by (nonlinear_arith)
        requires
            chain_length <= MAXIMUM_CHAIN_LENGTH,
            bag_stripe_index <= MAXIMUM_BAG_STRIPE_INDEX,
            packed == chain_length * STRIPE_FIELD_SPAN + bag_stripe_index,
    ;
}

/// Unpacking then packing gives back the word: decode is also a right
/// inverse of encode, so the two are a bijection on the packed range.
pub proof fn lemma_unpack_pack(d: ChainLengthAndBagStripeIndex)
    ensures
        d.spec_chain_length() <= MAXIMUM_CHAIN_LENGTH,
        d.spec_bag_stripe_index() <= MAXIMUM_BAG_STRIPE_INDEX,
        d.spec_chain_length() * STRIPE_FIELD_SPAN + d.spec_bag_stripe_index() == d.0,
{
    assert(d.0 / STRIPE_FIELD_SPAN <= MAXIMUM_CHAIN_LENGTH
        && d.0 % STRIPE_FIELD_SPAN <= MAXIMUM_BAG_STRIPE_INDEX
        && (d.0 / STRIPE_FIELD_SPAN) as int * STRIPE_FIELD_SPAN as int
            + (d.0 % STRIPE_FIELD_SPAN) as int == d.0 as int) by (nonlinear_arith);
}

/// One descriptor word updated as a unit, so that the two sub-fields can
/// never be seen torn between a load and a store.
#[derive(Clone, Copy, PartialEq, Eq, Structural, Debug)]
pub struct AtomicChainLengthAndBagStripeIndex {
    pub word: u16,
}

impl AtomicChainLengthAndBagStripeIndex {
    /// The descriptor currently held.
    pub open spec fn spec_get(self) -> ChainLengthAndBagStripeIndex {
        ChainLengthAndBagStripeIndex(self.word)
    }

    /// A freshly minted word that denotes "not filed".
    pub fn new_unfiled() -> (r: Self)
        ensures
            !r.spec_get().spec_is_filed(),
    {
        AtomicChainLengthAndBagStripeIndex { word: 0 }
    }

    /// Loads both sub-fields together.
    pub fn get(&self) -> (r: ChainLengthAndBagStripeIndex)
        ensures
            r == self.spec_get(),
    {
        ChainLengthAndBagStripeIndex(self.word)
    }

    /// Stores both sub-fields together.
    pub fn set(&mut self, new_value: ChainLengthAndBagStripeIndex)
        ensures
            final(self).spec_get() == new_value,
    {
        self.word = new_value.0;
    }
}

} // verus!
