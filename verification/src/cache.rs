//! What the host has answered about images.
use std::collections::HashMap;

use vstd::prelude::*;

use crate::protocol::{CrossDomainImageRequirements, ImageRequirements};

verus! {

/// Width, height and format of an image.
pub type ImageKey = (u32, u32, u32);

/// One number for width, height and format.
pub open spec fn spec_pack(key: ImageKey) -> u128 {
    (key.0 * 0x1_0000_0000_0000_0000 + key.1 * 0x1_0000_0000 + key.2) as u128
}

/// One number for width, height and format.
pub fn pack(key: ImageKey) -> (packed: u128)
    ensures
        packed == spec_pack(key),
{
    (key.0 as u128) * 0x1_0000_0000_0000_0000 + (key.1 as u128) * 0x1_0000_0000 + (key.2 as u128)
}

/// Different images have different numbers.
pub proof fn lemma_pack_injective(a: ImageKey, b: ImageKey)
    requires
        spec_pack(a) == spec_pack(b),
    ensures
        a == b,
{
}

/// The answers by width, height and format of the image.
pub struct ImageCache {
    answers: HashMap<u128, CrossDomainImageRequirements>,
}

impl View for ImageCache {
    type V = Map<ImageKey, ImageRequirements>;

    closed spec fn view(&self) -> Map<ImageKey, ImageRequirements> {
        Map::new(
            |key: ImageKey| self.answers@.contains_key(spec_pack(key)),
            |key: ImageKey| self.answers@[spec_pack(key)]@,
        )
    }
}

impl ImageCache {
    /// A cache without answers.
    pub fn new() -> (cache: ImageCache)
        ensures
            cache@ == Map::<ImageKey, ImageRequirements>::empty(),
    {
        broadcast use vstd::std_specs::hash::group_hash_axioms;

        let cache = ImageCache { answers: HashMap::new() };
        assert(cache@ =~= Map::<ImageKey, ImageRequirements>::empty());
        cache
    }

    /// The answer about an image, if there is one.
    pub fn get(&self, key: ImageKey) -> (answer: Option<CrossDomainImageRequirements>)
        ensures
            answer is Some <==> self@.contains_key(key),
            answer matches Some(reqs) ==> reqs@ == self@[key],
    {
        broadcast use vstd::std_specs::hash::group_hash_axioms;

        match self.answers.get(&pack(key)) {
            Some(reqs) => Some(*reqs),
            None => None,
        }
    }

    /// Keeps the answer about an image.
    pub fn insert(&mut self, key: ImageKey, reqs: CrossDomainImageRequirements)
        ensures
            final(self)@ == old(self)@.insert(key, reqs@),
    {
        broadcast use vstd::std_specs::hash::group_hash_axioms;

        let ghost before = self@;
        self.answers.insert(pack(key), reqs);
        assert forall|other: ImageKey| other != key implies spec_pack(other) != spec_pack(key) by {
            if spec_pack(other) == spec_pack(key) {
                lemma_pack_injective(other, key);
            }
        }
        assert(self@ =~= before.insert(key, reqs@));
    }
}

} // verus!
