//! Items that a filter can hold: each one feeds its content to the hasher
//! as one run of bytes, so equal content gives equal probes.
use std::collections::hash_map::DefaultHasher;
use std::hash::Hasher;
use vstd::prelude::*;

verus! {

/// The hashing capability that a filter asks of its items.
pub trait BloomKey {
    /// The bytes that stand for the item's content.
    spec fn key_bytes(&self) -> Seq<u8>;

    /// Feeds the item's content to `state` as one write.
    fn hash_key(&self, state: &mut DefaultHasher)
        ensures
            final(state)@ == old(state)@.push(self.key_bytes()),
    ;
}

impl BloomKey for String {
    open spec fn key_bytes(&self) -> Seq<u8> {
        vstd::utf8::encode_utf8(self@)
    }

    fn hash_key(&self, state: &mut DefaultHasher) {
        state.write(self.as_str().as_bytes());
    }
}

} // verus!
