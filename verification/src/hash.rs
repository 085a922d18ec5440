//! Hashing of the values that an interner holds.
use vstd::prelude::*;
use vstd::std_specs::hash::DefaultHasherAdditionalSpecFns;
use vstd::utf8::encode_utf8;
use std::collections::hash_map::DefaultHasher;
use std::hash::{BuildHasher, Hasher, RandomState};
use crate::backend::Value;
use crate::element::{Element, feed_word, word_bytes};

verus! {

/// A way to hash values of `T`: equal models give equal hashes.
pub trait ValueHasher<T: ?Sized + Value> {
    /// The hash of a value, as a function of its model.
    spec fn spec_hash(&self, value: T::Model) -> u64;

    fn hash_one(&self, src: &T) -> (hash: u64)
        ensures
            hash == self.spec_hash(src.model()),
    ;
}

/// Hashes with std's `DefaultHasher`, which is given two key words before
/// every value. The keys decide which values collide, so that nobody can
/// choose colliding values without knowing them.
#[derive(Clone, Copy, Debug)]
pub struct KeyedState {
    k0: u64,
    k1: u64,
}

/// `std::hash::RandomState::new`: a state with keys that the process draws at
/// random. Nothing is claimed of it.
#[verifier::external_body]
fn random_state() -> (state: RandomState) {
    RandomState::new()
}

/// `std::hash::BuildHasher::hash_one`, on a `RandomState`: the hash of one
/// word under the keys of the state. Nothing is claimed of the number.
#[verifier::external_body]
fn random_word(state: &RandomState, word: u64) -> (hash: u64) {
    state.hash_one(word)
}

impl View for KeyedState {
    type V = (u64, u64);

    /// The two keys.
    closed spec fn view(&self) -> (u64, u64) {
        (self.k0, self.k1)
    }
}

impl KeyedState {
    /// A state with keys drawn at random.
    pub fn new() -> Self {
        let state = random_state();
        let k0 = random_word(&state, 0);
        let k1 = random_word(&state, 1);
        Self::with_keys(k0, k1)
    }

    /// A state with the keys given.
    pub fn with_keys(k0: u64, k1: u64) -> (state: Self)
        ensures
            state@ == (k0, k1),
    {
        KeyedState { k0, k1 }
    }

    /// What the hasher has been given when the keys are in.
    pub open spec fn key_words(&self) -> Seq<Seq<u8>> {
        seq![word_bytes(self@.0), word_bytes(self@.1)]
    }

    /// A hasher that has been given the keys.
    fn keyed(&self) -> (state: DefaultHasher)
        ensures
            state@ == self.key_words(),
    {
        let mut state = DefaultHasher::new();
        feed_word(&mut state, self.k0);
        feed_word(&mut state, self.k1);
        state
    }
}

impl Default for KeyedState {
    fn default() -> Self {
        Self::new()
    }
}

/// What the elements of a sequence write into a hasher, one after the other.
pub open spec fn sequence_words<E: Element>(s: Seq<E>) -> Seq<Seq<u8>>
    decreases s.len(),
{
    if s.len() == 0 {
        Seq::empty()
    } else {
        sequence_words(s.drop_last()) + s.last().hash_words()
    }
}

impl ValueHasher<str> for KeyedState {
    open spec fn spec_hash(&self, value: Seq<char>) -> u64 {
        DefaultHasher::spec_finish(self.key_words().push(encode_utf8(value)))
    }

    fn hash_one(&self, src: &str) -> (hash: u64) {
        let mut state = self.keyed();
        state.write(src.as_bytes());
        state.finish()
    }
}

impl<E: Element> ValueHasher<E> for KeyedState {
    open spec fn spec_hash(&self, value: E) -> u64 {
        DefaultHasher::spec_finish(self.key_words() + value.hash_words())
    }

    fn hash_one(&self, src: &E) -> (hash: u64) {
        let mut state = self.keyed();
        src.feed(&mut state);
        state.finish()
    }
}

impl<E: Element> ValueHasher<[E]> for KeyedState {
    open spec fn spec_hash(&self, value: Seq<E>) -> u64 {
        DefaultHasher::spec_finish(self.key_words() + sequence_words(value))
    }

    fn hash_one(&self, src: &[E]) -> (hash: u64) {
        let mut state = self.keyed();
        let mut i: usize = 0;
        while i < src.len()
            invariant
                i <= src.len(),
                state@ == self.key_words() + sequence_words(src@.take(i as int)),
            decreases src.len() - i,
        {
            src[i].feed(&mut state);
            proof {
                let next = src@.take(i + 1);
                assert(next.drop_last() =~= src@.take(i as int));
            }
            i += 1;
        }
        assert(src@.take(i as int) =~= src@);
        state.finish()
    }
}

} // verus!
