//! Elements: the sized values that a sequence backend stores one by one.
use vstd::prelude::*;
use std::collections::hash_map::DefaultHasher;
use std::hash::Hasher;
use crate::backend::Value;

verus! {

/// A sized value that can be stored, compared, copied and hashed.
pub trait Element: Sized {
    /// What the element writes into a hasher: a function of the element, and
    /// nothing unless an implementation says otherwise.
    ///
    /// To write nothing is always right. It makes all elements hash alike:
    /// what is written decides how fast a lookup is, not what it finds.
    open spec fn hash_words(&self) -> Seq<Seq<u8>> {
        Seq::empty()
    }

    /// Whether two elements are equal.
    fn same_as(&self, other: &Self) -> (eq: bool)
        ensures
            eq == (*self == *other),
    ;

    /// A copy of the element.
    fn duplicate(&self) -> (copy: Self)
        ensures
            copy == *self,
    ;

    /// Writes the element into a hasher.
    fn feed(&self, state: &mut DefaultHasher)
        ensures
            final(state)@ == old(state)@ + self.hash_words(),
    ;
}

/// The eight bytes of an integer, the lowest first.
pub open spec fn word_bytes(x: u64) -> Seq<u8> {
    seq![
        x as u8,
        (x >> 8) as u8,
        (x >> 16) as u8,
        (x >> 24) as u8,
        (x >> 32) as u8,
        (x >> 40) as u8,
        (x >> 48) as u8,
        (x >> 56) as u8,
    ]
}

/// Writes the eight bytes of an integer into a hasher.
pub fn feed_word(state: &mut DefaultHasher, x: u64)
    ensures
        final(state)@ == old(state)@.push(word_bytes(x)),
{
    let bytes: [u8; 8] = [
        #[verifier::truncate]
        (x as u8),
        #[verifier::truncate]
        ((x >> 8) as u8),
        #[verifier::truncate]
        ((x >> 16) as u8),
        #[verifier::truncate]
        ((x >> 24) as u8),
        #[verifier::truncate]
        ((x >> 32) as u8),
        #[verifier::truncate]
        ((x >> 40) as u8),
        #[verifier::truncate]
        ((x >> 48) as u8),
        #[verifier::truncate]
        ((x >> 56) as u8),
    ];
    state.write(bytes.as_slice());
}

impl Element for u8 {
    open spec fn hash_words(&self) -> Seq<Seq<u8>> {
        seq![word_bytes(*self as u64)]
    }

    fn same_as(&self, other: &Self) -> (eq: bool) {
        *self == *other
    }

    fn duplicate(&self) -> (copy: Self) {
        *self
    }

    fn feed(&self, state: &mut DefaultHasher) {
        feed_word(state, *self as u64);
    }
}

impl Element for u16 {
    open spec fn hash_words(&self) -> Seq<Seq<u8>> {
        seq![word_bytes(*self as u64)]
    }

    fn same_as(&self, other: &Self) -> (eq: bool) {
        *self == *other
    }

    fn duplicate(&self) -> (copy: Self) {
        *self
    }

    fn feed(&self, state: &mut DefaultHasher) {
        feed_word(state, *self as u64);
    }
}

impl Element for u32 {
    open spec fn hash_words(&self) -> Seq<Seq<u8>> {
        seq![word_bytes(*self as u64)]
    }

    fn same_as(&self, other: &Self) -> (eq: bool) {
        *self == *other
    }

    fn duplicate(&self) -> (copy: Self) {
        *self
    }

    fn feed(&self, state: &mut DefaultHasher) {
        feed_word(state, *self as u64);
    }
}

impl Element for u64 {
    open spec fn hash_words(&self) -> Seq<Seq<u8>> {
        seq![word_bytes(*self as u64)]
    }

    fn same_as(&self, other: &Self) -> (eq: bool) {
        *self == *other
    }

    fn duplicate(&self) -> (copy: Self) {
        *self
    }

    fn feed(&self, state: &mut DefaultHasher) {
        feed_word(state, *self as u64);
    }
}

impl Element for usize {
    open spec fn hash_words(&self) -> Seq<Seq<u8>> {
        seq![word_bytes(*self as u64)]
    }

    fn same_as(&self, other: &Self) -> (eq: bool) {
        *self == *other
    }

    fn duplicate(&self) -> (copy: Self) {
        *self
    }

    fn feed(&self, state: &mut DefaultHasher) {
        feed_word(state, *self as u64);
    }
}

impl Element for i8 {
    open spec fn hash_words(&self) -> Seq<Seq<u8>> {
        seq![word_bytes(*self as u64)]
    }

    fn same_as(&self, other: &Self) -> (eq: bool) {
        *self == *other
    }

    fn duplicate(&self) -> (copy: Self) {
        *self
    }

    fn feed(&self, state: &mut DefaultHasher) {
        feed_word(state, #[verifier::truncate]
            (*self as u64));
    }
}

impl Element for i16 {
    open spec fn hash_words(&self) -> Seq<Seq<u8>> {
        seq![word_bytes(*self as u64)]
    }

    fn same_as(&self, other: &Self) -> (eq: bool) {
        *self == *other
    }

    fn duplicate(&self) -> (copy: Self) {
        *self
    }

    fn feed(&self, state: &mut DefaultHasher) {
        feed_word(state, #[verifier::truncate]
            (*self as u64));
    }
}

impl Element for i32 {
    open spec fn hash_words(&self) -> Seq<Seq<u8>> {
        seq![word_bytes(*self as u64)]
    }

    fn same_as(&self, other: &Self) -> (eq: bool) {
        *self == *other
    }

    fn duplicate(&self) -> (copy: Self) {
        *self
    }

    fn feed(&self, state: &mut DefaultHasher) {
        feed_word(state, #[verifier::truncate]
            (*self as u64));
    }
}

impl Element for i64 {
    open spec fn hash_words(&self) -> Seq<Seq<u8>> {
        seq![word_bytes(*self as u64)]
    }

    fn same_as(&self, other: &Self) -> (eq: bool) {
        *self == *other
    }

    fn duplicate(&self) -> (copy: Self) {
        *self
    }

    fn feed(&self, state: &mut DefaultHasher) {
        feed_word(state, #[verifier::truncate]
            (*self as u64));
    }
}

impl Element for isize {
    open spec fn hash_words(&self) -> Seq<Seq<u8>> {
        seq![word_bytes(*self as u64)]
    }

    fn same_as(&self, other: &Self) -> (eq: bool) {
        *self == *other
    }

    fn duplicate(&self) -> (copy: Self) {
        *self
    }

    fn feed(&self, state: &mut DefaultHasher) {
        feed_word(state, #[verifier::truncate]
            (*self as u64));
    }
}

impl Element for bool {
    open spec fn hash_words(&self) -> Seq<Seq<u8>> {
        seq![word_bytes(if *self { 1u64 } else { 0u64 })]
    }

    fn same_as(&self, other: &Self) -> (eq: bool) {
        *self == *other
    }

    fn duplicate(&self) -> (copy: Self) {
        *self
    }

    fn feed(&self, state: &mut DefaultHasher) {
        feed_word(state, if *self { 1u64 } else { 0u64 });
    }
}

impl Element for char {
    open spec fn hash_words(&self) -> Seq<Seq<u8>> {
        seq![word_bytes(*self as u64)]
    }

    fn same_as(&self, other: &Self) -> (eq: bool) {
        *self == *other
    }

    fn duplicate(&self) -> (copy: Self) {
        *self
    }

    fn feed(&self, state: &mut DefaultHasher) {
        feed_word(state, *self as u64);
    }
}

impl<E: Element> Value for E {
    type Model = E;

    open spec fn model(&self) -> E {
        *self
    }

    fn same(&self, other: &Self) -> (eq: bool) {
        self.same_as(other)
    }
}

impl<E: Element> Value for [E] {
    type Model = Seq<E>;

    open spec fn model(&self) -> Seq<E> {
        self@
    }

    fn same(&self, other: &Self) -> (eq: bool) {
        if self.len() != other.len() {
            return false;
        }
        let mut i: usize = 0;
        while i < self.len()
            invariant
                i <= self.len(),
                self.len() == other.len(),
                forall|j: int| 0 <= j < i ==> self@[j] == other@[j],
            decreases self.len() - i,
        {
            if !self[i].same_as(&other[i]) {
                return false;
            }
            i += 1;
        }
        assert(self@ =~= other@);
        true
    }
}

} // verus!
