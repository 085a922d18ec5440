//! The sequence backend: a growing list of elements, for single elements and
//! for slices of them.
use vstd::prelude::*;
use vstd::slice::slice_subrange;
use crate::backend::{Backend, BackendSymbol};
use crate::element::Element;

verus! {

/// Backend that stores elements inside a [`Vec`]
pub struct VecBackend<T> {
    buf: Vec<T>,
}

impl<T> View for VecBackend<T> {
    type V = Seq<T>;

    /// The elements stored, in the order in which they came.
    closed spec fn view(&self) -> Seq<T> {
        self.buf@
    }
}

impl<T> Default for VecBackend<T> {
    fn default() -> (b: Self)
        ensures
            b@ == Seq::<T>::empty(),
    {
        Self { buf: Vec::new() }
    }
}

/// The position of an element in the backend.
#[derive(Clone, Copy, Debug, Hash, PartialEq, Eq, Structural)]
pub struct Symbol(pub usize);

impl BackendSymbol for Symbol {
    open spec fn spec_key(self) -> (usize, usize) {
        (self.0, 0)
    }

    open spec fn spec_from_key(k: (usize, usize)) -> Self {
        Symbol(k.0)
    }

    proof fn key_round_trip(self) {
    }

    fn key(self) -> (k: (usize, usize)) {
        (self.0, 0)
    }

    fn from_key(k: (usize, usize)) -> (sym: Self) {
        Symbol(k.0)
    }
}

impl<T: Element> Backend<T> for VecBackend<T> {
    type Symbol = Symbol;

    open spec fn wf(&self) -> bool {
        true
    }

    open spec fn spec_get(&self, sym: Symbol) -> Option<T> {
        if sym.0 < self@.len() {
            Some(self@[sym.0 as int])
        } else {
            None
        }
    }

    open spec fn has_room(&self, value: T) -> bool {
        true
    }

    open spec fn is_empty(&self) -> bool {
        self@ == Seq::<T>::empty()
    }

    /// The element is the last of the backend, and the symbol its position.
    open spec fn stores(&self, value: T, post: &Self, sym: Symbol) -> bool {
        post@ == self@.push(value) && sym.0 == self@.len()
    }

    fn empty() -> (b: Self) {
        Self { buf: Vec::new() }
    }

    fn can_intern(&self, src: &T) -> (room: bool) {
        true
    }

    fn intern(&mut self, src: &T) -> (sym: Symbol) {
        let sym = Symbol(self.buf.len());
        self.buf.push(src.duplicate());
        sym
    }

    fn get(&self, sym: Symbol) -> (val: Option<&T>) {
        if sym.0 < self.buf.len() {
            Some(&self.buf[sym.0])
        } else {
            None
        }
    }
}

/// A run of elements in the backend: where it starts and how long it is.
#[derive(Clone, Copy, Debug, Hash, PartialEq, Eq, Structural)]
pub struct Span {
    pub start: usize,
    pub len: usize,
}

impl BackendSymbol for Span {
    open spec fn spec_key(self) -> (usize, usize) {
        (self.start, self.len)
    }

    open spec fn spec_from_key(k: (usize, usize)) -> Self {
        Span { start: k.0, len: k.1 }
    }

    proof fn key_round_trip(self) {
    }

    fn key(self) -> (k: (usize, usize)) {
        (self.start, self.len)
    }

    fn from_key(k: (usize, usize)) -> (sym: Self) {
        Span { start: k.0, len: k.1 }
    }
}

impl<T: Element> Backend<[T]> for VecBackend<T> {
    type Symbol = Span;

    open spec fn wf(&self) -> bool {
        true
    }

    open spec fn spec_get(&self, sym: Span) -> Option<Seq<T>> {
        if sym.start + sym.len <= self@.len() {
            Some(self@.subrange(sym.start as int, sym.start + sym.len))
        } else {
            None
        }
    }

    open spec fn has_room(&self, value: Seq<T>) -> bool {
        true
    }

    open spec fn is_empty(&self) -> bool {
        self@ == Seq::<T>::empty()
    }

    /// The elements are the last of the backend, and the symbol says where
    /// they start and how many they are.
    open spec fn stores(&self, value: Seq<T>, post: &Self, sym: Span) -> bool {
        post@ == self@ + value && sym.start == self@.len() && sym.len == value.len()
    }

    fn empty() -> (b: Self) {
        Self { buf: Vec::new() }
    }

    fn can_intern(&self, src: &[T]) -> (room: bool) {
        true
    }

    fn intern(&mut self, src: &[T]) -> (sym: Span) {
        let start = self.buf.len();
        let mut i: usize = 0;
        while i < src.len()
            invariant
                i <= src.len(),
                start == old(self)@.len(),
                self@ == old(self)@ + src@.take(i as int),
            decreases src.len() - i,
        {
            self.buf.push(src[i].duplicate());
            i += 1;
        }
        assert(src@.take(i as int) =~= src@);
        let len = self.buf.len() - start;
        Span { start, len }
    }

    fn get(&self, sym: Span) -> (val: Option<&[T]>) {
        let total = self.buf.len();
        let end = match sym.start.checked_add(sym.len) {
            Some(end) => end,
            None => { return None; },
        };
        if end > total {
            return None;
        }
        Some(slice_subrange(self.buf.as_slice(), sym.start, end))
    }
}

} // verus!
