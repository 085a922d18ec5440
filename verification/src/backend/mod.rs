//! Storage for the interned elements.
use vstd::prelude::*;
use crate::element::Element;

pub mod string;
pub mod string_buf;
pub mod text;
pub mod vec;

pub use string::StringBackend;
pub use vec::VecBackend;

verus! {

/// Allows to specify a default backend for some type
pub trait DefaultBackendBuilder: Value {
    type Backend: Backend<Self>;

    fn build_backend() -> (b: Self::Backend)
        ensures
            b.wf(),
            b.is_empty(),
    ;
}

/// Resolves the default backend of a type
pub type DefaultBackend<T> = <T as DefaultBackendBuilder>::Backend;

impl<T: Element> DefaultBackendBuilder for T {
    type Backend = VecBackend<T>;

    fn build_backend() -> (b: Self::Backend) {
        VecBackend::default()
    }
}

impl DefaultBackendBuilder for str {
    type Backend = StringBackend;

    fn build_backend() -> (b: Self::Backend) {
        StringBackend::default()
    }
}

impl<T: Element> DefaultBackendBuilder for [T] {
    type Backend = VecBackend<T>;

    fn build_backend() -> (b: Self::Backend) {
        VecBackend::default()
    }
}

/// A value that can be interned.
///
/// The interner never looks at a value but through its model: two values are
/// the same value when their models are equal.
pub trait Value {
    /// What the value is, mathematically.
    type Model;

    spec fn model(&self) -> Self::Model;

    /// Whether two values are the same value.
    fn same(&self, other: &Self) -> (eq: bool)
        ensures
            eq == (self.model() == other.model()),
    ;
}

/// A handle for an interned value, as a backend hands it out.
///
/// A symbol can be written as a pair of integers, its key, and read back from
/// it: that is the form in which the lookup table of an interner stores it.
pub trait BackendSymbol: Copy + Sized {
    spec fn spec_key(self) -> (usize, usize);

    spec fn spec_from_key(k: (usize, usize)) -> Self;

    /// Reading back the key of a symbol gives the symbol.
    proof fn key_round_trip(self)
        ensures
            Self::spec_from_key(self.spec_key()) == self,
    ;

    fn key(self) -> (k: (usize, usize))
        ensures
            k == self.spec_key(),
    ;

    fn from_key(k: (usize, usize)) -> (sym: Self)
        ensures
            sym == Self::spec_from_key(k),
    ;
}

/// Backend for the interner: append-only storage that hands out symbols.
pub trait Backend<T: ?Sized + Value> {
    type Symbol: BackendSymbol;

    /// The invariant of the storage.
    spec fn wf(&self) -> bool;

    /// What a symbol resolves to in this backend, if to anything.
    spec fn spec_get(&self, sym: Self::Symbol) -> Option<T::Model>;

    /// Whether the backend can still hand out a symbol for a value of this model.
    spec fn has_room(&self, value: T::Model) -> bool;

    /// Whether the backend holds no value.
    spec fn is_empty(&self) -> bool;

    /// Whether `post` is this backend after it has stored `value` once more,
    /// with `sym` as the symbol of the new copy.
    spec fn stores(&self, value: T::Model, post: &Self, sym: Self::Symbol) -> bool;

    /// A backend that holds no value.
    fn empty() -> (b: Self) where Self: Sized
        ensures
            b.wf(),
            b.is_empty(),
    ;

    /// Whether `src` can still be interned.
    fn can_intern(&self, src: &T) -> (room: bool)
        requires
            self.wf(),
        ensures
            room == self.has_room(src.model()),
    ;

    /// Intern an element into `self`.
    ///
    /// The new symbol resolves to the value, and whatever resolved before
    /// resolves to the same as before.
    fn intern(&mut self, src: &T) -> (sym: Self::Symbol)
        requires
            old(self).wf(),
            old(self).has_room(src.model()),
        ensures
            final(self).wf(),
            old(self).stores(src.model(), final(self), sym),
            final(self).spec_get(sym) == Some(src.model()),
            forall|s: Self::Symbol| #[trigger]
                old(self).spec_get(s) is Some ==> final(self).spec_get(s) == old(self).spec_get(s),
    ;

    /// Resolve the symbol.
    fn get(&self, sym: Self::Symbol) -> (val: Option<&T>)
        requires
            self.wf(),
        ensures
            match val {
                Some(v) => self.spec_get(sym) == Some(v.model()),
                None => self.spec_get(sym) is None,
            },
    ;

    /// Resolves a symbol that is known to resolve.
    fn get_unchecked(&self, sym: Self::Symbol) -> (val: &T)
        requires
            self.wf(),
            self.spec_get(sym) is Some,
        ensures
            self.spec_get(sym) == Some(val.model()),
    {
        let val = self.get(sym);
        val.unwrap()
    }
}

/// Defines how to intern a type into a [`Backend`].
pub trait Internable<T: ?Sized + Value, B: Backend<T>> {
    spec fn as_value(&self) -> T::Model;

    fn intern_into(&self, b: &mut B) -> (sym: B::Symbol)
        requires
            old(b).wf(),
            old(b).has_room(self.as_value()),
        ensures
            final(b).wf(),
            old(b).stores(self.as_value(), final(b), sym),
            final(b).spec_get(sym) == Some(self.as_value()),
            forall|s: B::Symbol| #[trigger]
                old(b).spec_get(s) is Some ==> final(b).spec_get(s) == old(b).spec_get(s),
    ;
}

impl<T: ?Sized + Value, B: Backend<T>> Internable<T, B> for T {
    open spec fn as_value(&self) -> T::Model {
        self.model()
    }

    fn intern_into(&self, b: &mut B) -> (sym: B::Symbol) {
        b.intern(self)
    }
}

} // verus!
