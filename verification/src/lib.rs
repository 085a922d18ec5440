//! An object interner library
//!
//! The main element of this crate is the [`Interner`] struct. It stores every
//! value once and hands out a small symbol for it: equal values get the same
//! symbol, and a symbol resolves back to the value it was given for.
//!
//! # Example (String interner)
//! ```
//! use interns::Interner;
//!
//! let mut interner = Interner::<str>::default();
//!
//! let a = interner.get_or_intern("hello");
//! let b = interner.get_or_intern("world");
//! let c = interner.get_or_intern("hello");
//!
//! assert_eq!(interner.resolve(a), Some("hello"));
//! assert_eq!(interner.resolve(b), Some("world"));
//! assert_eq!(interner.resolve(c), Some("hello"));
//!
//! assert_eq!(a, c);
//! assert_ne!(a, b);
//! ```
//!
//! What the interner promises is stated in the contracts of its functions
//! and, where a promise spans several calls, in the proof functions whose
//! names begin with `law_`.
use vstd::prelude::*;
use vstd::set_lib::lemma_map_size_bound;
use core::marker::PhantomData;

pub mod backend;
pub mod element;
pub mod hash;
pub mod table;

pub use crate::backend::{
    Backend, BackendSymbol, DefaultBackendBuilder, StringBackend, Value, VecBackend,
};
pub use crate::element::Element;
pub use crate::hash::{KeyedState, ValueHasher};
use crate::table::{
    SymbolTable, filed_by_value, key_value, table_capacity, table_entries, table_find,
    table_insert, table_new,
};

verus! {

/// The symbol that a backend of `T` hands out; by default the backend is the
/// default backend of `T`.
pub type Symbol<T, B = <T as DefaultBackendBuilder>::Backend> = <B as Backend<T>>::Symbol;

/// An interner of strings on the string backend.
pub type StringInterner = Interner<str, StringBackend>;

/// Interner
///
/// This struct is responsible for tracking objects and interning them. It
/// owns a backend, which stores each value once, and a table of the symbols
/// handed out so far, which is searched by value.
pub struct Interner<
    T: ?Sized + Value,
    B: Backend<T> = <T as DefaultBackendBuilder>::Backend,
    H: ValueHasher<T> = KeyedState,
> {
    backend: B,
    set: SymbolTable,
    hasher: H,
    marker: PhantomData<T>,
}

impl<T: ?Sized + Value, B: Backend<T>, H: ValueHasher<T>> Interner<T, B, H> {
    /// The symbols that the interner has handed out.
    pub closed spec fn symbols(&self) -> Set<B::Symbol> {
        Set::new(
            |sym: B::Symbol| exists|h: u64| #[trigger]
                table_entries(self.set).contains((sym.spec_key(), h)),
        )
    }

    /// The backend of the interner.
    pub closed spec fn spec_backend(&self) -> B {
        self.backend
    }

    /// What a symbol resolves to, if to anything.
    pub open spec fn spec_resolve(&self, sym: B::Symbol) -> Option<T::Model> {
        self.spec_backend().spec_get(sym)
    }

    /// Whether the backend can still take the value.
    pub open spec fn has_room(&self, value: T::Model) -> bool {
        self.spec_backend().has_room(value)
    }

    /// The invariant of an interner: the table holds finitely many keys, every
    /// key is the key of a symbol that resolves, it is filed under the hash of
    /// its value, and no two keys stand for the same value.
    pub closed spec fn wf(&self) -> bool {
        &&& self.backend.wf()
        &&& table_entries(self.set).finite()
        &&& filed_by_value(self.set, &self.backend, &self.hasher)
        &&& forall|k: (usize, usize), h: u64| #[trigger]
            table_entries(self.set).contains((k, h)) ==> B::Symbol::spec_from_key(k).spec_key()
                == k
        &&& forall|k1: (usize, usize), h1: u64, k2: (usize, usize), h2: u64|
            #![trigger table_entries(self.set).contains((k1, h1)), table_entries(self.set).contains((k2, h2))]
            table_entries(self.set).contains((k1, h1)) && table_entries(self.set).contains(
                (k2, h2),
            ) && key_value(&self.backend, k1) == key_value(&self.backend, k2) ==> k1 == k2
    }

    /// Whether the value has been interned.
    pub open spec fn contains(&self, value: T::Model) -> bool {
        exists|sym: B::Symbol| #[trigger]
            self.symbols().contains(sym) && self.spec_resolve(sym) == Some(value)
    }

    /// The symbol of a value: the one symbol handed out that resolves to it.
    pub open spec fn symbol_of(&self, value: T::Model) -> B::Symbol {
        choose|sym: B::Symbol| #[trigger]
            self.symbols().contains(sym) && self.spec_resolve(sym) == Some(value)
    }

    /// What one call of [`Interner::get_or_intern`] does to an interner:
    /// `pre` is the interner before the call, `post` the one after it, and
    /// `sym` what the call returns for `value`.
    ///
    /// A value that was interned before gets the symbol it has, and nothing
    /// changes. Another value is stored in the backend, once, and gets the
    /// symbol that the backend gives it, which was not handed out before.
    /// Either way the symbol resolves to the value, and every symbol that
    /// resolved before resolves to what it did.
    pub open spec fn interns(pre: Self, value: T::Model, post: Self, sym: B::Symbol) -> bool {
        &&& post.wf()
        &&& post.spec_resolve(sym) == Some(value)
        &&& post.contains(value)
        &&& post.symbol_of(value) == sym
        &&& post.symbols() == pre.symbols().insert(sym)
        &&& forall|s: B::Symbol| #[trigger]
            pre.spec_resolve(s) is Some ==> post.spec_resolve(s) == pre.spec_resolve(s)
        &&& forall|v: T::Model| #[trigger]
            pre.contains(v) ==> post.contains(v) && post.symbol_of(v) == pre.symbol_of(v)
        &&& if pre.contains(value) {
            post == pre
        } else {
            &&& !pre.symbols().contains(sym)
            &&& pre.spec_backend().stores(value, &post.spec_backend(), sym)
        }
    }

    /// Create a new Interner with an empty backend and a default hasher.
    pub fn new() -> (interner: Self) where B: Sized, H: Default
        ensures
            interner.wf(),
            interner.symbols() == Set::<B::Symbol>::empty(),
            interner.spec_backend().is_empty(),
    {
        Self::with_backend_and_hasher(<B as Backend<T>>::empty(), H::default())
    }

    /// Create a new Interner with an empty backend and the given hasher.
    pub fn with_hasher(hasher: H) -> (interner: Self) where B: Sized
        ensures
            interner.wf(),
            interner.symbols() == Set::<B::Symbol>::empty(),
            interner.spec_backend().is_empty(),
    {
        Self::with_backend_and_hasher(<B as Backend<T>>::empty(), hasher)
    }

    /// Create a new Interner with a default hasher and the given backend.
    ///
    /// What the backend holds already stays resolvable, but counts as not
    /// interned: no symbol has been handed out yet.
    pub fn with_backend(backend: B) -> (interner: Self) where H: Default
        requires
            backend.wf(),
        ensures
            interner.wf(),
            interner.symbols() == Set::<B::Symbol>::empty(),
            interner.spec_backend() == backend,
    {
        Self::with_backend_and_hasher(backend, H::default())
    }

    /// Create a new Interner with the given backend and hasher.
    pub fn with_backend_and_hasher(backend: B, hasher: H) -> (interner: Self)
        requires
            backend.wf(),
        ensures
            interner.wf(),
            interner.symbols() == Set::<B::Symbol>::empty(),
            interner.spec_backend() == backend,
    {
        let interner = Self { backend, hasher, set: table_new(), marker: PhantomData };
        interner
    }

    /// Two symbols with one key are one symbol.
    proof fn lemma_key_injective(a: B::Symbol, b: B::Symbol)
        requires
            a.spec_key() == b.spec_key(),
        ensures
            a == b,
    {
        a.key_round_trip();
        b.key_round_trip();
    }

    /// A search of the table that finds nothing shows that the value has no
    /// symbol: the symbol would be filed under the hash of the value.
    proof fn lemma_miss(&self, value: T::Model)
        requires
            self.wf(),
            forall|k: (usize, usize)| #[trigger]
                table_entries(self.set).contains((k, self.hasher.spec_hash(value))) ==> key_value(
                    &self.backend,
                    k,
                ) != Some(value),
        ensures
            !self.contains(value),
    {
        if self.contains(value) {
            let s = self.symbol_of(value);
            let h = choose|h: u64| #[trigger] table_entries(self.set).contains((s.spec_key(), h));
            s.key_round_trip();
        }
    }

    /// A key that a search of the table finds is the key of the symbol of
    /// the value.
    proof fn lemma_hit(&self, k: (usize, usize), value: T::Model)
        requires
            self.wf(),
            exists|h: u64| #[trigger] table_entries(self.set).contains((k, h)),
            key_value(&self.backend, k) == Some(value),
        ensures
            self.contains(value),
            self.symbol_of(value) == B::Symbol::spec_from_key(k),
            self.symbols().contains(B::Symbol::spec_from_key(k)),
    {
        let sym = B::Symbol::spec_from_key(k);
        self.lemma_symbol_of(sym, value);
    }

    /// Where an interner has only gained symbols, and every symbol still
    /// resolves to what it did, every value has kept its symbol.
    proof fn lemma_grown(pre: Self, post: Self)
        requires
            pre.wf(),
            post.wf(),
            pre.symbols().subset_of(post.symbols()),
            forall|s: B::Symbol| #[trigger]
                pre.spec_resolve(s) is Some ==> post.spec_resolve(s) == pre.spec_resolve(s),
        ensures
            forall|v: T::Model| #[trigger]
                pre.contains(v) ==> post.contains(v) && post.symbol_of(v) == pre.symbol_of(v),
    {
        assert forall|v: T::Model| #[trigger] pre.contains(v) implies post.contains(v)
            && post.symbol_of(v) == pre.symbol_of(v) by {
            let s = pre.symbol_of(v);
            post.lemma_symbol_of(s, v);
        }
    }

    /// Files in the table a symbol that resolves and whose value has no
    /// symbol yet, under `hash`, the hash of the value.
    fn file(&mut self, hash: u64, sym: B::Symbol)
        requires
            old(self).wf(),
            old(self).spec_resolve(sym) is Some,
            !old(self).contains(old(self).spec_resolve(sym).unwrap()),
            hash == old(self).hasher.spec_hash(old(self).spec_resolve(sym).unwrap()),
        ensures
            final(self).wf(),
            final(self).backend == old(self).backend,
            final(self).hasher == old(self).hasher,
            final(self).symbols() == old(self).symbols().insert(sym),
    {
        let key = sym.key();
        proof {
            sym.key_round_trip();
        }
        table_insert(&mut self.set, hash, key, &self.backend, &self.hasher);
        proof {
            let pre = *old(self);
            let post = *self;
            assert forall|s: B::Symbol| #[trigger]
                post.symbols().contains(s) <==> pre.symbols().insert(sym).contains(s) by {
                if post.symbols().contains(s) {
                    let h = choose|h: u64| #[trigger]
                        table_entries(post.set).contains((s.spec_key(), h));
                    if (s.spec_key(), h) == (key, hash) {
                        Self::lemma_key_injective(s, sym);
                    }
                }
                if pre.symbols().contains(s) {
                    let h = choose|h: u64| #[trigger]
                        table_entries(pre.set).contains((s.spec_key(), h));
                    assert(table_entries(post.set).contains((s.spec_key(), h)));
                }
                if s == sym {
                    assert(table_entries(post.set).contains((s.spec_key(), hash)));
                }
            }
            assert forall|k: (usize, usize), h: u64| #[trigger]
                table_entries(pre.set).contains((k, h)) && key_value(&pre.backend, k)
                    == pre.spec_resolve(sym) implies false by {
                pre.lemma_hit(k, pre.spec_resolve(sym).unwrap());
            }
        }
    }

    /// Gets the symbol for `src`, interning it if it doesn't exist.
    pub fn get_or_intern(&mut self, src: &T) -> (sym: B::Symbol)
        requires
            old(self).wf(),
            !old(self).contains(src.model()) ==> old(self).has_room(src.model()),
        ensures
            Self::interns(*old(self), src.model(), *final(self), sym),
    {
        let hash = self.hasher.hash_one(src);
        match table_find(&self.set, hash, &self.backend, src) {
            Some(k) => {
                proof {
                    self.lemma_hit(k, src.model());
                    assert(self.symbols().insert(B::Symbol::spec_from_key(k)) =~= self.symbols());
                }
                B::Symbol::from_key(k)
            },
            None => {
                proof {
                    self.lemma_miss(src.model());
                }
                let sym = self.backend.intern(src);
                proof {
                    let pre = *old(self);
                    let mid = *self;
                    if mid.contains(src.model()) {
                        let s = mid.symbol_of(src.model());
                        pre.lemma_symbols_resolve(s);
                    }
                    if pre.symbols().contains(sym) {
                        pre.lemma_symbols_resolve(sym);
                    }
                }
                self.file(hash, sym);
                proof {
                    self.lemma_symbol_of(sym, src.model());
                    Self::lemma_grown(*old(self), *self);
                }
                sym
            },
        }
    }

    /// A value has one symbol: a symbol handed out that resolves to a value is
    /// the symbol of that value.
    pub proof fn lemma_symbol_of(&self, sym: B::Symbol, value: T::Model)
        requires
            self.wf(),
            self.symbols().contains(sym),
            self.spec_resolve(sym) == Some(value),
        ensures
            self.contains(value),
            self.symbol_of(value) == sym,
    {
        let other = self.symbol_of(value);
        let h1 = choose|h: u64| #[trigger] table_entries(self.set).contains((sym.spec_key(), h));
        let h2 = choose|h: u64| #[trigger] table_entries(self.set).contains((other.spec_key(), h));
        sym.key_round_trip();
        other.key_round_trip();
        Self::lemma_key_injective(other, sym);
    }

    /// Every symbol handed out resolves.
    pub proof fn lemma_symbols_resolve(&self, sym: B::Symbol)
        requires
            self.wf(),
            self.symbols().contains(sym),
        ensures
            self.spec_resolve(sym) is Some,
    {
        let h = choose|h: u64| #[trigger] table_entries(self.set).contains((sym.spec_key(), h));
        sym.key_round_trip();
    }

    /// What one call of [`Interner::adopt`] does to an interner: `pre` is the
    /// interner before the call, `post` the one after it, and `adopted` what
    /// the call returns for `value` and `sym`.
    ///
    /// The backend stays as it is. The symbol is handed out if it resolves to
    /// the value and the value has no symbol; else nothing changes.
    pub open spec fn adopts(
        pre: Self,
        value: T::Model,
        sym: B::Symbol,
        post: Self,
        adopted: bool,
    ) -> bool {
        &&& post.wf()
        &&& adopted == (pre.spec_resolve(sym) == Some(value) && !pre.contains(value))
        &&& post.spec_backend() == pre.spec_backend()
        &&& post.symbols() == if adopted {
            pre.symbols().insert(sym)
        } else {
            pre.symbols()
        }
        &&& adopted ==> post.contains(value) && post.symbol_of(value) == sym
        &&& forall|v: T::Model| #[trigger]
            pre.contains(v) ==> post.contains(v) && post.symbol_of(v) == pre.symbol_of(v)
    }

    /// Hands out a symbol that the backend holds already: `sym` becomes the
    /// symbol of `src`, if it resolves to `src` and the value has no symbol.
    pub fn adopt(&mut self, src: &T, sym: B::Symbol) -> (adopted: bool)
        requires
            old(self).wf(),
        ensures
            Self::adopts(*old(self), src.model(), sym, *final(self), adopted),
    {
        let resolves = match self.backend.get(sym) {
            Some(held) => src.same(held),
            None => false,
        };
        if !resolves {
            return false;
        }
        let hash = self.hasher.hash_one(src);
        match table_find(&self.set, hash, &self.backend, src) {
            Some(k) => {
                proof {
                    self.lemma_hit(k, src.model());
                }
                false
            },
            None => {
                proof {
                    self.lemma_miss(src.model());
                }
                self.file(hash, sym);
                proof {
                    self.lemma_symbol_of(sym, src.model());
                    Self::lemma_grown(*old(self), *self);
                }
                true
            },
        }
    }

    /// A run of calls of [`Interner::get_or_intern`]: the call at `i` takes
    /// the interner from `states[i]` to `states[i + 1]` and returns `syms[i]`
    /// for `values[i]`.
    pub open spec fn interns_all(
        states: Seq<Self>,
        values: Seq<T::Model>,
        syms: Seq<B::Symbol>,
    ) -> bool {
        &&& states.len() == values.len() + 1
        &&& syms.len() == values.len()
        &&& forall|i: int|
            0 <= i < values.len() ==> Self::interns(
                #[trigger] states[i],
                values[i],
                states[i + 1],
                syms[i],
            )
    }

    /// Interning a value twice in a row gives the same symbol both times, and
    /// the second call changes nothing.
    pub proof fn law_idempotent(
        first: Self,
        second: Self,
        third: Self,
        value: T::Model,
        sym1: B::Symbol,
        sym2: B::Symbol,
    )
        requires
            Self::interns(first, value, second, sym1),
            Self::interns(second, value, third, sym2),
        ensures
            sym1 == sym2,
            third == second,
    {
        second.lemma_symbol_of(sym1, value);
    }

    /// Two values that differ get symbols that differ.
    pub proof fn law_injective(
        first: Self,
        second: Self,
        third: Self,
        value1: T::Model,
        value2: T::Model,
        sym1: B::Symbol,
        sym2: B::Symbol,
    )
        requires
            value1 != value2,
            Self::interns(first, value1, second, sym1),
            Self::interns(second, value2, third, sym2),
        ensures
            sym1 != sym2,
    {
    }

    /// The symbol that a value gets resolves to the value.
    pub proof fn law_round_trip(pre: Self, post: Self, value: T::Model, sym: B::Symbol)
        requires
            Self::interns(pre, value, post, sym),
        ensures
            post.spec_resolve(sym) == Some(value),
            post.contains(value),
            post.symbol_of(value) == sym,
    {
        post.lemma_symbol_of(sym, value);
    }

    /// Interning takes nothing away: what resolved before resolves to the
    /// same value after, and a value keeps the symbol it has.
    pub proof fn law_stable(
        pre: Self,
        post: Self,
        value: T::Model,
        sym: B::Symbol,
        earlier: B::Symbol,
    )
        requires
            Self::interns(pre, value, post, sym),
            pre.spec_resolve(earlier) is Some,
        ensures
            post.spec_resolve(earlier) == pre.spec_resolve(earlier),
            pre.symbols().contains(earlier) ==> post.symbols().contains(earlier) && post.symbol_of(
                pre.spec_resolve(earlier).unwrap(),
            ) == earlier,
    {
        if pre.symbols().contains(earlier) {
            post.lemma_symbol_of(earlier, pre.spec_resolve(earlier).unwrap());
        }
    }

    /// However many values are interned, and however often the table has
    /// grown meanwhile: at the end every symbol that a call returned resolves
    /// to the value it was returned for, and two calls returned the same
    /// symbol if and only if they were made for the same value.
    pub proof fn law_coherent(
        states: Seq<Self>,
        values: Seq<T::Model>,
        syms: Seq<B::Symbol>,
    )
        requires
            Self::interns_all(states, values, syms),
        ensures
            forall|i: int|
                0 <= i < values.len() ==> states.last().spec_resolve(#[trigger] syms[i]) == Some(
                    values[i],
                ),
            forall|i: int, j: int|
                0 <= i < values.len() && 0 <= j < values.len() ==> ((#[trigger] syms[i]
                    == #[trigger] syms[j]) <==> values[i] == values[j]),
        decreases values.len(),
    {
        if values.len() > 0 {
            let n = values.len() - 1;
            let before = states.drop_last();
            assert(Self::interns_all(before, values.drop_last(), syms.drop_last()));
            Self::law_coherent(before, values.drop_last(), syms.drop_last());
            let pre = states[n];
            let post = states[n + 1];
            assert forall|i: int| 0 <= i < n implies post.spec_resolve(#[trigger] syms[i]) == Some(
                values[i],
            ) && (syms[i] == syms[n] <==> values[i] == values[n]) by {
                assert(pre.spec_resolve(syms.drop_last()[i]) == Some(values.drop_last()[i]));
                assert(Self::interns(states[i], values[i], states[i + 1], syms[i]));
                Self::lemma_symbols_grow(states, values, syms, i + 1, n);
                if values[i] == values[n] {
                    pre.lemma_symbol_of(syms[i], values[i]);
                }
            }
            assert forall|i: int, j: int|
                0 <= i < values.len() && 0 <= j < values.len() implies ((#[trigger] syms[i]
                == #[trigger] syms[j]) <==> values[i] == values[j]) by {
                if i < n && j < n {
                    assert(syms.drop_last()[i] == syms[i] && syms.drop_last()[j] == syms[j]);
                }
            }
        }
    }

    /// In a run of calls the symbols handed out only become more.
    proof fn lemma_symbols_grow(
        states: Seq<Self>,
        values: Seq<T::Model>,
        syms: Seq<B::Symbol>,
        from: int,
        to: int,
    )
        requires
            Self::interns_all(states, values, syms),
            0 <= from <= to <= values.len(),
        ensures
            states[from].symbols().subset_of(states[to].symbols()),
        decreases to - from,
    {
        if from < to {
            Self::lemma_symbols_grow(states, values, syms, from, to - 1);
        }
    }

    /// Whether `src` can be handed to [`Interner::get_or_intern`]: it is
    /// interned already, or the backend still has room for it.
    pub fn can_intern(&self, src: &T) -> (ok: bool)
        requires
            self.wf(),
        ensures
            ok == (self.contains(src.model()) || self.has_room(src.model())),
    {
        if self.backend.can_intern(src) {
            return true;
        }
        let hash = self.hasher.hash_one(src);
        let found = table_find(&self.set, hash, &self.backend, src);
        proof {
            match found {
                Some(k) => {
                    self.lemma_hit(k, src.model());
                },
                None => {
                    self.lemma_miss(src.model());
                },
            }
        }
        found.is_some()
    }

    /// Resolves the symbol into a reference of `T`.
    pub fn resolve(&self, sym: B::Symbol) -> (val: Option<&T>)
        requires
            self.wf(),
        ensures
            match val {
                Some(v) => self.spec_resolve(sym) == Some(v.model()),
                None => self.spec_resolve(sym) is None,
            },
    {
        self.backend.get(sym)
    }

    /// The symbols handed out are finitely many, and no more than the keys
    /// that the table holds.
    proof fn lemma_symbols_counted(&self)
        requires
            self.wf(),
        ensures
            self.symbols().finite(),
            self.symbols().len() <= table_entries(self.set).len(),
    {
        let symbol_of_entry = |e: ((usize, usize), u64)| B::Symbol::spec_from_key(e.0);
        let read = table_entries(self.set).map(symbol_of_entry);
        assert forall|sym: B::Symbol| read.contains(sym) <==> self.symbols().contains(sym) by {
            if self.symbols().contains(sym) {
                let h = choose|h: u64| #[trigger]
                    table_entries(self.set).contains((sym.spec_key(), h));
                sym.key_round_trip();
                assert(table_entries(self.set).contains((sym.spec_key(), h)) && sym
                    == symbol_of_entry((sym.spec_key(), h)));
            }
            if read.contains(sym) {
                let e = choose|e: ((usize, usize), u64)|
                    table_entries(self.set).contains(e) && sym == symbol_of_entry(e);
                assert(table_entries(self.set).contains((e.0, e.1)));
                assert(table_entries(self.set).contains((sym.spec_key(), e.1)));
            }
        }
        assert(read =~= self.symbols());
        lemma_map_size_bound(table_entries(self.set), self.symbols(), symbol_of_entry);
    }

    /// How many symbols the table can hold before it grows: at least as many
    /// as it has handed out.
    pub fn table_capacity(&self) -> (capacity: usize)
        ensures
            self.wf() ==> self.symbols().finite() && self.symbols().len() <= capacity,
    {
        proof {
            if self.wf() {
                self.lemma_symbols_counted();
            }
        }
        table_capacity(&self.set)
    }
}

/// Whether a string of the list stands there for the first time.
pub open spec fn first_at(strings: Seq<(&str, backend::string::Symbol)>, i: int) -> bool {
    forall|j: int| 0 <= j < i ==> (#[trigger] strings[j]).0@ != strings[i].0@
}

impl<H: ValueHasher<str>> Interner<str, StringBackend, H> {
    /// Where [`Interner::prefill`] stands when the backend holds the whole
    /// list and the first `n` strings have had their turn: `mid` is the
    /// interner before the first of them, `cur` the one after the last.
    #[verifier::opaque]
    spec fn handed_out(
        mid: Self,
        cur: Self,
        syms: Seq<(&str, backend::string::Symbol)>,
        n: int,
    ) -> bool {
        &&& cur.wf()
        &&& cur.spec_backend() == mid.spec_backend()
        &&& forall|v: Seq<char>| #[trigger]
            mid.contains(v) ==> cur.contains(v) && cur.symbol_of(v) == mid.symbol_of(v)
        &&& forall|v: Seq<char>| #[trigger]
            cur.contains(v) ==> mid.contains(v) || exists|j: int|
                0 <= j < n && (#[trigger] syms[j]).0@ == v
        &&& forall|j: int| 0 <= j < n ==> cur.contains((#[trigger] syms[j]).0@)
        &&& forall|j: int|
            0 <= j < n && !mid.contains((#[trigger] syms[j]).0@) && first_at(syms, j)
                ==> cur.symbol_of(syms[j].0@) == syms[j].1
    }

    /// One more string has had its turn.
    proof fn lemma_handed_out_next(
        mid: Self,
        pre: Self,
        post: Self,
        syms: Seq<(&str, backend::string::Symbol)>,
        n: int,
        adopted: bool,
    )
        requires
            0 <= n < syms.len(),
            Self::handed_out(mid, pre, syms, n),
            pre.spec_resolve(syms[n].1) == Some(syms[n].0@),
            Self::adopts(pre, syms[n].0@, syms[n].1, post, adopted),
        ensures
            Self::handed_out(mid, post, syms, n + 1),
    {
        reveal(Interner::handed_out);
        let value = syms[n].0@;
        assert(post.contains(value));
        assert forall|v: Seq<char>| #[trigger] post.contains(v) implies mid.contains(v)
            || exists|j: int| 0 <= j < n + 1 && (#[trigger] syms[j]).0@ == v by {
            let s = post.symbol_of(v);
            if pre.symbols().contains(s) {
                assert(pre.contains(v));
                if !mid.contains(v) {
                    let j = choose|j: int| 0 <= j < n && (#[trigger] syms[j]).0@ == v;
                    assert(0 <= j < n + 1 && syms[j].0@ == v);
                }
            } else {
                assert(syms[n].0@ == v);
            }
        }
        if pre.contains(value) && !mid.contains(value) {
            let j = choose|j: int| 0 <= j < n && (#[trigger] syms[j]).0@ == value;
            assert(!first_at(syms, n));
        }
    }

    /// What the interner is like when every string has had its turn.
    proof fn lemma_handed_out_all(
        before: Self,
        mid: Self,
        post: Self,
        syms: Seq<(&str, backend::string::Symbol)>,
    )
        requires
            before.wf(),
            mid.wf(),
            mid.symbols() == before.symbols(),
            forall|s: backend::string::Symbol| #[trigger]
                before.spec_resolve(s) is Some ==> mid.spec_resolve(s) == before.spec_resolve(s),
            Self::handed_out(mid, post, syms, syms.len() as int),
        ensures
            forall|i: int| 0 <= i < syms.len() ==> post.contains((#[trigger] syms[i]).0@),
            forall|i: int|
                0 <= i < syms.len() && !before.contains((#[trigger] syms[i]).0@) && first_at(
                    syms,
                    i,
                ) ==> post.symbol_of(syms[i].0@) == syms[i].1,
            forall|v: Seq<char>| #[trigger]
                before.contains(v) ==> post.contains(v) && post.symbol_of(v) == before.symbol_of(
                    v,
                ),
    {
        reveal(Interner::handed_out);
        Self::lemma_grown(before, mid);
        assert forall|v: Seq<char>| mid.contains(v) implies before.contains(v) by {
            before.lemma_symbols_resolve(mid.symbol_of(v));
        }
    }

    /// Fills the interner with the strings given, each with the symbol it is
    /// to have: the backend stores them in this order, and each becomes the
    /// symbol of its string, unless the string has a symbol before it.
    pub fn prefill(&mut self, syms: &[(&str, backend::string::Symbol)])
        requires
            old(self).wf(),
            old(self).spec_backend().spans().len() == 0,
            backend::string::in_order(syms@),
        ensures
            final(self).wf(),
            final(self).spec_backend().text() == old(self).spec_backend().text()
                + backend::string::joined(syms@),
            final(self).spec_backend().spans().len() == syms@.len(),
            forall|s: backend::string::Symbol| #[trigger]
                old(self).spec_resolve(s) is Some ==> final(self).spec_resolve(s) == old(
                    self,
                ).spec_resolve(s),
            forall|i: int|
                0 <= i < syms@.len() ==> final(self).spec_resolve((#[trigger] syms@[i]).1) == Some(
                    syms@[i].0@,
                ),
            forall|i: int| 0 <= i < syms@.len() ==> final(self).contains((#[trigger] syms@[i]).0@),
            forall|i: int|
                0 <= i < syms@.len() && !old(self).contains((#[trigger] syms@[i]).0@) && first_at(
                    syms@,
                    i,
                ) ==> final(self).symbol_of(syms@[i].0@) == syms@[i].1,
            forall|v: Seq<char>| #[trigger]
                old(self).contains(v) ==> final(self).contains(v) && final(self).symbol_of(v)
                    == old(self).symbol_of(v),
    {
        self.backend.prefill(syms);
        let ghost mid = *self;
        proof {
            assert(mid.symbols() =~= old(self).symbols());
            assert(mid.wf());
            assert(Self::handed_out(mid, mid, syms@, 0)) by {
                reveal(Interner::handed_out);
            }
        }
        let mut n: usize = 0;
        while n < syms.len()
            invariant
                n <= syms@.len(),
                Self::handed_out(mid, *self, syms@, n as int),
                self.wf(),
                self.spec_backend() == mid.spec_backend(),
                forall|i: int|
                    0 <= i < syms@.len() ==> mid.spec_resolve((#[trigger] syms@[i]).1) == Some(
                        syms@[i].0@,
                    ),
            decreases syms@.len() - n,
        {
            let ghost pre = *self;
            assert(pre.spec_resolve(syms@[n as int].1) == Some(syms@[n as int].0@));
            let adopted = self.adopt(syms[n].0, syms[n].1);
            proof {
                Self::lemma_handed_out_next(mid, pre, *self, syms@, n as int, adopted);
            }
            n += 1;
        }
        proof {
            Self::lemma_handed_out_all(*old(self), mid, *self, syms@);
        }
    }
}

impl<B: Backend<str>, H: ValueHasher<str>> Interner<str, B, H> {
    /// The empty string is a value like any other: its symbol resolves to
    /// it, and is not the symbol of a string that is not empty.
    pub proof fn law_empty_string(pre: Self, post: Self, sym: B::Symbol, other: B::Symbol)
        requires
            Self::interns(pre, Seq::<char>::empty(), post, sym),
            post.spec_resolve(other) is Some,
            post.spec_resolve(other).unwrap().len() > 0,
        ensures
            post.spec_resolve(sym) == Some(Seq::<char>::empty()),
            post.symbol_of(Seq::<char>::empty()) == sym,
            other != sym,
    {
        post.lemma_symbol_of(sym, Seq::<char>::empty());
    }
}

impl<E: Element, B: Backend<[E]>, H: ValueHasher<[E]>> Interner<[E], B, H> {
    /// The empty slice is a value like any other: its symbol resolves to it,
    /// and is not the symbol of a slice that is not empty.
    pub proof fn law_empty_slice(pre: Self, post: Self, sym: B::Symbol, other: B::Symbol)
        requires
            Self::interns(pre, Seq::<E>::empty(), post, sym),
            post.spec_resolve(other) is Some,
            post.spec_resolve(other).unwrap().len() > 0,
        ensures
            post.spec_resolve(sym) == Some(Seq::<E>::empty()),
            post.symbol_of(Seq::<E>::empty()) == sym,
            other != sym,
    {
        post.lemma_symbol_of(sym, Seq::<E>::empty());
    }
}

impl<T: ?Sized + Value, B: Backend<T>, H: ValueHasher<T> + Default> Default for Interner<T, B, H> {
    fn default() -> (interner: Self)
        ensures
            interner.wf(),
            interner.symbols() == Set::<B::Symbol>::empty(),
            interner.spec_backend().is_empty(),
    {
        Self::new()
    }
}

} // verus!
