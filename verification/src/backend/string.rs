//! The string backend: one growing buffer, and symbols that are spans of it.
use vstd::prelude::*;
use vstd::string::StringExecFns;
use vstd::utf8::*;
use crate::backend::{Backend, BackendSymbol, Value};
use crate::backend::text::{is_slice, lemma_append, slice_of, slice_text};
use crate::{Interner, StringInterner, first_at};

verus! {

impl Value for str {
    type Model = Seq<char>;

    open spec fn model(&self) -> Seq<char> {
        self@
    }

    fn same(&self, other: &Self) -> (eq: bool) {
        let a = self.as_bytes();
        let b = other.as_bytes();
        proof {
            encode_utf8_decode_utf8(self@);
            encode_utf8_decode_utf8(other@);
        }
        if a.len() != b.len() {
            return false;
        }
        let mut i: usize = 0;
        while i < a.len()
            invariant
                i <= a.len(),
                a.len() == b.len(),
                a@ == encode_utf8(self@),
                b@ == encode_utf8(other@),
                forall|j: int| 0 <= j < i ==> a@[j] == b@[j],
            decreases a.len() - i,
        {
            if a[i] != b[i] {
                return false;
            }
            i += 1;
        }
        assert(a@ =~= b@);
        true
    }
}

/// A span of the string buffer, or the index of one in the span table.
///
/// `len == u32::MAX` marks the second form: `offset` is then an index.
#[derive(Clone, Copy, Debug, Hash, PartialEq, Eq, Structural, PartialOrd, Ord)]
pub struct Symbol {
    pub offset: u32,
    pub len: u32,
}

impl Symbol {
    /// The symbol as one integer: `offset` in the high half, `len` in the low half.
    pub open spec fn spec_as_usize(self) -> int {
        self.offset * 0x1_0000_0000 + self.len
    }

    /// The symbol that an integer stands for.
    pub open spec fn spec_from_usize(val: usize) -> Symbol {
        Symbol {
            offset: ((val as int / 0x1_0000_0000) % 0x1_0000_0000) as u32,
            len: (val as int % 0x1_0000_0000) as u32,
        }
    }

    /// Reads a symbol from one integer.
    pub fn from_usize(val: usize) -> (sym: Self)
        ensures
            sym == Self::spec_from_usize(val),
    {
        let v: u64 = val as u64;
        assert((v >> 32) == (v / 0x1_0000_0000) % 0x1_0000_0000) by (bit_vector);
        assert((v & 0xffff_ffff) == v % 0x1_0000_0000) by (bit_vector);
        Self { offset: (v >> 32) as u32, len: (v & 0xffff_ffff) as u32 }
    }

    /// Writes the symbol as one integer, where `usize` can hold it: on a
    /// 64-bit target always.
    pub fn as_usize(&self) -> (val: usize)
        ensures
            self.spec_as_usize() <= usize::MAX ==> val == self.spec_as_usize(),
    {
        let offset: u64 = self.offset as u64;
        let len: u64 = self.len as u64;
        assert(offset < 0x1_0000_0000 && len < 0x1_0000_0000 ==> ((offset << 32) | len) == offset
            * 0x1_0000_0000 + len) by (bit_vector);
        #[verifier::truncate]
        (((offset << 32) | len) as usize)
    }

    /// Whether the symbol is itself a span of the buffer.
    pub fn is_inlined(&self) -> (inlined: bool)
        ensures
            inlined == (self.len != u32::MAX),
    {
        self.len != u32::MAX
    }

    /// The symbol for `len` bytes from `offset` on.
    pub fn new_inlined(offset: u32, len: u32) -> (sym: Self)
        ensures
            sym == (Symbol { offset, len }),
    {
        Self { offset, len }
    }

    /// The symbol for the span that the span table holds at `index`.
    pub fn new_indexed(index: usize) -> (sym: Self)
        requires
            index <= u32::MAX,
        ensures
            sym == (Symbol { offset: index as u32, len: u32::MAX }),
    {
        Self { offset: index as u32, len: u32::MAX }
    }

    /// A symbol written as one integer and read back is the same symbol.
    pub proof fn law_usize_round_trip(self)
        requires
            self.spec_as_usize() <= usize::MAX,
        ensures
            Self::spec_from_usize(self.spec_as_usize() as usize) == self,
    {
        let o = self.offset as int;
        let l = self.len as int;
        assert((o * 0x1_0000_0000 + l) / 0x1_0000_0000 == o && (o * 0x1_0000_0000 + l)
            % 0x1_0000_0000 == l) by (nonlinear_arith)
            requires
                0 <= l < 0x1_0000_0000,
                0 <= o,
        ;
    }
}

impl BackendSymbol for Symbol {
    open spec fn spec_key(self) -> (usize, usize) {
        (self.offset as usize, self.len as usize)
    }

    open spec fn spec_from_key(k: (usize, usize)) -> Self {
        Symbol { offset: k.0 as u32, len: k.1 as u32 }
    }

    proof fn key_round_trip(self) {
    }

    fn key(self) -> (k: (usize, usize)) {
        (self.offset as usize, self.len as usize)
    }

    fn from_key(k: (usize, usize)) -> (sym: Self) {
        Symbol {
            offset: #[verifier::truncate]
            (k.0 as u32),
            len: #[verifier::truncate]
            (k.1 as u32),
        }
    }
}

/// Where an interned string lies in the buffer, in bytes.
struct Span {
    pub offset: usize,
    pub len: usize,
}

/// Backend for strings
///
/// It appends every string to one buffer. The symbol of a string is the span
/// it then covers, where offset and length both fit the symbol; else the span
/// goes into a table and the symbol is its index there.
pub struct StringBackend {
    buf: String,
    spans: Vec<Span>,
}

impl StringBackend {
    /// The text of the buffer: all the strings interned, one after the other.
    pub closed spec fn text(&self) -> Seq<char> {
        self.buf@
    }

    /// The span table, each span as its offset and its length.
    pub closed spec fn spans(&self) -> Seq<(int, int)> {
        Seq::new(
            self.spans@.len(),
            |i: int| (self.spans@[i].offset as int, self.spans@[i].len as int),
        )
    }

    /// The bytes of the buffer.
    pub open spec fn bytes(&self) -> Seq<u8> {
        encode_utf8(self.text())
    }

    /// The symbol that a string of `len` bytes gets when the buffer holds
    /// `offset` bytes and the span table `spans` spans.
    pub open spec fn next_symbol(offset: int, len: int, spans: int) -> Symbol {
        if len < u32::MAX && offset <= u32::MAX {
            Symbol { offset: offset as u32, len: len as u32 }
        } else {
            Symbol { offset: spans as u32, len: u32::MAX }
        }
    }
}

/// The texts of a list of strings with their symbols, one after the other.
pub open spec fn joined(strings: Seq<(&str, Symbol)>) -> Seq<char>
    decreases strings.len(),
{
    if strings.len() == 0 {
        Seq::empty()
    } else {
        joined(strings.drop_last()) + strings.last().0@
    }
}

/// Whether each string of the list stands with the symbol that a backend gives
/// it when it is filled with the list: the index of its span.
pub open spec fn in_order(strings: Seq<(&str, Symbol)>) -> bool {
    &&& strings.len() <= 0x1_0000_0000
    &&& forall|i: int|
        0 <= i < strings.len() ==> (#[trigger] strings[i]).1 == (Symbol {
            offset: i as u32,
            len: u32::MAX,
        })
}

impl StringBackend {
    /// Fills a backend whose span table is empty with the strings given. Each
    /// gets a span in the table, and the symbol that stands beside it.
    pub fn prefill(&mut self, strings: &[(&str, Symbol)])
        requires
            old(self).wf(),
            old(self).spans().len() == 0,
            in_order(strings@),
        ensures
            final(self).wf(),
            final(self).text() == old(self).text() + joined(strings@),
            final(self).spans().len() == strings@.len(),
            forall|i: int|
                0 <= i < strings@.len() ==> final(self).spec_get((#[trigger] strings@[i]).1)
                    == Some(strings@[i].0@),
            forall|s: Symbol| #[trigger]
                old(self).spec_get(s) is Some ==> final(self).spec_get(s) == old(self).spec_get(s),
    {
        let mut n: usize = 0;
        while n < strings.len()
            invariant
                n <= strings@.len(),
                in_order(strings@),
                self.wf(),
                self.text() == old(self).text() + joined(strings@.take(n as int)),
                self.spans().len() == n,
                forall|i: int|
                    0 <= i < n ==> self.spec_get((#[trigger] strings@[i]).1) == Some(
                        strings@[i].0@,
                    ),
                forall|s: Symbol| #[trigger]
                    old(self).spec_get(s) is Some ==> self.spec_get(s) == old(self).spec_get(s),
            decreases strings@.len() - n,
        {
            let ghost before = *self;
            let string = strings[n].0;
            let offset = self.buf.as_str().as_bytes().len();
            let len = string.as_bytes().len();
            self.buf.append(string);
            self.spans.push(Span { offset, len });
            proof {
                lemma_append(before.text(), string@);
                assert(self.spans() =~= before.spans().push((offset as int, len as int)));
                let next = strings@.take(n + 1);
                assert(next.drop_last() =~= strings@.take(n as int));
            }
            n += 1;
        }
        assert(strings@.take(n as int) =~= strings@);
    }
}

impl Default for StringBackend {
    fn default() -> (b: Self)
        ensures
            b.wf(),
            b.is_empty(),
    {
        let b = StringBackend { buf: String::new(), spans: Vec::new() };
        assert(b.spans() =~= Seq::<(int, int)>::empty());
        b
    }
}

impl Backend<str> for StringBackend {
    type Symbol = Symbol;

    /// Every span of the table is a slice of the buffer.
    open spec fn wf(&self) -> bool {
        forall|i: int|
            0 <= i < self.spans().len() ==> is_slice(
                self.bytes(),
                (#[trigger] self.spans()[i]).0,
                self.spans()[i].1,
            )
    }

    open spec fn spec_get(&self, sym: Symbol) -> Option<Seq<char>> {
        if sym.len != u32::MAX {
            if is_slice(self.bytes(), sym.offset as int, sym.len as int) {
                Some(slice_text(self.bytes(), sym.offset as int, sym.len as int))
            } else {
                None
            }
        } else if sym.offset < self.spans().len() {
            let span = self.spans()[sym.offset as int];
            Some(slice_text(self.bytes(), span.0, span.1))
        } else {
            None
        }
    }

    /// The string can get a span as its symbol, or the span table, whose
    /// indices are 32 bits wide, has an index left.
    open spec fn has_room(&self, value: Seq<char>) -> bool {
        ||| encode_utf8(value).len() < u32::MAX && self.bytes().len() <= u32::MAX
        ||| self.spans().len() <= u32::MAX
    }

    /// Nothing is in the buffer and nothing in the span table.
    open spec fn is_empty(&self) -> bool {
        self.text() == Seq::<char>::empty() && self.spans() == Seq::<(int, int)>::empty()
    }

    /// The string stands at the end of the buffer. Its symbol is its span
    /// there, where offset and length fit the symbol; else the span is the
    /// last of the table, and the symbol its index.
    open spec fn stores(&self, value: Seq<char>, post: &Self, sym: Symbol) -> bool {
        let offset = self.bytes().len() as int;
        let len = encode_utf8(value).len() as int;
        &&& post.text() == self.text() + value
        &&& sym == Self::next_symbol(offset, len, self.spans().len() as int)
        &&& post.spans() == if sym.len != u32::MAX {
            self.spans()
        } else {
            self.spans().push((offset, len))
        }
    }

    fn empty() -> (b: Self) {
        let b = StringBackend { buf: String::new(), spans: Vec::new() };
        assert(b.spans() =~= Seq::<(int, int)>::empty());
        b
    }

    fn can_intern(&self, src: &str) -> (room: bool) {
        let inline = src.as_bytes().len() < u32::MAX as usize && self.buf.as_str().as_bytes().len()
            <= u32::MAX as usize;
        inline || self.spans.len() <= u32::MAX as usize
    }

    fn intern(&mut self, src: &str) -> (sym: Symbol) {
        let offset = self.buf.as_str().as_bytes().len();
        let len = src.as_bytes().len();
        self.buf.append(src);
        proof {
            lemma_append(old(self).text(), src@);
        }
        if len < u32::MAX as usize && offset <= u32::MAX as usize {
            Symbol::new_inlined(offset as u32, len as u32)
        } else {
            let span = Span { offset, len };
            let index = self.spans.len();
            self.spans.push(span);
            assert(self.spans() =~= old(self).spans().push((offset as int, len as int)));
            Symbol::new_indexed(index)
        }
    }

    fn get(&self, sym: Symbol) -> (val: Option<&str>) {
        let (offset, len) = if sym.is_inlined() {
            (sym.offset as usize, sym.len as usize)
        } else {
            let index = sym.offset as usize;
            if index >= self.spans.len() {
                return None;
            }
            (self.spans[index].offset, self.spans[index].len)
        };
        slice_of(self.buf.as_str(), offset, len)
    }
}

/// A helper struct to build prefilled interners
///
/// The builder holds a list of strings. The interner it builds has them
/// interned, each with a symbol that is known beforehand: the one at `idx` has
/// the symbol of the span with index `idx`.
pub struct StringInternerBuilder<const N: usize>([&'static str; N]);

impl<const N: usize> StringInternerBuilder<N> {
    /// The symbols must be able to count the strings.
    #[verifier::type_invariant]
    spec fn counted(&self) -> bool {
        N <= 0x1_0000_0000
    }

    /// The strings of the builder.
    pub closed spec fn strings(&self) -> Seq<&'static str> {
        self.0@
    }

    /// The strings of the builder, each with the symbol it will have.
    pub open spec fn symbols(&self) -> Seq<(&str, Symbol)> {
        Seq::new(
            N as nat,
            |i: int| (self.strings()[i], Symbol { offset: i as u32, len: u32::MAX }),
        )
    }

    /// Builds a [`StringInternerBuilder`] with the given symbols
    pub fn with_const_symbols(predefined: [&'static str; N]) -> (builder: Self)
        requires
            N <= 0x1_0000_0000,
        ensures
            builder.strings() == predefined@,
    {
        Self(predefined)
    }

    /// The symbol that the string at `idx` will have.
    pub fn symbol_at(&self, idx: usize) -> (sym: Symbol)
        requires
            idx < N,
        ensures
            sym == self.symbols()[idx as int].1,
    {
        proof {
            use_type_invariant(self);
        }
        Symbol::new_indexed(idx)
    }

    /// The string at `idx`.
    pub fn string_at(&self, idx: usize) -> (string: &'static str)
        requires
            idx < N,
        ensures
            string == self.strings()[idx as int],
    {
        self.0[idx]
    }

    /// Builds a [`StringInterner`] with the symbols given on
    /// [`Self::with_const_symbols`]
    ///
    /// Every string of the builder is interned. Its symbol is the one that
    /// [`Self::symbol_at`] gives for it, at the place where the string stands
    /// first in the list.
    pub fn build(&self) -> (interner: StringInterner)
        ensures
            interner.wf(),
            interner.spec_backend().text() == joined(self.symbols()),
            forall|i: int|
                0 <= i < N ==> interner.spec_resolve((#[trigger] self.symbols()[i]).1) == Some(
                    self.strings()[i]@,
                ),
            forall|i: int| 0 <= i < N ==> interner.contains((#[trigger] self.symbols()[i]).0@),
            forall|i: int|
                0 <= i < N && first_at(self.symbols(), i) ==> interner.symbol_of(
                    (#[trigger] self.symbols()[i]).0@,
                ) == self.symbols()[i].1,
    {
        proof {
            use_type_invariant(self);
        }
        let mut pairs: Vec<(&'static str, Symbol)> = Vec::new();
        let mut i: usize = 0;
        while i < N
            invariant
                i <= N,
                N <= 0x1_0000_0000,
                pairs@ == self.symbols().take(i as int),
            decreases N - i,
        {
            pairs.push((self.0[i], Symbol::new_indexed(i)));
            i += 1;
        }
        assert(pairs@ =~= self.symbols());
        let mut interner: StringInterner = Interner::new();
        interner.prefill(pairs.as_slice());
        interner
    }
}

} // verus!
