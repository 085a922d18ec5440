//! The plain string backend: one growing buffer and a table of spans, with
//! the index of a span as the symbol.
use vstd::prelude::*;
use vstd::string::StringExecFns;
use vstd::utf8::encode_utf8;
use crate::backend::{Backend, BackendSymbol};
use crate::backend::text::{is_slice, lemma_append, slice_of, slice_text};

verus! {

/// Where an interned string lies in the buffer, in bytes.
struct Span {
    pub offset: usize,
    pub len: usize,
}

/// Backend for strings
pub struct StringBuf {
    buf: String,
    spans: Vec<Span>,
}

/// The index of a span in the span table.
#[derive(Clone, Copy, Debug, Hash, PartialEq, Eq, Structural)]
pub struct Symbol(pub usize);

impl BackendSymbol for Symbol {
    open spec fn spec_key(self) -> (usize, usize) {
        (self.0, 0)
    }

    open spec fn spec_from_key(k: (usize, usize)) -> Self {
        Symbol(k.0)
    }

    proof fn key_round_trip(self) {
    }

    fn key(self) -> (k: (usize, usize)) {
        (self.0, 0)
    }

    fn from_key(k: (usize, usize)) -> (sym: Self) {
        Symbol(k.0)
    }
}

impl StringBuf {
    /// The text of the buffer: all the strings interned, one after the other.
    pub closed spec fn text(&self) -> Seq<char> {
        self.buf@
    }

    /// The span table, each span as its offset and its length.
    pub closed spec fn spans(&self) -> Seq<(int, int)> {
        Seq::new(
            self.spans@.len(),
            |i: int| (self.spans@[i].offset as int, self.spans@[i].len as int),
        )
    }
}

impl Backend<str> for StringBuf {
    type Symbol = Symbol;

    /// Every span of the table is a slice of the buffer.
    open spec fn wf(&self) -> bool {
        forall|i: int|
            0 <= i < self.spans().len() ==> is_slice(
                encode_utf8(self.text()),
                (#[trigger] self.spans()[i]).0,
                self.spans()[i].1,
            )
    }

    open spec fn spec_get(&self, sym: Symbol) -> Option<Seq<char>> {
        if sym.0 < self.spans().len() {
            let span = self.spans()[sym.0 as int];
            Some(slice_text(encode_utf8(self.text()), span.0, span.1))
        } else {
            None
        }
    }

    open spec fn has_room(&self, value: Seq<char>) -> bool {
        true
    }

    /// Nothing is in the buffer and nothing in the span table.
    open spec fn is_empty(&self) -> bool {
        self.text() == Seq::<char>::empty() && self.spans() == Seq::<(int, int)>::empty()
    }

    /// The string stands at the end of the buffer, its span is the last of
    /// the table, and the symbol is the index of the span.
    open spec fn stores(&self, value: Seq<char>, post: &Self, sym: Symbol) -> bool {
        &&& post.text() == self.text() + value
        &&& sym.0 == self.spans().len()
        &&& post.spans() == self.spans().push(
            (encode_utf8(self.text()).len() as int, encode_utf8(value).len() as int),
        )
    }

    fn empty() -> (b: Self) {
        let b = StringBuf { buf: String::new(), spans: Vec::new() };
        assert(b.spans() =~= Seq::<(int, int)>::empty());
        b
    }

    fn can_intern(&self, src: &str) -> (room: bool) {
        true
    }

    fn intern(&mut self, src: &str) -> (sym: Symbol) {
        let offset = self.buf.as_str().as_bytes().len();
        let len = src.as_bytes().len();
        self.buf.append(src);
        proof {
            lemma_append(old(self).text(), src@);
        }
        let span = Span { offset, len };
        let sym = Symbol(self.spans.len());
        self.spans.push(span);
        assert(self.spans() =~= old(self).spans().push((offset as int, len as int)));
        sym
    }

    fn get(&self, sym: Symbol) -> (val: Option<&str>) {
        if sym.0 >= self.spans.len() {
            return None;
        }
        slice_of(self.buf.as_str(), self.spans[sym.0].offset, self.spans[sym.0].len)
    }
}

} // verus!
