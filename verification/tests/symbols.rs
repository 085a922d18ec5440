use interns::backend::string::Symbol;
use interns::backend::string_buf::Symbol as BufSymbol;
use interns::backend::vec::{Span, Symbol as Index};
use interns::BackendSymbol;

#[test]
fn inlined_symbol_keeps_offset_and_length() {
    let sym = Symbol::new_inlined(17, 4);
    assert_eq!(sym.offset, 17);
    assert_eq!(sym.len, 4);
    assert!(sym.is_inlined());
}

#[test]
fn indexed_symbol_has_the_sentinel_length() {
    let sym = Symbol::new_indexed(7);
    assert_eq!(sym.offset, 7);
    assert_eq!(sym.len, u32::MAX);
    assert!(!sym.is_inlined());
}

#[test]
fn largest_index_is_not_cut() {
    let sym = Symbol::new_indexed(u32::MAX as usize);
    assert_eq!(sym.offset, u32::MAX);
    assert!(!sym.is_inlined());
}

#[test]
fn as_usize_packs_offset_above_length() {
    let sym = Symbol::new_inlined(1, 2);
    assert_eq!(sym.as_usize(), (1usize << 32) | 2);
    assert_eq!(Symbol::new_inlined(0, 0).as_usize(), 0);
    assert_eq!(Symbol::new_inlined(0, 9).as_usize(), 9);
    assert_eq!(Symbol::new_inlined(u32::MAX, u32::MAX).as_usize(), usize::MAX);
}

#[test]
fn from_usize_unpacks_both_halves() {
    let sym = Symbol::from_usize((3usize << 32) | 4);
    assert_eq!(sym, Symbol::new_inlined(3, 4));
    assert_eq!(Symbol::from_usize(0), Symbol::new_inlined(0, 0));
    assert_eq!(Symbol::from_usize(usize::MAX), Symbol { offset: u32::MAX, len: u32::MAX });
}

#[test]
fn usize_round_trip_of_many_symbols() {
    let halves = [0u32, 1, 2, 255, 65_536, 0x7fff_ffff, 0x8000_0000, u32::MAX - 1, u32::MAX];
    for offset in halves {
        for len in halves {
            let sym = Symbol { offset, len };
            assert_eq!(Symbol::from_usize(sym.as_usize()), sym);
        }
    }
    let indexed = Symbol::new_indexed(12);
    assert_eq!(Symbol::from_usize(indexed.as_usize()), indexed);
    assert!(!Symbol::from_usize(indexed.as_usize()).is_inlined());
}

#[test]
fn symbols_order_by_offset_then_length() {
    assert!(Symbol::new_inlined(0, 9) < Symbol::new_inlined(1, 0));
    assert!(Symbol::new_inlined(1, 0) < Symbol::new_inlined(1, 1));
}

#[test]
fn string_symbol_key_round_trip() {
    let sym = Symbol::new_inlined(40, 2);
    assert_eq!(sym.key(), (40, 2));
    assert_eq!(Symbol::from_key(sym.key()), sym);
    let indexed = Symbol::new_indexed(3);
    assert_eq!(indexed.key(), (3, u32::MAX as usize));
    assert_eq!(Symbol::from_key(indexed.key()), indexed);
}

#[test]
fn index_symbol_key_round_trip() {
    let sym = Index(5);
    assert_eq!(sym.key(), (5, 0));
    assert_eq!(Index::from_key(sym.key()), sym);
    let sym = BufSymbol(8);
    assert_eq!(sym.key(), (8, 0));
    assert_eq!(BufSymbol::from_key(sym.key()), sym);
}

#[test]
fn span_key_round_trip() {
    let span = Span { start: 3, len: 9 };
    assert_eq!(span.key(), (3, 9));
    assert_eq!(Span::from_key(span.key()), span);
}
