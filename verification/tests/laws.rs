use interns::backend::string::Symbol;
use interns::backend::string_buf::StringBuf;
use interns::backend::vec::Span;
use interns::{Backend, Interner, KeyedState, StringBackend, StringInterner, VecBackend};

#[test]
fn interning_twice_gives_one_symbol() {
    let mut interner = Interner::<str>::new();
    for word in ["", "a", "ab", "héllo", "a much longer piece of text", "\n"] {
        let first = interner.get_or_intern(word);
        let second = interner.get_or_intern(word);
        assert_eq!(first, second);
    }
}

#[test]
fn interning_again_later_gives_the_first_symbol() {
    let mut interner = Interner::<str>::new();
    let first = interner.get_or_intern("early");
    for i in 0..1000 {
        interner.get_or_intern(&format!("between {i}"));
    }
    assert_eq!(interner.get_or_intern("early"), first);
}

#[test]
fn distinct_values_get_distinct_symbols() {
    let mut interner = Interner::<str>::new();
    let words = ["", "a", "b", "ab", "ba", "aa", "A", "a ", " a"];
    let symbols: Vec<Symbol> = words.iter().map(|w| interner.get_or_intern(w)).collect();
    for i in 0..words.len() {
        for j in 0..words.len() {
            assert_eq!(symbols[i] == symbols[j], i == j);
        }
    }
}

#[test]
fn a_symbol_resolves_to_its_value() {
    let mut interner = Interner::<str>::new();
    for word in ["", "x", "two words", "ünïcödé", "\0"] {
        let sym = interner.get_or_intern(word);
        assert_eq!(interner.resolve(sym), Some(word));
    }
}

#[test]
fn interned_symbols_round_trip_through_usize() {
    let mut interner = Interner::<str>::new();
    for i in 0..500 {
        let sym = interner.get_or_intern(&format!("value {i}"));
        assert_eq!(Symbol::from_usize(sym.as_usize()), sym);
    }
}

#[test]
fn growth_changes_no_resolution_and_merges_no_values() {
    let mut interner = Interner::<str>::new();
    let mut symbols = Vec::new();
    let before = interner.table_capacity();
    for i in 0..20_000 {
        symbols.push(interner.get_or_intern(&format!("n{i}")));
        for (j, sym) in symbols.iter().enumerate().take(3) {
            assert_eq!(interner.resolve(*sym), Some(format!("n{j}").as_str()));
        }
    }
    assert!(interner.table_capacity() > before);
    let mut seen = std::collections::HashSet::new();
    for (i, sym) in symbols.iter().enumerate() {
        assert_eq!(interner.resolve(*sym), Some(format!("n{i}").as_str()));
        assert!(seen.insert(*sym));
    }
}

#[test]
fn empty_string_is_a_value_like_any_other() {
    let mut interner = Interner::<str>::new();
    let word = interner.get_or_intern("word");
    let empty = interner.get_or_intern("");
    let other = interner.get_or_intern("other");
    assert_ne!(empty, word);
    assert_ne!(empty, other);
    assert_eq!(interner.resolve(empty), Some(""));
    assert_eq!(interner.get_or_intern(""), empty);
    assert_eq!(interner.resolve(word), Some("word"));
}

#[test]
fn empty_string_first() {
    let mut interner = Interner::<str>::new();
    let empty = interner.get_or_intern("");
    let word = interner.get_or_intern("word");
    assert_ne!(empty, word);
    assert_eq!(interner.resolve(empty), Some(""));
    assert_eq!(interner.get_or_intern(""), empty);
}

#[test]
fn empty_slice_is_a_value_like_any_other() {
    let mut interner = Interner::<[u32]>::new();
    let run = interner.get_or_intern(&[1, 2]);
    let empty = interner.get_or_intern(&[]);
    let other = interner.get_or_intern(&[3]);
    assert_ne!(empty, run);
    assert_ne!(empty, other);
    assert_eq!(interner.resolve(empty), Some(&[][..]));
    assert_eq!(interner.get_or_intern(&[]), empty);
    assert_eq!(empty, Span { start: 2, len: 0 });
}

#[test]
fn hello_world_hello() {
    let mut interner = Interner::<str>::new();
    let first = interner.get_or_intern("hello");
    let second = interner.get_or_intern("world");
    let third = interner.get_or_intern("hello");
    assert_eq!(first, third);
    assert_ne!(second, first);
    assert_ne!(second, third);
    assert_eq!(interner.resolve(first), Some("hello"));
    assert_eq!(interner.resolve(second), Some("world"));
    assert_eq!(interner.resolve(third), Some("hello"));
    assert_eq!(first, Symbol::new_inlined(0, 5));
    assert_eq!(second, Symbol::new_inlined(5, 5));
}

#[test]
fn numeric_strings_up_to_99998() {
    let mut interner = Interner::<str>::new();
    let mut fifty_thousand = None;
    for i in 0..99_999 {
        let sym = interner.get_or_intern(&format!("{i}"));
        if i == 50_000 {
            fifty_thousand = Some(sym);
        }
    }
    let sym = fifty_thousand.unwrap();
    assert_eq!(interner.resolve(sym), Some("50000"));
    assert_eq!(interner.get_or_intern("50000"), sym);
}

#[test]
fn slice_backend_scenario() {
    let mut interner = Interner::<[i32], VecBackend<i32>>::new();
    let first = interner.get_or_intern(&[1, 2, 3, 4, 5]);
    let second = interner.get_or_intern(&[45, 6]);
    let third = interner.get_or_intern(&[1, 2, 3, 4, 5]);
    assert_eq!(first, third);
    assert_ne!(first, second);
    assert_eq!(interner.resolve(first), Some(&[1, 2, 3, 4, 5][..]));
    assert_eq!(interner.resolve(second), Some(&[45, 6][..]));
    assert_eq!(interner.resolve(third), Some(&[1, 2, 3, 4, 5][..]));
    assert_eq!(first, Span { start: 0, len: 5 });
    assert_eq!(second, Span { start: 5, len: 2 });
}

#[test]
fn a_hit_leaves_the_backend_alone() {
    let mut interner = Interner::<str>::new();
    interner.get_or_intern("one");
    interner.get_or_intern("one");
    interner.get_or_intern("one");
    assert_eq!(interner.get_or_intern("two"), Symbol::new_inlined(3, 3));
}

#[test]
fn slices_that_share_a_prefix_differ() {
    let mut interner = Interner::<[u8]>::new();
    let a = interner.get_or_intern(&[1, 2]);
    let b = interner.get_or_intern(&[1, 2, 3]);
    let c = interner.get_or_intern(&[1]);
    assert_ne!(a, b);
    assert_ne!(a, c);
    assert_ne!(b, c);
    assert_eq!(interner.resolve(c), Some(&[1u8][..]));
}

#[test]
fn resolve_refuses_a_foreign_symbol() {
    let mut interner = Interner::<str>::new();
    interner.get_or_intern("abc");
    assert_eq!(interner.resolve(Symbol::new_inlined(0, 4)), None);
    assert_eq!(interner.resolve(Symbol::new_inlined(10, 1)), None);
    assert_eq!(interner.resolve(Symbol::new_indexed(0)), None);

    let mut numbers = Interner::<u64>::new();
    let one = numbers.get_or_intern(&1);
    assert_eq!(numbers.resolve(one), Some(&1));
    let mut other = Interner::<u64>::new();
    assert_eq!(other.resolve(one), None);
    other.get_or_intern(&2);
    assert_eq!(other.resolve(one), Some(&2));
}

#[test]
fn can_intern_says_yes_while_there_is_room() {
    let mut interner = Interner::<str>::new();
    assert!(interner.can_intern("new"));
    interner.get_or_intern("new");
    assert!(interner.can_intern("new"));
    assert!(interner.can_intern("newer"));
}

#[test]
fn constructors_give_empty_interners() {
    let mut a: StringInterner = Interner::new();
    let mut b: StringInterner = Interner::with_hasher(KeyedState::with_keys(1, 2));
    let mut c: StringInterner = Interner::with_backend(StringBackend::default());
    let mut d: StringInterner = Interner::with_backend_and_hasher(StringBackend::default(), KeyedState::new());
    let mut e: StringInterner = Interner::default();
    for interner in [&mut a, &mut b, &mut c, &mut d, &mut e] {
        assert_eq!(interner.table_capacity(), 0);
        assert_eq!(interner.get_or_intern("x"), Symbol::new_inlined(0, 1));
        assert_eq!(interner.get_or_intern("x"), Symbol::new_inlined(0, 1));
        assert!(interner.table_capacity() >= 1);
    }
}

#[test]
fn with_backend_keeps_what_the_backend_holds() {
    let mut backend = StringBackend::default();
    let stored = backend.intern("stored");
    let mut interner: StringInterner = Interner::with_backend(backend);
    assert_eq!(interner.resolve(stored), Some("stored"));
    let fresh = interner.get_or_intern("stored");
    assert_ne!(fresh, stored);
    assert_eq!(fresh, Symbol::new_inlined(6, 6));
    assert_eq!(interner.get_or_intern("stored"), fresh);
}

#[test]
fn adopt_makes_a_stored_value_findable() {
    let mut backend = StringBackend::default();
    let stored = backend.intern("stored");
    let twin = backend.intern("stored");
    let mut interner: StringInterner = Interner::with_backend(backend);
    assert!(!interner.adopt("other", stored));
    assert!(!interner.adopt("stored", Symbol::new_inlined(0, 7)));
    assert!(interner.adopt("stored", stored));
    assert!(!interner.adopt("stored", twin));
    assert_eq!(interner.get_or_intern("stored"), stored);
    assert_eq!(interner.get_or_intern("other"), Symbol::new_inlined(12, 5));
}

#[test]
fn interner_on_the_plain_string_backend() {
    let mut interner: Interner<str, StringBuf> = Interner::with_backend(<StringBuf as Backend<str>>::empty());
    let a = interner.get_or_intern("a");
    let b = interner.get_or_intern("b");
    assert_eq!(interner.get_or_intern("a"), a);
    assert_ne!(a, b);
    assert_eq!(interner.resolve(b), Some("b"));
}

#[test]
fn prefill_hands_out_the_symbols_given() {
    let mut interner: StringInterner = Interner::new();
    let list = [
        ("static", Symbol::new_indexed(0)),
        ("const", Symbol::new_indexed(1)),
        ("static", Symbol::new_indexed(2)),
    ];
    interner.prefill(&list);
    assert_eq!(interner.get_or_intern("static"), Symbol::new_indexed(0));
    assert_eq!(interner.get_or_intern("const"), Symbol::new_indexed(1));
    assert_eq!(interner.resolve(Symbol::new_indexed(2)), Some("static"));
    assert_eq!(interner.get_or_intern("int"), Symbol::new_inlined(17, 3));
}

#[test]
fn prefill_keeps_a_symbol_handed_out_before() {
    let mut interner: StringInterner = Interner::new();
    let early = interner.get_or_intern("const");
    interner.prefill(&[("const", Symbol::new_indexed(0)), ("fn", Symbol::new_indexed(1))]);
    assert_eq!(interner.get_or_intern("const"), early);
    assert_eq!(interner.get_or_intern("fn"), Symbol::new_indexed(1));
    assert_eq!(interner.resolve(Symbol::new_indexed(0)), Some("const"));
}

#[test]
fn table_capacity_covers_the_symbols_handed_out() {
    let mut interner = Interner::<str>::new();
    assert_eq!(interner.table_capacity(), 0);
    for i in 0..3000usize {
        interner.get_or_intern(&format!("word {i}"));
        assert!(interner.table_capacity() >= i + 1);
    }
    for i in 0..3000usize {
        interner.get_or_intern(&format!("word {i}"));
    }
    assert!(interner.table_capacity() >= 3000);

    let mut numbers = Interner::<u16>::new();
    for n in 0..500u16 {
        numbers.get_or_intern(&n);
    }
    assert!(numbers.table_capacity() >= 500);
}
