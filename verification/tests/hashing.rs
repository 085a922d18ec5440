use interns::element::feed_word;
use interns::{Element, Interner, KeyedState, Value, ValueHasher};

use std::collections::hash_map::DefaultHasher;
use std::hash::Hasher;

#[test]
fn a_state_hashes_a_value_the_same_each_time() {
    let state = KeyedState::new();
    assert_eq!(state.hash_one("hello"), state.hash_one("hello"));
    assert_eq!(state.hash_one(&7u32), state.hash_one(&7u32));
    assert_eq!(state.hash_one(&[1u8, 2][..]), state.hash_one(&[1u8, 2][..]));
    let copy = state;
    assert_eq!(copy.hash_one("hello"), state.hash_one("hello"));
}

#[test]
fn states_with_the_same_keys_hash_alike() {
    let one = KeyedState::with_keys(3, 4);
    let two = KeyedState::with_keys(3, 4);
    let other = KeyedState::with_keys(4, 3);
    assert_eq!(one.hash_one("hello"), two.hash_one("hello"));
    assert_ne!(one.hash_one("hello"), other.hash_one("hello"));
    assert_ne!(one.hash_one(&5u64), other.hash_one(&5u64));
}

#[test]
fn a_state_writes_its_keys_and_then_the_bytes_of_a_string() {
    let mut plain = DefaultHasher::new();
    plain.write(&[1, 0, 0, 0, 0, 0, 0, 0]);
    plain.write(&[0, 2, 0, 0, 0, 0, 0, 0]);
    plain.write("hello".as_bytes());
    let state = KeyedState::with_keys(1, 512);
    assert_eq!(state.hash_one("hello"), plain.finish());
    assert_ne!(state.hash_one("hello"), state.hash_one("hellp"));
}

#[test]
fn a_state_writes_its_keys_and_then_each_element_of_a_slice() {
    let mut plain = DefaultHasher::new();
    plain.write(&[0; 8]);
    plain.write(&[0; 8]);
    plain.write(&[1, 0, 0, 0, 0, 0, 0, 0]);
    plain.write(&[2, 1, 0, 0, 0, 0, 0, 0]);
    let state = KeyedState::with_keys(0, 0);
    assert_eq!(state.hash_one(&[1u16, 258][..]), plain.finish());
    assert_ne!(state.hash_one(&[1u16, 258][..]), state.hash_one(&[258u16, 1][..]));
}

#[test]
fn a_state_writes_its_keys_and_then_the_element() {
    let mut plain = DefaultHasher::new();
    plain.write(&[9, 0, 0, 0, 0, 0, 0, 0]);
    plain.write(&[8, 0, 0, 0, 0, 0, 0, 0]);
    plain.write(&[7, 0, 0, 0, 0, 0, 0, 0]);
    assert_eq!(KeyedState::with_keys(9, 8).hash_one(&7u32), plain.finish());
}

#[test]
fn interners_with_different_keys_hand_out_the_same_symbols() {
    let mut one: Interner<str> = Interner::with_hasher(KeyedState::with_keys(1, 1));
    let mut two: Interner<str> = Interner::with_hasher(KeyedState::new());
    for i in 0..5000 {
        let word = format!("w{}", i % 1000);
        assert_eq!(one.get_or_intern(&word), two.get_or_intern(&word));
    }
}

#[test]
fn feed_word_writes_eight_bytes_lowest_first() {
    let mut fed = DefaultHasher::new();
    feed_word(&mut fed, 0x0102_0304_0506_0708);
    let mut plain = DefaultHasher::new();
    plain.write(&[8, 7, 6, 5, 4, 3, 2, 1]);
    assert_eq!(fed.finish(), plain.finish());
}

#[test]
fn elements_feed_their_value_as_a_word() {
    let mut fed = DefaultHasher::new();
    (-1i8).feed(&mut fed);
    true.feed(&mut fed);
    'a'.feed(&mut fed);
    let mut plain = DefaultHasher::new();
    plain.write(&[255; 8]);
    plain.write(&[1, 0, 0, 0, 0, 0, 0, 0]);
    plain.write(&[97, 0, 0, 0, 0, 0, 0, 0]);
    assert_eq!(fed.finish(), plain.finish());
}

#[test]
fn elements_compare_and_copy() {
    assert!(5u8.same_as(&5));
    assert!(!5u8.same_as(&6));
    assert!((-3i64).same_as(&-3));
    assert!(!'a'.same_as(&'b'));
    assert!(false.same_as(&false));
    assert_eq!(1234usize.duplicate(), 1234);
    assert_eq!((-9isize).duplicate(), -9);
    assert_eq!('z'.duplicate(), 'z');
}

#[test]
fn values_compare_by_content() {
    assert!("abc".same("abc"));
    assert!(!"abc".same("abd"));
    assert!(!"abc".same("ab"));
    assert!("".same(""));
    assert!([1u32, 2][..].same(&[1, 2]));
    assert!(![1u32, 2][..].same(&[1, 3]));
    assert!(![1u32, 2][..].same(&[1]));
    assert!(7i16.same(&7));
}

#[test]
fn interners_of_each_kind_of_element() {
    let mut bytes = Interner::<u8>::new();
    let mut wide = Interner::<u64>::new();
    let mut signed = Interner::<i64>::new();
    let mut flags = Interner::<bool>::new();
    let mut letters = Interner::<char>::new();

    let a = bytes.get_or_intern(&200);
    assert_eq!(bytes.get_or_intern(&200), a);
    assert_ne!(bytes.get_or_intern(&201), a);

    let b = wide.get_or_intern(&u64::MAX);
    assert_eq!(wide.get_or_intern(&u64::MAX), b);
    assert_eq!(wide.resolve(b), Some(&u64::MAX));

    let c = signed.get_or_intern(&-1);
    assert_ne!(signed.get_or_intern(&1), c);
    assert_eq!(signed.resolve(c), Some(&-1));

    let t = flags.get_or_intern(&true);
    let f = flags.get_or_intern(&false);
    assert_ne!(t, f);
    assert_eq!(flags.get_or_intern(&true), t);

    let x = letters.get_or_intern(&'x');
    assert_eq!(letters.get_or_intern(&'x'), x);
    assert_eq!(letters.resolve(x), Some(&'x'));
}
