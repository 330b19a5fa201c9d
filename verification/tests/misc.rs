use mob::accumulate::do_twice;
use mob::affine_cipher::{
    decode_char, modular_multiplicative_inverse, AffineCipherError, MODULUS,
};
use mob::cache_padded::CachePadded;
use mob::date::now;
use mob::json;
use mob::keys::Keys;
use mob::raft;
use std::cell::Cell;

#[test]
fn map_applies_the_function_in_order() {
    fn square(x: i32) -> i32 {
        x * x
    }
    assert_eq!(mob::accumulate::map(vec![1, 2, 3], square), vec![1, 4, 9]);
    assert_eq!(mob::accumulate::map(vec![1, 2, 3], |x| x + x), vec![2, 4, 6]);
    assert_eq!(mob::accumulate::map(Vec::<i32>::new(), |x| x + 1), Vec::<i32>::new());
    assert_eq!(mob::accumulate::map(vec!["a", "bc"], |s: &str| s.len()), vec![1, 2]);
}

#[test]
fn do_twice_calls_twice() {
    let x = Cell::new(1usize);
    do_twice(|| x.set(x.get() + 2));
    assert_eq!(x.get(), 5);
    let mut y: usize = 1;
    do_twice(|| y += 2);
    assert_eq!(y, 5);
}

#[test]
fn the_alphabet_has_26_letters() {
    assert_eq!(MODULUS, 26);
    assert_eq!(AffineCipherError::NotCoprime(13), AffineCipherError::NotCoprime(13));
    assert_ne!(AffineCipherError::NotCoprime(13), AffineCipherError::NotCoprime(2));
}

#[test]
fn cache_padded_gives_its_value_back() {
    let padded = CachePadded::new(41u64);
    assert_eq!(*padded.get(), 41);
    assert_eq!(padded.into_inner(), 41);
    let mut padded = CachePadded::new(String::from("a"));
    padded.set(String::from("b"));
    assert_eq!(padded.into_inner(), "b");
}

#[test]
fn now_is_one_marker() {
    assert_eq!(now(), now());
}

#[test]
fn json_errors_have_their_texts() {
    assert_eq!(json::Error::Eof.to_string(), "unexpected end of input");
    assert_eq!(json::Error::Syntax.to_string(), "syntax error");
    assert_eq!(json::Error::ExpectedBoolean.to_string(), "expected boolean error");
    assert_eq!(json::Error::ExpectedInteger.to_string(), "expected integer error");
    assert_eq!(json::Error::ExpectedString.to_string(), "expected string error");
    assert_eq!(json::Error::ExpectedNull.to_string(), "expected null error");
    assert_eq!(json::Error::ExpectedArray.to_string(), "expected array error");
    assert_eq!(json::Error::ExpectedArrayComma.to_string(), "expected array comma error");
    assert_eq!(json::Error::ExpectedArrayEnd.to_string(), "expected array end error");
    assert_eq!(json::Error::ExpectedMap.to_string(), "expected map error");
    assert_eq!(json::Error::ExpectedMapColon.to_string(), "expected map colon error");
    assert_eq!(json::Error::ExpectedMapComma.to_string(), "expected map comma error");
    assert_eq!(json::Error::ExpectedMapEnd.to_string(), "expected map end error");
    assert_eq!(json::Error::ExpectedEnum.to_string(), "expected enum error");
    assert_eq!(
        json::Error::TrailingCharacters.to_string(),
        "expected trailing characters error"
    );
    assert_eq!(json::Error::custom("broken").to_string(), "broken");
    assert_eq!(json::Error::custom("broken"), json::Error::Message(String::from("broken")));
}

#[test]
fn keys_carries_its_pattern() {
    let keys = Keys::new("chin*");
    assert_eq!(keys.pattern(), "chin*");
    assert_eq!(keys.into_frame(), vec![String::from("keys"), String::from("chin*")]);
}

#[test]
fn the_term_vote_key_is_one_zero_byte() {
    assert_eq!(raft::Key::TermVote.encode(), vec![0x00]);
    let entry = raft::Entry { index: 1, term: 2, command: None };
    assert_eq!(entry.clone(), entry);
    assert_eq!(
        raft::Error::Internal(String::from("x")),
        raft::Error::Internal(String::from("x"))
    );
}

#[test]
fn multipliers_coprime_to_26_have_an_inverse() {
    assert_eq!(modular_multiplicative_inverse(1), Some(1));
    assert_eq!(modular_multiplicative_inverse(3), Some(9));
    assert_eq!(modular_multiplicative_inverse(5), Some(-5));
    assert_eq!(modular_multiplicative_inverse(15), Some(7));
    assert_eq!(modular_multiplicative_inverse(25), Some(-1));
    assert_eq!(modular_multiplicative_inverse(27), Some(1));
    assert_eq!(modular_multiplicative_inverse(-1), Some(-1));
    for a in -60..60i32 {
        if let Some(x) = modular_multiplicative_inverse(a) {
            assert_eq!((a * x).rem_euclid(26), 1);
            assert!((-13..=13).contains(&x));
        }
    }
}

#[test]
fn multipliers_that_share_a_factor_with_26_have_none() {
    for a in [0, 2, 4, 13, 26, 39, -2, -13, i32::MAX - 1, i32::MIN] {
        assert_eq!(modular_multiplicative_inverse(a), None);
    }
    assert_eq!(modular_multiplicative_inverse(3 * 26 + 5), Some(-5));
}

#[test]
fn decode_char_undoes_the_affine_map() {
    // key a = 5, b = 7: 't' is what 's' encodes to
    assert_eq!(decode_char('t', 21, 7), 's');
    assert_eq!(decode_char('t', -5, 7), 's');
    // E(x) = 5x + 7: 'a' -> 'h', 'z' -> 'c'
    assert_eq!(decode_char('h', 21, 7), 'a');
    assert_eq!(decode_char('c', 21, 7), 'z');
    assert_eq!(decode_char('a', 1, 0), 'a');
    assert_eq!(decode_char('a', 1, 1), 'z');
}

#[test]
fn decode_char_leaves_digits_alone() {
    for ch in ['0', '5', '9'] {
        assert_eq!(decode_char(ch, 21, 7), ch);
    }
    // no overflow at the ends of the range: 2147483647 * (1 + 2147483648) mod 26 is 3
    assert_eq!(decode_char('b', i32::MAX, i32::MIN), 'd');
}
