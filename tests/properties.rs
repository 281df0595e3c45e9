use memestr::strn::StrN;
use memestr::{Str, Str16, Str24, Str32, Str8, TooLong};

fn too_long(input: &[u8], capacity: usize) -> TooLong {
    TooLong { input: input.to_vec(), capacity }
}

#[test]
fn round_trip_every_type() {
    for t in ["", "a", "abc", "héllo", "abcdefgh"] {
        assert_eq!(t, Str8::from_text(t).unwrap().to_text());
    }
    for t in ["", "x", "abcdefghijklmnop", "ünïcödé"] {
        assert_eq!(t, Str16::from_text(t).unwrap().to_text());
    }
    for t in ["", "short", "abcdefghijklmnopqrs", "abcdefghijklmnopqrstuvwx"] {
        assert_eq!(t, Str24::from_text(t).unwrap().to_text());
        assert_eq!(t, Str32::from_text(t).unwrap().to_text());
        assert_eq!(t, Str::from_text(t).unwrap().to_text());
        assert_eq!(t, StrN::<24>::from_text(t).unwrap().to_text());
    }
    let full = "abcdefghijklmnopqrstuvwxyz012345";
    assert_eq!(full, Str32::from_text(full).unwrap().to_text());
    assert_eq!(full, Str::from_text(full).unwrap().to_text());
}

#[test]
fn case_conversion_is_idempotent() {
    let w = Str8::from_literal("MiXeD1!");
    assert_eq!(w.to_ascii_lowercase().to_ascii_lowercase(), w.to_ascii_lowercase());
    assert_eq!(w.to_ascii_uppercase().to_ascii_uppercase(), w.to_ascii_uppercase());
    let w = Str16::from_literal("Hello, World!");
    assert_eq!(w.to_ascii_lowercase().to_ascii_lowercase(), w.to_ascii_lowercase());
    assert_eq!(w.to_ascii_uppercase().to_ascii_uppercase(), w.to_ascii_uppercase());
    let n = StrN::<5>::from_literal("AbCdE");
    assert_eq!(n.to_ascii_lowercase().to_ascii_lowercase(), n.to_ascii_lowercase());
    assert_eq!(n.to_ascii_uppercase().to_ascii_uppercase(), n.to_ascii_uppercase());
}

#[test]
fn word_case_conversion_matches_bytewise_for_every_byte_and_lane() {
    for lane in 0..8 {
        for b in 0..=255u8 {
            let mut bytes = [0x5Au8, 0x61, 0x40, 0x7B, 0xC1, 0x41, 0x60, 0xFF];
            bytes[lane] = b;
            let w = Str8::from_bytes(bytes);
            let lower = w.to_ascii_lowercase();
            let upper = w.to_ascii_uppercase();
            for i in 0..8 {
                assert_eq!(lower.index(i) as u8, bytes[i].to_ascii_lowercase());
                assert_eq!(upper.index(i) as u8, bytes[i].to_ascii_uppercase());
            }
        }
    }
    for lane in 0..16 {
        for b in 0..=255u8 {
            let mut bytes = [0u8; 16];
            for (i, v) in bytes.iter_mut().enumerate() {
                *v = (i as u8).wrapping_mul(37).wrapping_add(0x3B);
            }
            bytes[lane] = b;
            let w = Str16::from_bytes(bytes);
            let lower = w.to_ascii_lowercase();
            let upper = w.to_ascii_uppercase();
            for i in 0..16 {
                assert_eq!(lower.index(i) as u8, bytes[i].to_ascii_lowercase());
                assert_eq!(upper.index(i) as u8, bytes[i].to_ascii_uppercase());
            }
        }
    }
}

#[test]
fn non_ascii_bytes_do_not_disturb_their_neighbours() {
    let w = Str8::from_bytes([0xC1, b'@', 0xE0, b'Z', 0xFF, b'[', 0x80, b'`']);
    let lower = w.to_ascii_lowercase();
    assert_eq!(lower.index(1), '@');
    assert_eq!(lower.index(3), 'z');
    assert_eq!(lower.index(5), '[');
    assert_eq!(lower.index(0) as u8, 0xC1);
    let upper = w.to_ascii_uppercase();
    assert_eq!(upper.index(7), '`');
    assert_eq!(upper.index(3), 'Z');
}

#[test]
fn overflow_is_rejected() {
    assert_eq!(Str8::from_text("abcdefghi"), Err(too_long(b"abcdefghi", 8)));
    assert_eq!(
        Str16::from_text("abcdefghijklmnopq"),
        Err(too_long(b"abcdefghijklmnopq", 16))
    );
    assert_eq!(StrN::<3>::from_bytes(b"abcd"), Err(too_long(b"abcd", 3)));
    assert_eq!(StrN::<3>::from_text("abcd"), Err(too_long(b"abcd", 3)));
    assert!(Str8::from_text("abcdefgh").is_ok());
}

#[test]
fn composite_overflow_carries_the_remainder() {
    let t = "abcdefghijklmnopqrstuvwxyz";
    assert_eq!(Str24::from_text(t), Err(too_long(b"qrstuvwxyz", 8)));
    let t = "abcdefghijklmnopqrstuvwxyz0123456";
    assert_eq!(Str32::from_text(t), Err(too_long(b"qrstuvwxyz0123456", 16)));
    assert_eq!(Str::from_text(t), Err(too_long(b"qrstuvwxyz0123456", 16)));
}

#[test]
fn prefix_semantics() {
    let ab = Str8::from_text("ab").unwrap();
    let abc = Str8::from_text("abc").unwrap();
    assert!(ab.starts_with(ab));
    assert!(abc.starts_with(ab));
    assert!(!ab.starts_with(abc));
    assert!(Str8::empty().starts_with(Str8::empty()));
    assert!(ab.starts_with(Str8::empty()));
    assert!(!ab.starts_with(Str8::from_text("b").unwrap()));

    let long = Str24::from_text("abcdefghijklmnopqrs").unwrap();
    assert!(long.starts_with(Str24::from_text("abcdefghijklmnopq").unwrap()));
    assert!(!long.starts_with(Str24::from_text("abcdefghijklmnopqx").unwrap()));
    assert!(Str32::empty().starts_with(Str32::empty()));
    assert!(Str16::from_text("abc").unwrap().starts_with(Str16::from_text("ab").unwrap()));

    let n_ab = StrN::<6>::from_text("ab").unwrap();
    let n_abc = StrN::<6>::from_text("abc").unwrap();
    assert!(n_abc.starts_with(n_ab));
    assert!(!n_ab.starts_with(n_abc));
    assert!(n_abc.starts_with_const(n_ab));
    assert!(StrN::<6>::empty().starts_with(StrN::<6>::empty()));
}

#[test]
fn composite_split_of_nineteen_characters() {
    let t = "abcdefghijklmnopqrs";
    let v = Str24::from_text(t).unwrap();
    assert_eq!(v.0.to_text(), "abcdefghijklmnop");
    assert_eq!(v.1.to_text(), "qrs");
    assert_eq!(v.to_text(), t);
    assert_eq!(Str24::from_literal(t), v);
}

#[test]
fn end_to_end_case_conversion() {
    let w = Str8::from_text("ABCDEFGH").unwrap().to_ascii_lowercase();
    assert_eq!(w.to_text(), "abcdefgh");
    let w = Str8::from_text("Ab3D").unwrap().to_ascii_uppercase();
    assert_eq!(w.to_text(), "AB3D");
}

#[test]
fn emptiness_and_capacity() {
    assert!(Str8::empty().is_empty());
    assert!(!Str8::from_literal("a").is_empty());
    assert!(Str16::empty().is_empty());
    assert!(Str24::empty().is_empty());
    assert!(!Str24::from_literal("abcdefghijklmnopq").is_empty());
    assert!(Str32::empty().is_empty());
    assert!(Str::empty().is_empty());
    assert!(StrN::<4>::empty().is_empty());
    assert!(StrN::<0>::empty().is_empty());
    assert!(!StrN::<4>::from_literal("x").is_empty());
    assert_eq!(Str8::max_size(), 8);
    assert_eq!(Str16::max_size(), 16);
    assert_eq!(Str24::max_size(), 24);
    assert_eq!(Str32::max_size(), 32);
    assert_eq!(Str::max_size(), 32);
    assert_eq!(StrN::<23>::max_size(), 23);
    assert_eq!(Str8::empty(), Str8::default());
    assert_eq!(StrN::<7>::empty(), StrN::<7>::default());
}

#[test]
fn bytes_after_the_text_read_as_zero() {
    let w = Str16::from_literal("abc");
    assert_eq!(w.index(2), 'c');
    assert_eq!(w.index(3), '\0');
    assert_eq!(w.index(15), '\0');
    let n = StrN::<5>::from_literal("ab");
    assert_eq!(n.index(1), b'b');
    assert_eq!(n.index(4), 0);
}

#[test]
fn generic_buffer_accessors() {
    let n = StrN::<8>::from_literal("hello");
    assert!(n.contains_ascii(b'l'));
    assert!(!n.contains_ascii(b'z'));
    assert!(!n.contains_ascii(0));
    assert_eq!(n.as_str(), "hello");
    assert_eq!(n.to_vec(), b"hello".to_vec());
    let arr = StrN::<3>::from_array(*b"a\0c");
    assert_eq!(arr.to_vec(), b"a".to_vec());
    assert!(!arr.contains_ascii(b'c'));
    assert_eq!(arr.index(2), b'c');
    assert_eq!(StrN::<4>::from_bytes(&[0xE2, 0x82, 0xAC]).unwrap().as_str(), "€");
}

#[test]
fn invalid_utf8_decodes_with_replacement() {
    let w = Str8::from_bytes([0xFF, b'a', 0, 0, 0, 0, 0, 0]);
    assert_eq!(w.to_text(), "\u{FFFD}a");
    let n = StrN::<2>::from_bytes(&[b'x', 0xC3]).unwrap();
    assert_eq!(n.to_text(), "x\u{FFFD}");
}

#[test]
fn parsing_goes_through_the_runtime_constructor() {
    let w: Str8 = "key".parse().unwrap();
    assert_eq!(w, Str8::from_literal("key"));
    let c: Str24 = "abcdefghijklmnopqrs".parse().unwrap();
    assert_eq!(c.to_text(), "abcdefghijklmnopqrs");
    let n: StrN<4> = "four".parse().unwrap();
    assert_eq!(n.as_str(), "four");
    assert!("toolong".parse::<StrN<4>>().is_err());
    assert!("abcdefghijklmnopqrstuvwxyz0123456".parse::<Str32>().is_err());
    assert!("abcdefghijklmnopqrstuvwxyz0123456".parse::<Str>().is_err());
    assert!("abcdefghijklmnopq".parse::<Str16>().is_err());
}

#[test]
fn ordering_follows_the_representation() {
    // The packed word compares its last byte first.
    assert!(Str8::from_literal("ab") > Str8::from_literal("ba"));
    // The byte array compares byte positions in order.
    assert!(StrN::<4>::from_literal("ab") < StrN::<4>::from_literal("ba"));
}

#[test]
fn composite_split_inside_a_character_decodes_part_by_part() {
    let t = "aaaaaaaaaaaaaaaé";
    let v = Str24::from_text(t).unwrap();
    assert_eq!(v.0.to_text(), "aaaaaaaaaaaaaaa\u{FFFD}");
    assert_eq!(v.1.to_text(), "\u{FFFD}");
    assert_eq!(v.to_text(), "aaaaaaaaaaaaaaa\u{FFFD}\u{FFFD}");
}

#[test]
fn generic_buffer_exposes_all_its_bytes() {
    let n = StrN::<4>::from_literal("ab");
    let all: &[u8] = n.as_ref();
    assert_eq!(all, &[b'a', b'b', 0, 0]);
}
