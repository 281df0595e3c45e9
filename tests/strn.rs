use memestr::strn::StrN;

#[test]
fn strn_str() {
    assert_eq!("asdf", StrN::<23>::from_literal("asdf").to_text());
    assert_eq!("asdfa", StrN::<23>::from_literal("asdfa").to_text());
    assert_eq!("asdfasdf", StrN::<23>::from_literal("asdfasdf").to_text());
}

#[test]
fn strn_indexing() {
    let s0 = "abcdefgh";
    let s1 = StrN::<23>::from_literal("abcdefgh");
    for i in 0..8 {
        assert_eq!(s0.chars().nth(i).unwrap(), s1.index(i) as char);
    }
}

#[test]
fn strn_lowercase() {
    assert_eq!("asdf", StrN::<23>::from_literal("ASDF").to_ascii_lowercase().to_text());
    assert_eq!("asdfa", StrN::<23>::from_literal("ASDFA").to_ascii_lowercase().to_text());
    assert_eq!("asdfasdf", StrN::<23>::from_literal("ASDFASDF").to_ascii_lowercase().to_text());
}

#[test]
fn strn_uppercase() {
    assert_eq!("ASDF", StrN::<23>::from_literal("asdf").to_ascii_uppercase().to_text());
    assert_eq!("ASDFA", StrN::<23>::from_literal("asdfa").to_ascii_uppercase().to_text());
    assert_eq!("ASDFASDF", StrN::<23>::from_literal("asdfasdf").to_ascii_uppercase().to_text());
}
