use memestr::Str16;

#[test]
fn str16_str() {
    assert_eq!("asdf", Str16::from_literal("asdf").to_text());
    assert_eq!("asdfasdf", Str16::from_literal("asdfasdf").to_text());
    assert_eq!("asdfasdfasdfasd", Str16::from_literal("asdfasdfasdfasd").to_text());
    assert_eq!("asdfasdfasdfasdf", Str16::from_literal("asdfasdfasdfasdf").to_text());
    assert_eq!("asdfasdfasdfasdf", Str16::from_literal("asdfasdfasdfasdf").to_text());
}

#[test]
fn str16_indexing() {
    let s0 = "abcdefghijklmnop";
    let s1 = Str16::from_literal("abcdefghijklmnop");
    for i in 0..16 {
        assert_eq!(s0.chars().nth(i).unwrap(), s1.index(i));
    }
}

#[test]
fn str16_lowercase() {
    assert_eq!("asdf", Str16::from_literal("ASDF").to_ascii_lowercase().to_text());
    assert_eq!("asdfasdf", Str16::from_literal("ASDFASDF").to_ascii_lowercase().to_text());
    assert_eq!("asdfasdfasdfasd", Str16::from_literal("ASDFASDFASDFASD").to_ascii_lowercase().to_text());
    assert_eq!("asdfasdfasdfasdf", Str16::from_literal("ASDFASDFASDFASDF").to_ascii_lowercase().to_text());
    assert_eq!("asdfasdfasdfasdf", Str16::from_literal("ASDFASDFASDFASDF").to_ascii_lowercase().to_text());
}

#[test]
fn str16_uppercase() {
    assert_eq!("ASDF", Str16::from_literal("asdf").to_ascii_uppercase().to_text());
    assert_eq!("ASDFASDF", Str16::from_literal("asdfasdf").to_ascii_uppercase().to_text());
    assert_eq!("ASDFASDFASDFAS", Str16::from_literal("asdfasdfasdfas").to_ascii_uppercase().to_text());
    assert_eq!("ASDFASDFASDFASD", Str16::from_literal("asdfasdfasdfasd").to_ascii_uppercase().to_text());
    assert_eq!("ASDFASDFASDFASDF", Str16::from_literal("asdfasdfasdfasdf").to_ascii_uppercase().to_text());
}
