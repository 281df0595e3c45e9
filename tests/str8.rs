use memestr::Str8;

#[test]
fn str8_str() {
    assert_eq!("asdf", Str8::from_literal("asdf").to_text());
    assert_eq!("asdfa", Str8::from_literal("asdfa").to_text());
    assert_eq!("asdfasdf", Str8::from_literal("asdfasdf").to_text());
}

#[test]
fn str8_indexing() {
    let s0 = "abcdefgh";
    let s1 = Str8::from_literal("abcdefgh");
    for i in 0..8 {
        assert_eq!(s0.chars().nth(i).unwrap(), s1.index(i));
    }
}

#[test]
fn str8_lowercase() {
    assert_eq!("asdf", Str8::from_literal("ASDF").to_ascii_lowercase().to_text());
    assert_eq!("asdfa", Str8::from_literal("ASDFA").to_ascii_lowercase().to_text());
    assert_eq!("asdfasdf", Str8::from_literal("ASDFASDF").to_ascii_lowercase().to_text());
}

#[test]
fn str8_uppercase() {
    assert_eq!("ASDF", Str8::from_literal("asdf").to_ascii_uppercase().to_text());
    assert_eq!("ASDFA", Str8::from_literal("asdfa").to_ascii_uppercase().to_text());
    assert_eq!("ASDFASDF", Str8::from_literal("asdfasdf").to_ascii_uppercase().to_text());
}
