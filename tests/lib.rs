use memestr::Str;

#[test]
fn lib_str() {
    assert_eq!("asdf", Str::from_literal("asdf").to_text());
    assert_eq!("asdfasdf", Str::from_literal("asdfasdf").to_text());
    assert_eq!("asdfasdfasdfasdf", Str::from_literal("asdfasdfasdfasdf").to_text());
    assert_eq!("asdfasdfasdfasdfa", Str::from_literal("asdfasdfasdfasdfa").to_text());
    assert_eq!("asdfasdfasdfasdfab", Str::from_literal("asdfasdfasdfasdfab").to_text());
    assert_eq!(
        "asdfasdfasdfasdfasdfasdfasdfasdf",
        Str::from_literal("asdfasdfasdfasdfasdfasdfasdfasdf").to_text()
    );
}

#[test]
fn lib_indexing() {
    let s0 = "abcdefghijklmnopqrstuvwxyz012345";
    let s1 = Str::from_literal("abcdefghijklmnopqrstuvwxyz012345");
    for i in 0..32 {
        assert_eq!(s0.chars().nth(i).unwrap(), s1.index(i));
    }
}

#[test]
fn lib_lowercase() {
    assert_eq!("asdf", Str::from_literal("ASDF").to_ascii_lowercase().to_text());
    assert_eq!("asdfasdf", Str::from_literal("ASDFASDF").to_ascii_lowercase().to_text());
    assert_eq!("asdfasdfasdfasdf", Str::from_literal("ASDFASDFASDFASDF").to_ascii_lowercase().to_text());
    assert_eq!("asdfasdfasdfasdfa", Str::from_literal("ASDFASDFASDFASDFA").to_ascii_lowercase().to_text());
    assert_eq!(
        "asdfasdfasdfasdfab",
        Str::from_literal("ASDFASDFASDFASDFAB").to_ascii_lowercase().to_text()
    );
    assert_eq!(
        "asdfasdfasdfasdfasdfasdfasdfasdf",
        Str::from_literal("ASDFASDFASDFASDFASDFASDFASDFASDF").to_ascii_lowercase().to_text()
    );
}

#[test]
fn lib_uppercase() {
    assert_eq!("ASDF", Str::from_literal("asdf").to_ascii_uppercase().to_text());
    assert_eq!("ASDFASDF", Str::from_literal("asdfasdf").to_ascii_uppercase().to_text());
    assert_eq!("ASDFASDFASDFASDF", Str::from_literal("asdfasdfasdfasdf").to_ascii_uppercase().to_text());
    assert_eq!("ASDFASDFASDFASDFA", Str::from_literal("asdfasdfasdfasdfa").to_ascii_uppercase().to_text());
    assert_eq!(
        "ASDFASDFASDFASDFAB",
        Str::from_literal("asdfasdfasdfasdfab").to_ascii_uppercase().to_text()
    );
    assert_eq!(
        "ASDFASDFASDFASDFASDFASDFASDFASDF",
        Str::from_literal("asdfasdfasdfasdfasdfasdfasdfasdf").to_ascii_uppercase().to_text()
    );
}
