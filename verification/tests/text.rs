use chat_compressor::text::{chars_of, string_of, trim_chars};

#[test]
fn trim_matches_std() {
    for s in ["  a b  ", "\u{3000}x\u{85}", "", "   ", "\u{2028}\u{200b}y", "\u{1680}z\u{180e}"] {
        let v = chars_of(s);
        let t = trim_chars(&v);
        assert_eq!(string_of(&t), s.trim());
    }
}
