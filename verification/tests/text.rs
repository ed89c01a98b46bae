use binder::text::trim_chars;

#[test]
fn trimming_removes_exactly_unicode_white_space() {
    for code in 0u32..0x11_0000 {
        if let Some(c) = char::from_u32(code) {
            assert_eq!(trim_chars(&[c]).is_empty(), c.is_whitespace(), "U+{code:04X}");
        }
    }
}
