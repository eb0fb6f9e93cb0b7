use maritime_mesh::text::{
    first_piece, parse_u32, parse_u8, push_decimal, push_signed_padded, push_unsigned_padded,
    split_chars, str_chars, trim_chars,
};

fn c(s: &str) -> Vec<char> {
    s.chars().collect()
}

fn s(v: &[char]) -> String {
    v.iter().collect()
}

#[test]
fn parse_like_std() {
    for t in ["0", "255", "+7", "007", "256", "-1", "+", "", " 1", "1 ", "12a"] {
        assert_eq!(parse_u8(&c(t)), t.parse::<u8>().ok(), "{t:?}");
    }
    for t in ["4294967295", "4294967296", "0000000042", "+0", "99999999999"] {
        assert_eq!(parse_u32(&c(t)), t.parse::<u32>().ok(), "{t:?}");
    }
}

#[test]
fn trim_like_std() {
    for t in ["", "   ", " a b ", "\u{a0}x\u{2029}", "\u{200b}x", "x\r\n"] {
        assert_eq!(s(&trim_chars(&c(t))), t.trim(), "{t:?}");
    }
}

#[test]
fn split_like_std() {
    for t in ["", ",", "a,b,,c", ",x,", "abc"] {
        let parts: Vec<String> = split_chars(&c(t), ',').iter().map(|p| s(p)).collect();
        let want: Vec<String> = t.split(',').map(|p| p.to_string()).collect();
        assert_eq!(parts, want, "{t:?}");
    }
    assert_eq!(s(&first_piece(&c("12*34"), '*')), "12");
    assert_eq!(s(&first_piece(&c("1234"), '*')), "1234");
}

#[test]
fn decimal_formatting_like_std() {
    for n in [0u64, 9, 10, 12345, u64::MAX] {
        let mut v = Vec::new();
        push_decimal(&mut v, n);
        assert_eq!(s(&v), n.to_string());
        let mut v = Vec::new();
        push_unsigned_padded(&mut v, n, 12);
        assert_eq!(s(&v), format!("{n:012}"));
    }
    for n in [0i64, -1, 42, i64::MIN, i64::MAX] {
        let mut v = Vec::new();
        push_signed_padded(&mut v, n, 20);
        assert_eq!(s(&v), format!("{n:020}"));
        let mut v = Vec::new();
        push_signed_padded(&mut v, n, 0);
        assert_eq!(s(&v), format!("{n:00}"));
    }
    assert_eq!(str_chars("héllo"), c("héllo"));
}
