use proxy_m365_write::auth::{authenticated, constant_time_eq};
use proxy_m365_write::text::{chars_of, is_white_space_char, trim_bounds};

#[test]
fn white_space_agrees_with_std() {
    for code in 0u32..=0x10FFFF {
        if let Some(c) = char::from_u32(code) {
            assert_eq!(is_white_space_char(c), c.is_whitespace(), "U+{code:04X}");
        }
    }
}

#[test]
fn trim_bounds_agree_with_str_trim() {
    for s in ["", "   ", " a ", "\u{3000}x y\u{2029}", "abc", "\t\r\n", " \u{85}é\u{a0}"] {
        let cs = chars_of(s);
        let (a, b) = trim_bounds(&cs, 0, cs.len());
        let trimmed: String = cs[a..b].iter().collect();
        assert_eq!(trimmed, s.trim());
    }
}

#[test]
fn constant_time_comparison() {
    assert!(constant_time_eq(b"", b""));
    assert!(constant_time_eq(b"abc", b"abc"));
    assert!(!constant_time_eq(b"abc", b"abd"));
    assert!(!constant_time_eq(b"abc", b"ab"));
    assert!(!constant_time_eq(b"", b"\0"));
    assert!(!constant_time_eq(b"ab\0", b"ab"));
}

fn digest(token: &[u8]) -> [u8; 32] {
    openssl::sha::sha256(token)
}

#[test]
fn bearer_is_checked_against_its_digest() {
    let expected = digest(b"write-secret");
    assert!(authenticated(Some(b"write-secret"), &expected));
    assert!(authenticated(Some(b" \twrite-secret  "), &expected));
    assert!(!authenticated(Some(b"write-secret2"), &expected));
    assert!(!authenticated(Some(b"Write-secret"), &expected));
    assert!(!authenticated(None, &expected));
}

#[test]
fn bearer_must_be_visible_ascii() {
    let expected = digest(b"write-secret");
    assert!(!authenticated(Some(b"write-secret\n"), &expected));
    assert!(!authenticated(Some(b"write-secret\x7f"), &expected));
    let with_utf8 = "s\u{e9}cret".as_bytes();
    assert!(!authenticated(Some(with_utf8), &digest(with_utf8)));
    // An empty bearer value hashes the empty token.
    assert!(authenticated(Some(b"   "), &digest(b"")));
}
