use accept_encoding::byte_slice::bytes_eq_ignore_case;
use accept_encoding::lexer::{comma, double_quoted_string, ows, q_value, token, LexerToken};
use accept_encoding::q_value::QValue;

#[test]
fn finder_test_bytes_eq_ignore_case() {
    assert!(bytes_eq_ignore_case(b"gzip", b"gzip"));
    assert!(bytes_eq_ignore_case(b"gzip", b"GZip"));
    assert!(bytes_eq_ignore_case(b"bzip2", b"bziP2"));

    assert!(!bytes_eq_ignore_case(b"gzip", b"zip"));
    assert!(!bytes_eq_ignore_case(b"gzip", b"gzi2"));
}

#[test]
fn finder_test_ows() {
    {
        let input = b" \tfoo";
        let pos = ows(input, 0);
        assert_eq!(2, pos);
    }
    {
        let input = b"foo";
        let pos = ows(input, 0);
        assert_eq!(0, pos);
    }
}

#[test]
fn finder_test_comma() {
    {
        let (pos, t) = comma(b",", 0);
        assert_eq!(Some(LexerToken::Comma), t);
        assert_eq!(1, pos);
    }
    {
        let (pos, t) = comma(b"a", 0);
        assert_eq!(None, t);
        assert_eq!(0, pos);
    }
}

#[test]
fn finder_test_token_or_value() {
    {
        let (pos, t) = token(b"foo,", 0);
        assert_eq!(Some(LexerToken::Token(b"foo")), t);
        assert_eq!(3, pos);
    }
    {
        let (pos, t) = token(b",", 0);
        assert_eq!(None, t);
        assert_eq!(0, pos);
    }
}

#[test]
fn finder_test_double_quoted_string() {
    {
        let expected = b"\"a, b\"";
        let (pos, t) = double_quoted_string(b"\"a, b\" , c", 0);
        assert_eq!(Some(LexerToken::DoubleQuotedString(expected)), t);
        assert_eq!(expected.len(), pos);
    }
    {
        let (pos, t) = double_quoted_string(b",", 0);
        assert_eq!(None, t);
        assert_eq!(0, pos);
    }
    {
        // unclosed string
        let (pos, t) = double_quoted_string(b"\"", 0);
        assert_eq!(None, t);
        assert_eq!(0, pos);
    }
}

#[test]
fn finder_test_q_value() {
    {
        let (pos, t) = q_value(b"1", 0);
        assert_eq!(Some(LexerToken::QValue(QValue::from_millis(1000).unwrap())), t);
        assert_eq!(1, pos);
    }
    {
        let (pos, t) = q_value(b"1.", 0);
        assert_eq!(Some(LexerToken::QValue(QValue::from_millis(1000).unwrap())), t);
        assert_eq!(2, pos);
    }
    {
        let (pos, t) = q_value(b"1.0", 0);
        assert_eq!(Some(LexerToken::QValue(QValue::from_millis(1000).unwrap())), t);
        assert_eq!(3, pos);
    }
    {
        let (pos, t) = q_value(b"1.01", 0);
        assert_eq!(Some(LexerToken::QValue(QValue::from_millis(1000).unwrap())), t);
        assert_eq!(3, pos);
    }
    {
        let (pos, t) = q_value(b"1.000", 0);
        assert_eq!(Some(LexerToken::QValue(QValue::from_millis(1000).unwrap())), t);
        assert_eq!(5, pos);
    }
    {
        let (pos, t) = q_value(b"1.0000", 0);
        assert_eq!(Some(LexerToken::QValue(QValue::from_millis(1000).unwrap())), t);
        assert_eq!(5, pos);
    }
    {
        let (pos, t) = q_value(b"0", 0);
        assert_eq!(Some(LexerToken::QValue(QValue::from_millis(0).unwrap())), t);
        assert_eq!(1, pos);
    }
    {
        let (pos, t) = q_value(b"0.", 0);
        assert_eq!(Some(LexerToken::QValue(QValue::from_millis(0).unwrap())), t);
        assert_eq!(2, pos);
    }
    {
        let (pos, t) = q_value(b"0.8", 0);
        assert_eq!(Some(LexerToken::QValue(QValue::from_millis(800).unwrap())), t);
        assert_eq!(3, pos);
    }
    {
        let (pos, t) = q_value(b"0.82", 0);
        assert_eq!(Some(LexerToken::QValue(QValue::from_millis(820).unwrap())), t);
        assert_eq!(4, pos);
    }
    {
        let (pos, t) = q_value(b"0.8235", 0);
        assert_eq!(Some(LexerToken::QValue(QValue::from_millis(823).unwrap())), t);
        assert_eq!(5, pos);
    }
}
