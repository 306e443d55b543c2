use accept_encoding::cursor::{q_value, quoted_string, token, Cursor, ParseError};
use accept_encoding::lexer::{is_qdtext, is_quoted_pair_char, is_tchar};
use accept_encoding::q_value::QValue;

#[test]
fn test_cursor_primitives() {
    let input = b"gzip, br";
    let mut c = Cursor(0);
    assert!(!c.eof(input));
    assert_eq!(Some(b'g'), c.peek(input));
    c.advance(4);
    assert_eq!(Some(b','), c.peek(input));
    assert_eq!(&b"gzip"[..], Cursor(0).slice(input, c));
    c.advance(4);
    assert!(c.eof(input));
    assert_eq!(None, c.peek(input));
    assert_eq!(&b", br"[..], Cursor(4).slice(input, c));
}

#[test]
fn lexer2_test_is_tchar() {
    fn is_tchar_ref_impl(c: u8) -> bool {
        // token = 1*tchar
        // tchar = "!" / "#" / "$" / "%" / "&" / "'" / "*" / "+" / "-" / "." /
        //         "^" / "_" / "`" / "|" / "~" / DIGIT / ALPHA
        matches!(c, b'!'
            | b'#'
            | b'$'
            | b'%'
            | b'&'
            | b'\''
            | b'*'
            | b'+'
            | b'-'
            | b'.'
            | b'^'
            | b'_'
            | b'`'
            | b'|'
            | b'~'
            | b'0'..=b'9'
            | b'A'..=b'Z'
            | b'a'..=b'z')
    }

    for c in 0..=b'\xFF' {
        assert_eq!(is_tchar_ref_impl(c), is_tchar(c));
    }
}

#[test]
fn test_is_qdtext() {
    fn is_qdtext_ref_impl(c: u8) -> bool {
        // qdtext = HTAB / SP / "!" / %x23-5B ; '#'-'['
        //        / %x5D-7E ; ']'-'~'
        //        / obs-text
        // obs-text = %x80-FF
        matches!(c, b'\t' | b' ' | b'!' | 0x23..=0x5B | 0x5D..=0x7E | 0x80..=0xFF)
    }

    for c in 0..=b'\xFF' {
        assert_eq!(is_qdtext_ref_impl(c), is_qdtext(c));
    }
}

#[test]
fn test_is_quoted_pair_char() {
    fn is_quoted_pair_char_ref_impl(c: u8) -> bool {
        // quoted-pair = "\" ( HTAB / SP / VCHAR / obs-text )
        // VCHAR          =  %x21-7E
        //                ; visible (printing) characters
        // obs-text = %x80-FF
        matches!(c, b'\t' | b' ' | 0x21..=0x7E | 0x80..=0xFF)
    }

    for c in 0..=b'\xFF' {
        assert_eq!(is_quoted_pair_char_ref_impl(c), is_quoted_pair_char(c));
    }
}

#[test]
fn test_token() {
    {
        let input = b"gzip";
        let mut c = Cursor(0);
        assert_eq!(Ok(&b"gzip"[..]), token(input, &mut c));
        assert_eq!(Cursor(input.len()), c);
    }
    {
        let input = b"gzip, ";
        let mut c = Cursor(0);
        assert_eq!(Ok(&b"gzip"[..]), token(input, &mut c));
        assert_eq!(Cursor(4), c);
    }
    {
        let input = b"";
        let mut c = Cursor(0);
        assert_eq!(Err(ParseError), token(input, &mut c));
        assert_eq!(Cursor(0), c);
    }
}

#[test]
fn test_quoted_string() {
    {
        let input = br#""""#;
        let mut c = Cursor(0);
        assert_eq!(Ok(()), quoted_string(input, &mut c));
        assert_eq!(Cursor(input.len()), c);
    }
    {
        let input = br#""foo""#;
        let mut c = Cursor(0);
        assert_eq!(Ok(()), quoted_string(input, &mut c));
        assert_eq!(Cursor(input.len()), c);
    }
    {
        let input = br#""foo\\tbar""#;
        let mut c = Cursor(0);
        assert_eq!(Ok(()), quoted_string(input, &mut c));
        assert_eq!(Cursor(input.len()), c);
    }
    {
        let input = b"\"\\\"foo\\\"\"";
        let mut c = Cursor(0);
        assert_eq!(Ok(()), quoted_string(input, &mut c));
        assert_eq!(Cursor(input.len()), c);
    }
    {
        let input = b"\x00";
        let mut c = Cursor(0);
        assert_eq!(Err(ParseError), quoted_string(input, &mut c));
        assert_eq!(Cursor(0), c);
    }
    {
        let input = b"\"\\\x00";
        let mut c = Cursor(0);
        assert_eq!(Err(ParseError), quoted_string(input, &mut c));
        assert_eq!(Cursor(2), c);
    }
    {
        let input = b"";
        let mut c = Cursor(0);
        assert_eq!(Err(ParseError), quoted_string(input, &mut c));
        assert_eq!(Cursor(0), c);
    }
}

#[test]
fn lexer2_test_q_value() {
    {
        let input = b"0";
        let mut c = Cursor(0);
        assert_eq!(Ok(QValue::from_millis(0).unwrap()), q_value(input, &mut c));
        assert_eq!(Cursor(1), c);
    }
    {
        let input = b"0.";
        let mut c = Cursor(0);
        assert_eq!(Ok(QValue::from_millis(0).unwrap()), q_value(input, &mut c));
        assert_eq!(Cursor(2), c);
    }
    {
        let input = b"0.,";
        let mut c = Cursor(0);
        assert_eq!(Ok(QValue::from_millis(0).unwrap()), q_value(input, &mut c));
        assert_eq!(Cursor(2), c);
    }
    {
        let input = b"0.8";
        let mut c = Cursor(0);
        assert_eq!(
            Ok(QValue::from_millis(800).unwrap()),
            q_value(input, &mut c)
        );
        assert_eq!(Cursor(3), c);
    }
    {
        let input = b"0.8,";
        let mut c = Cursor(0);
        assert_eq!(
            Ok(QValue::from_millis(800).unwrap()),
            q_value(input, &mut c)
        );
        assert_eq!(Cursor(3), c);
    }
    {
        let input = b"0.1239";
        let mut c = Cursor(0);
        assert_eq!(
            Ok(QValue::from_millis(123).unwrap()),
            q_value(input, &mut c)
        );
        assert_eq!(Cursor(5), c);
    }
    {
        let input = b"1";
        let mut c = Cursor(0);
        assert_eq!(
            Ok(QValue::from_millis(1000).unwrap()),
            q_value(input, &mut c)
        );
        assert_eq!(Cursor(1), c);
    }
    {
        let input = b"1.";
        let mut c = Cursor(0);
        assert_eq!(
            Ok(QValue::from_millis(1000).unwrap()),
            q_value(input, &mut c)
        );
        assert_eq!(Cursor(2), c);
    }
    {
        let input = b"1.0";
        let mut c = Cursor(0);
        assert_eq!(
            Ok(QValue::from_millis(1000).unwrap()),
            q_value(input, &mut c)
        );
        assert_eq!(Cursor(3), c);
    }
    {
        let input = b"1.00";
        let mut c = Cursor(0);
        assert_eq!(
            Ok(QValue::from_millis(1000).unwrap()),
            q_value(input, &mut c)
        );
        assert_eq!(Cursor(4), c);
    }
    {
        let input = b"1.000";
        let mut c = Cursor(0);
        assert_eq!(
            Ok(QValue::from_millis(1000).unwrap()),
            q_value(input, &mut c)
        );
        assert_eq!(Cursor(5), c);
    }
    {
        let input = b"1.0000";
        let mut c = Cursor(0);
        assert_eq!(
            Ok(QValue::from_millis(1000).unwrap()),
            q_value(input, &mut c)
        );
        assert_eq!(Cursor(5), c);
    }
    {
        let input = b"1.1";
        let mut c = Cursor(0);
        assert_eq!(
            Ok(QValue::from_millis(1000).unwrap()),
            q_value(input, &mut c)
        );
        assert_eq!(Cursor(2), c);
    }
}
