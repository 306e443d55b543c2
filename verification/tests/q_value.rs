use accept_encoding::q_value::{InvaliQValueError, QValue};

#[test]
fn test_qvalue_from_byte_slice() {
    assert_eq!(Ok(QValue { millis: 0 }), QValue::try_from("0"));
    assert_eq!(Ok(QValue { millis: 0 }), QValue::try_from("0."));
    assert_eq!(Ok(QValue { millis: 100 }), QValue::try_from("0.1"));
    assert_eq!(Ok(QValue { millis: 120 }), QValue::try_from("0.12"));
    assert_eq!(Ok(QValue { millis: 123 }), QValue::try_from("0.123"));
    assert_eq!(Err(InvaliQValueError), QValue::try_from("0.1235"));

    assert_eq!(Ok(QValue { millis: 1000 }), QValue::try_from("1"));
    assert_eq!(Ok(QValue { millis: 1000 }), QValue::try_from("1."));
    assert_eq!(Ok(QValue { millis: 1000 }), QValue::try_from("1.0"));
    assert_eq!(Ok(QValue { millis: 1000 }), QValue::try_from("1.00"));
    assert_eq!(Ok(QValue { millis: 1000 }), QValue::try_from("1.000"));
    assert_eq!(Err(InvaliQValueError), QValue::try_from("1.0000"));
    assert_eq!(Err(InvaliQValueError), QValue::try_from("1.1"));

    assert_eq!(Err(InvaliQValueError), QValue::try_from("-0"));
    assert_eq!(Err(InvaliQValueError), QValue::try_from("0.a"));
}

#[test]
fn test_qvalue_from_millis() {
    assert_eq!(QValue { millis: 100 }, QValue::from_millis(100).unwrap());
    assert_eq!(Err(InvaliQValueError), QValue::from_millis(1001));
}

#[test]
#[allow(clippy::clone_on_copy)]
fn test_qvalue_derive() {
    assert!(QValue::from_millis(100).unwrap() < QValue::from_millis(200).unwrap().clone());
}

#[test]
fn test_qvalue_format_debug() {
    assert_eq!(
        "QValue { millis: 100 }".to_string(),
        format!("{:?}", QValue::from_millis(100).unwrap())
    )
}

#[test]
fn test_qvalue_invalid_error_format_debug() {
    assert_eq!(
        "InvaliQValueError".to_string(),
        format!("{:?}", InvaliQValueError)
    )
}
