use libjail::errors::ConvertError;

#[test]
fn conversion_failures_describe_themselves() {
    assert_eq!(ConvertError::NulError.describe(), "interior NUL byte in text");
    assert_eq!(ConvertError::IntoStringError.describe(), "buffer is not valid text");
    assert_eq!(
        ConvertError::ParseIntError.describe(),
        "size string is not an unsigned integer"
    );
}
