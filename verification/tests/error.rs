use misskey_id::error::{DecodeFailure, IdError};

#[test]
fn every_error_says_what_failed() {
    assert_eq!(
        IdError::InvalidRadix.message(),
        "Radix must be between 2 and 36"
    );
    assert_eq!(
        IdError::MalformedTimeField.message(),
        "The time field is malformed"
    );
    assert_eq!(
        IdError::ArithmeticUnderflow.message(),
        "The time field lies before the epoch"
    );
}

#[test]
fn decode_failures_speak_as_the_decoder_does() {
    assert_eq!(
        IdError::ExternalDecodeFailure(DecodeFailure::InvalidLength).message(),
        ulid::DecodeError::InvalidLength.to_string()
    );
    assert_eq!(
        IdError::ExternalDecodeFailure(DecodeFailure::InvalidChar).message(),
        ulid::DecodeError::InvalidChar.to_string()
    );
}

#[test]
fn errors_of_parsing_carry_their_message() {
    assert_eq!(
        misskey_id::ulid::parse("not a ulid").unwrap_err().message(),
        "invalid length"
    );
    assert_eq!(
        misskey_id::radix::radix_encode(1, 64).unwrap_err().message(),
        "Radix must be between 2 and 36"
    );
}
