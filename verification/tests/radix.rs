use misskey_id::error::IdError;
use misskey_id::radix::radix_encode;

#[test]
fn test_radix_encode() {
    assert_eq!(radix_encode(0, 36).unwrap(), "0");
    assert_eq!(radix_encode(10, 2).unwrap(), "1010");
    assert_eq!(radix_encode(10, 8).unwrap(), "12");
    assert_eq!(radix_encode(10, 10).unwrap(), "10");
    assert_eq!(radix_encode(10, 16).unwrap(), "a");
    assert_eq!(radix_encode(1024, 36).unwrap(), "sg");
    assert_eq!(radix_encode(2000000, 36).unwrap(), "16v7k");

    assert!(radix_encode(10, 1).is_err());
    assert!(radix_encode(10, 37).is_err());
}

#[test]
fn test_radix_println() {
    println!("{}", radix_encode(1741519768780, 36).unwrap());
}

#[test]
fn radix_encode_rejects_every_radix_outside_2_to_36() {
    assert_eq!(radix_encode(10, 0), Err(IdError::InvalidRadix));
    assert_eq!(radix_encode(10, 1), Err(IdError::InvalidRadix));
    assert_eq!(radix_encode(0, 37), Err(IdError::InvalidRadix));
    assert_eq!(radix_encode(0, 1), Err(IdError::InvalidRadix));
    assert_eq!(radix_encode(10, u32::MAX), Err(IdError::InvalidRadix));
}

#[test]
fn radix_encode_writes_zero_as_0_in_every_radix() {
    for radix in 2..=36 {
        assert_eq!(radix_encode(0, radix).unwrap(), "0");
        assert_eq!(radix_encode(1, radix).unwrap(), "1");
        assert_eq!(radix_encode(radix as i64, radix).unwrap(), "10");
    }
}

#[test]
fn radix_encode_is_exact_up_to_the_largest_number() {
    assert_eq!(radix_encode(i64::MAX, 36).unwrap(), "1y2p0ij32e8e7");
    assert_eq!(radix_encode(i64::MAX, 16).unwrap(), "7fffffffffffffff");
    assert_eq!(radix_encode(i64::MAX, 2).unwrap(), "1".repeat(63));
    assert_eq!(radix_encode(35, 36).unwrap(), "z");
    assert_eq!(radix_encode(1741519768780, 36).unwrap(), "m81jwlos");
}

#[test]
fn radix_encode_agrees_with_reading_the_text_back() {
    for radix in 2..=36u32 {
        for num in [0i64, 1, 35, 36, 1295, 1296, 65535, 1741519768780, i64::MAX] {
            let text = radix_encode(num, radix).unwrap();
            assert_eq!(i64::from_str_radix(&text, radix).unwrap(), num);
            assert!(num == 0 || !text.starts_with('0'));
        }
    }
}
