use misskey_id::error::IdError;
use misskey_id::meid::{gen, get_random, get_time, is_match, parse, with_noise, BIAS};
use regex::Regex;
use std::time::{Duration, UNIX_EPOCH};

fn meid_pattern() -> Regex {
    Regex::new(r"^[0-9a-f]{24}$").unwrap()
}

#[test]
fn meid_test_gen() {
    let generated = gen(1735889660414);
    println!("{}", generated);
    assert_eq!(generated.len(), 24);
    assert!(meid_pattern().is_match(&generated));
}

#[test]
fn meid_test_parse() {
    let generated = gen(1735889660414);
    let parsed = UNIX_EPOCH + Duration::from_millis(parse(&generated).unwrap());
    assert_eq!(
        parsed.duration_since(UNIX_EPOCH).unwrap().as_millis(),
        1735889660414
    );
}

#[test]
fn meid_time_field_is_the_biased_time_in_hex() {
    assert_eq!(BIAS, 1 << 47);
    assert_eq!(get_time(1735889660414), "81942b1629fe");
    assert_eq!(get_time(1), "800000000001");
    assert_eq!(get_time(BIAS - 1), "ffffffffffff");
    let generated = gen(1735889660414);
    assert_eq!(
        u64::from_str_radix(&generated[0..12], 16).unwrap() - BIAS,
        1735889660414
    );
}

#[test]
fn meid_with_noise_appends_the_random_part() {
    assert_eq!(
        with_noise(1735889660414, "c5c845bb697d"),
        "81942b1629fec5c845bb697d"
    );
    assert_eq!(parse("81942b1629fec5c845bb697d"), Ok(1735889660414));
}

#[test]
fn meid_random_part_is_twelve_hex_digits() {
    let pattern = Regex::new(r"^[0-9a-f]{12}$").unwrap();
    let mut distinct = std::collections::HashSet::new();
    for _ in 0..200 {
        let noise = get_random();
        assert!(pattern.is_match(&noise), "{}", noise);
        distinct.insert(noise);
    }
    assert!(distinct.len() > 1);
}

#[test]
fn meid_time_zero_is_a_single_character_and_is_not_read_back() {
    assert_eq!(get_time(0), "0");
    let id = gen(0);
    assert_eq!(id.len(), 13);
    assert!(!is_match(&id));
    assert_eq!(parse(&id), Err(IdError::ArithmeticUnderflow));
}

#[test]
fn meid_time_too_large_takes_more_characters() {
    assert_eq!(get_time(BIAS), "1000000000000");
    assert_eq!(get_time(u64::MAX), "100007fffffffffff");
    assert_eq!(gen(BIAS).len(), 25);
}

#[test]
fn meid_round_trips_and_sorts_by_time() {
    let times = [0, 1, 2, 1735889660414, 1735889660415, BIAS - 2, BIAS - 1];
    for pair in times.windows(2) {
        let a = with_noise(pair[0], "ffffffffffff");
        let b = with_noise(pair[1], "000000000000");
        assert!(a < b, "{} < {}", a, b);
        assert_eq!(parse(&b), Ok(pair[1]));
        let c = gen(pair[0]);
        let d = gen(pair[1]);
        assert!(c < d, "{} < {}", c, d);
    }
}

#[test]
fn meid_parse_refuses_malformed_time_fields() {
    assert_eq!(parse(""), Err(IdError::MalformedTimeField));
    assert_eq!(parse("81942b1629f"), Err(IdError::MalformedTimeField));
    assert_eq!(
        parse("81942B1629FEc5c845bb697d"),
        Err(IdError::MalformedTimeField)
    );
    assert_eq!(
        parse("81942b1629fgc5c845bb697d"),
        Err(IdError::MalformedTimeField)
    );
    assert_eq!(parse("81942b1629fe"), Ok(1735889660414));
    assert_eq!(parse("81942b1629fe, and more"), Ok(1735889660414));
}

#[test]
fn meid_parse_refuses_a_time_field_below_the_bias() {
    assert_eq!(
        parse("000000000000c5c845bb697d"),
        Err(IdError::ArithmeticUnderflow)
    );
    assert_eq!(
        parse("7fffffffffffc5c845bb697d"),
        Err(IdError::ArithmeticUnderflow)
    );
    assert_eq!(parse("800000000000c5c845bb697d"), Ok(0));
}

#[test]
fn meid_is_match_agrees_with_the_pattern() {
    let pattern = meid_pattern();
    for id in [
        "81942b1629fec5c845bb697d",
        "81942b1629fec5c845bb697",
        "81942b1629fec5c845bb697d0",
        "81942b1629fec5c845bb697g",
        "81942B1629FEC5C845BB697D",
        "",
    ] {
        assert_eq!(is_match(id), pattern.is_match(id), "{:?}", id);
    }
}
