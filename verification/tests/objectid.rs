use misskey_id::error::IdError;
use misskey_id::objectid::{
    gen_object_id, get_random, get_time, is_match, parse_object_id, with_noise, SECONDS_SPAN,
};
use regex::Regex;

fn object_id_pattern() -> Regex {
    Regex::new(r"^[0-9a-f]{24}$").unwrap()
}

#[test]
fn objectid_test_gen() {
    let generated = gen_object_id(1741525010000);
    println!("{}", generated);
    assert_eq!(generated.len(), 24);
    assert!(object_id_pattern().is_match(&generated));
}

#[test]
fn objectid_test_parse() {}

#[test]
fn object_id_reads_back_the_start_of_the_second() {
    assert_eq!(parse_object_id(&gen_object_id(1741525010000)), Ok(1741525010000));
    assert_eq!(parse_object_id(&gen_object_id(1741525010500)), Ok(1741525010000));
    assert_eq!(parse_object_id(&gen_object_id(1741525010999)), Ok(1741525010000));
    assert_eq!(parse_object_id(&gen_object_id(999)), Ok(0));
}

#[test]
fn object_id_time_field_is_the_seconds_in_hex() {
    assert_eq!(get_time(1741525010000), "67cd9012");
    assert_eq!(get_time(1741525010500), "67cd9012");
    assert_eq!(get_time(0), "00000000");
    assert_eq!(get_time(1000), "00000001");
    assert_eq!(get_time(SECONDS_SPAN * 1000 - 1), "ffffffff");
    assert_eq!(
        with_noise(1741525010000, "0123456789abcdef"),
        "67cd90120123456789abcdef"
    );
}

#[test]
fn object_id_time_too_large_takes_more_characters() {
    assert_eq!(SECONDS_SPAN, 1 << 32);
    assert_eq!(get_time(SECONDS_SPAN * 1000), "100000000");
    assert_eq!(gen_object_id(SECONDS_SPAN * 1000).len(), 25);
}

#[test]
fn object_id_random_part_is_sixteen_hex_digits() {
    let pattern = Regex::new(r"^[0-9a-f]{16}$").unwrap();
    let mut distinct = std::collections::HashSet::new();
    for _ in 0..200 {
        let noise = get_random();
        assert!(pattern.is_match(&noise), "{}", noise);
        distinct.insert(noise);
    }
    assert!(distinct.len() > 1);
}

#[test]
fn object_id_sorts_by_second() {
    let times = [0, 1000, 1999, 2000, 1741525010000, 1741525011000, SECONDS_SPAN * 1000 - 1];
    for pair in times.windows(2) {
        if pair[0] / 1000 < pair[1] / 1000 {
            let a = with_noise(pair[0], "ffffffffffffffff");
            let b = with_noise(pair[1], "0000000000000000");
            assert!(a < b, "{} < {}", a, b);
            let c = gen_object_id(pair[0]);
            let d = gen_object_id(pair[1]);
            assert!(c < d, "{} < {}", c, d);
        }
    }
}

#[test]
fn object_id_parse_refuses_malformed_time_fields() {
    assert_eq!(parse_object_id(""), Err(IdError::MalformedTimeField));
    assert_eq!(parse_object_id("67cd901"), Err(IdError::MalformedTimeField));
    assert_eq!(
        parse_object_id("67CD90120123456789abcdef"),
        Err(IdError::MalformedTimeField)
    );
    assert_eq!(
        parse_object_id("67cd901g0123456789abcdef"),
        Err(IdError::MalformedTimeField)
    );
    assert_eq!(parse_object_id("67cd9012"), Ok(1741525010000));
    assert_eq!(parse_object_id("ffffffff"), Ok((SECONDS_SPAN - 1) * 1000));
}

#[test]
fn object_id_is_match_agrees_with_the_pattern() {
    let pattern = object_id_pattern();
    for id in [
        "67cd90120123456789abcdef",
        "67cd90120123456789abcde",
        "67cd90120123456789abcdef0",
        "67cd90120123456789abcdeg",
        "",
    ] {
        assert_eq!(is_match(id), pattern.is_match(id), "{:?}", id);
    }
}
