use misskey_id::aid::{TIME2000, TIME_SPAN};
use misskey_id::aidx::{gen_aidx, get_noise, get_time, is_match, parse, Generator};
use misskey_id::error::IdError;
use regex::Regex;
use std::collections::HashSet;
use std::time::{Duration, UNIX_EPOCH};

fn aidx_pattern() -> Regex {
    Regex::new(r"^[0-9a-z]{16}$").unwrap()
}

#[test]
fn test_gen_aidx() {
    let mut generator = Generator::new();
    let generated = gen_aidx(1741519768780, &mut generator).unwrap();
    println!("{}", generated);
    assert_eq!(generated.len(), 16);
    assert!(aidx_pattern().is_match(&generated));
}

#[test]
fn aidx_test_parse() {
    let mut generator = Generator::new();
    let generated = gen_aidx(1741519768780, &mut generator).unwrap();
    let parsed = UNIX_EPOCH + Duration::from_millis(parse(&generated).unwrap());
    assert_eq!(
        parsed.duration_since(UNIX_EPOCH).unwrap().as_millis(),
        1741519768780
    );
}

#[test]
fn aidx_node_tag_is_four_characters_of_the_alphabet() {
    let pattern = Regex::new(r"^[0-9a-z]{4}$").unwrap();
    for _ in 0..200 {
        let generator = Generator::new();
        assert_eq!(generator.count(), 0);
        assert!(pattern.is_match(generator.node_id()), "{}", generator.node_id());
    }
}

#[test]
fn aidx_node_tag_stays_with_the_generator() {
    let mut generator = Generator::new();
    let tag = generator.node_id().to_string();
    for call in 0..50u32 {
        let id = gen_aidx(1741519768780 + call as u64, &mut generator).unwrap();
        assert_eq!(&id[8..12], tag);
        assert_eq!(generator.node_id(), tag);
        assert_eq!(generator.count(), call + 1);
    }
}

#[test]
fn aidx_is_time_field_node_tag_counter_field() {
    let mut generator = Generator::with_node("ab12", 0).unwrap();
    assert_eq!(gen_aidx(1741519768780, &mut generator).unwrap(), "a5547v0sab120000");
    assert_eq!(gen_aidx(1741519768780, &mut generator).unwrap(), "a5547v0sab120001");
    let mut generator = Generator::with_node("ab12", 0xbeef).unwrap();
    assert_eq!(gen_aidx(TIME2000, &mut generator).unwrap(), "00000000ab12beef");
    assert_eq!(generator.count(), 0xbef0);
    assert_eq!(get_time(1741519768780), "a5547v0s");
}

#[test]
fn aidx_with_node_refuses_what_is_no_node_tag() {
    assert!(Generator::with_node("ab1", 0).is_none());
    assert!(Generator::with_node("ab123", 0).is_none());
    assert!(Generator::with_node("AB12", 0).is_none());
    assert!(Generator::with_node("ab-2", 0).is_none());
    assert!(Generator::with_node("", 0).is_none());
    assert!(Generator::with_node("zz09", 7).is_some());
}

#[test]
fn aidx_counter_field_of_ffff_and_beyond() {
    let mut generator = Generator::with_node("node", 0xffff).unwrap();
    assert_eq!(get_noise(&mut generator), "ffff");
    assert_eq!(generator.count(), 0x10000);
    let long = gen_aidx(1741519768780, &mut generator).unwrap();
    assert_eq!(long, "a5547v0snode10000");
    assert!(!is_match(&long));
    assert_eq!(parse(&long), Ok(1741519768780));
}

#[test]
fn aidx_counter_wraps_from_the_largest_to_0() {
    let mut generator = Generator::with_node("node", u32::MAX).unwrap();
    assert_eq!(get_noise(&mut generator), "ffffffff");
    assert_eq!(generator.count(), 0);
    assert_eq!(get_noise(&mut generator), "0000");
    assert_eq!(generator.count(), 1);
}

#[test]
fn aidx_calls_in_one_millisecond_are_distinct() {
    let mut generator = Generator::with_node("node", 0xff00).unwrap();
    let mut seen = HashSet::new();
    for _ in 0..100_000 {
        assert!(seen.insert(gen_aidx(1741519768780, &mut generator).unwrap()));
    }
}

#[test]
fn aidx_round_trips_and_sorts_by_time() {
    let mut first = Generator::with_node("zzzz", 0xffff).unwrap();
    let mut second = Generator::with_node("0000", 0).unwrap();
    let times = [
        TIME2000,
        TIME2000 + 1,
        1741519768780,
        1741519768781,
        TIME2000 + TIME_SPAN - 1,
    ];
    for pair in times.windows(2) {
        let a = gen_aidx(pair[0], &mut first).unwrap();
        let b = gen_aidx(pair[1], &mut second).unwrap();
        assert!(a < b, "{} < {}", a, b);
        assert_eq!(parse(&a), Ok(pair[0]));
        assert_eq!(parse(&b), Ok(pair[1]));
    }
}

#[test]
fn aidx_parse_refuses_malformed_time_fields() {
    assert_eq!(parse("a5547v0"), Err(IdError::MalformedTimeField));
    assert_eq!(parse("a5547v0Sab120000"), Err(IdError::MalformedTimeField));
    assert_eq!(parse("a5547v0s"), Ok(1741519768780));
}

#[test]
fn aidx_is_match_agrees_with_the_pattern() {
    let pattern = aidx_pattern();
    for id in [
        "a5547v0sab120000",
        "a5547v0sab12000",
        "a5547v0sab1200000",
        "a5547v0sAb120000",
        "a5547v0sab12000\n",
        "",
    ] {
        assert_eq!(is_match(id), pattern.is_match(id), "{:?}", id);
    }
}
