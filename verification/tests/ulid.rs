use misskey_id::error::{DecodeFailure, IdError};
use misskey_id::ulid::{gen_ulid, is_match, parse, SYMBOLS, TIME_SPAN};
use std::time::{Duration, UNIX_EPOCH};

#[test]
fn ulid_test_gen() {
    let generated = gen_ulid(1741525010000);
    println!("{}", generated);
    assert_eq!(generated.len(), 26);
}

#[test]
fn ulid_test_parse() {
    let generated = gen_ulid(1741535238126);
    let parsed = UNIX_EPOCH + Duration::from_millis(parse(&generated).unwrap());
    assert_eq!(parsed, UNIX_EPOCH + Duration::from_millis(1741535238126));
}

#[test]
fn ulid_round_trips_the_times_it_can_hold() {
    for time in [0, 1, 1741525010000, 1741535238126, TIME_SPAN - 1] {
        assert_eq!(parse(&gen_ulid(time)), Ok(time));
    }
}

#[test]
fn ulid_begins_with_the_time_in_base_32() {
    assert_eq!(&gen_ulid(1741525010000)[0..10], "01JNXFNHJG");
    assert_eq!(&gen_ulid(1741535238126)[0..10], "01JNXSDNZE");
    assert_eq!(&gen_ulid(TIME_SPAN - 1)[0..10], "7ZZZZZZZZZ");
    assert_eq!(gen_ulid(0), "00000000000000000000000001");
}

#[test]
fn ulid_is_made_of_the_thirty_two_symbols() {
    let pattern = regex::Regex::new(r"^[0-7][0-9A-HJKMNP-TV-Z]{25}$").unwrap();
    for time in [0, 1, 1741525010000, TIME_SPAN - 1, TIME_SPAN, u64::MAX] {
        let id = gen_ulid(time);
        assert!(pattern.is_match(&id), "{}", id);
        assert!(is_match(&id), "{}", id);
        assert!(id.chars().all(|c| SYMBOLS.contains(c)));
    }
}

#[test]
fn ulid_is_match_agrees_with_the_pattern() {
    let pattern = regex::Regex::new(r"^[0-7][0-9A-HJKMNP-TV-Z]{25}$").unwrap();
    for id in [
        "01JNXFNHJG0000000000000000",
        "7ZZZZZZZZZZZZZZZZZZZZZZZZZ",
        "8ZZZZZZZZZZZZZZZZZZZZZZZZZ",
        "ZZZZZZZZZZZZZZZZZZZZZZZZZZ",
        "01jnxfnhjg0000000000000000",
        "01JNXFNHJG000000000000000I",
        "01JNXFNHJG000000000000000L",
        "01JNXFNHJG000000000000000O",
        "01JNXFNHJG000000000000000U",
        "01JNXFNHJG000000000000000",
        "01JNXFNHJG00000000000000000",
        "01JNXFNHJG000000000000000\n",
        "",
    ] {
        assert_eq!(is_match(id), pattern.is_match(id), "{:?}", id);
    }
    for symbol in SYMBOLS.chars() {
        let id = format!("0{}", symbol.to_string().repeat(25));
        assert!(is_match(&id), "{}", id);
        assert!(pattern.is_match(&id), "{}", id);
    }
}

#[test]
fn ulid_takes_a_time_too_large_modulo_two_to_the_48() {
    assert_eq!(TIME_SPAN, 1 << 48);
    assert_eq!(parse(&gen_ulid(TIME_SPAN + 5)), Ok(5));
    assert_eq!(parse(&gen_ulid(u64::MAX)), Ok(TIME_SPAN - 1));
}

#[test]
fn ulid_sorts_by_time() {
    let times = [0, 1, 2, 1741525010000, 1741525010001, TIME_SPAN - 1];
    for pair in times.windows(2) {
        let a = gen_ulid(pair[0]);
        let b = gen_ulid(pair[1]);
        assert!(a < b, "{} < {}", a, b);
    }
}

#[test]
fn ulid_parse_reads_given_strings() {
    assert_eq!(parse("01JNXFNHJG0000000000000000"), Ok(1741525010000));
    assert_eq!(parse("01jnxfnhjgzzzzzzzzzzzzzzzz"), Ok(1741525010000));
    assert_eq!(parse("00000000000000000000000000"), Ok(0));
    assert_eq!(parse("7ZZZZZZZZZZZZZZZZZZZZZZZZZ"), Ok(TIME_SPAN - 1));
    assert_eq!(parse("ZZZZZZZZZZZZZZZZZZZZZZZZZZ"), Ok(TIME_SPAN - 1));
    assert_eq!(parse("80000000000000000000000000"), Ok(0));
}

#[test]
fn ulid_parse_passes_on_the_decoder_s_error() {
    assert_eq!(
        parse(""),
        Err(IdError::ExternalDecodeFailure(DecodeFailure::InvalidLength))
    );
    assert_eq!(
        parse("01JNXFNHJG000000000000000"),
        Err(IdError::ExternalDecodeFailure(DecodeFailure::InvalidLength))
    );
    assert_eq!(
        parse("01JNXFNHJG00000000000000000"),
        Err(IdError::ExternalDecodeFailure(DecodeFailure::InvalidLength))
    );
    assert_eq!(
        parse("01JNXFNHJG000000000000000U"),
        Err(IdError::ExternalDecodeFailure(DecodeFailure::InvalidChar))
    );
    assert_eq!(
        parse("01JNXFNHJG00000000000000IL"),
        Err(IdError::ExternalDecodeFailure(DecodeFailure::InvalidChar))
    );
    assert_eq!(
        parse("01JNXFNHJG000000000000000-"),
        Err(IdError::ExternalDecodeFailure(DecodeFailure::InvalidChar))
    );
    assert_eq!(
        parse("01JNXFNHJG00000000000000\u{e9}"),
        Err(IdError::ExternalDecodeFailure(DecodeFailure::InvalidChar))
    );
    assert_eq!(
        parse("01JNXFNHJG0000000000000\u{e9}\u{e9}\u{e9}"),
        Err(IdError::ExternalDecodeFailure(DecodeFailure::InvalidLength))
    );
}
