use radiolog::decode::{decode_record, get_data, parse_data, parse_numeric_data, StreamError,
    FIELD_COUNT};
use radiolog::hexcode::hex_decode;

#[test]
fn hex_decode_maps_digit_pairs_to_bytes() {
    let token: Vec<char> = "00ff10Ab".chars().collect();
    assert_eq!(hex_decode(&token), Some(vec![0x00, 0xFF, 0x10, 0xAB]));
    let empty: Vec<char> = Vec::new();
    assert_eq!(hex_decode(&empty), Some(Vec::new()));
    let odd: Vec<char> = "4".chars().collect();
    assert_eq!(hex_decode(&odd), None);
    let bad: Vec<char> = "4G".chars().collect();
    assert_eq!(hex_decode(&bad), None);
}

#[test]
fn hello_scenario() {
    let payload = get_data("radio_rx 48656C6C6F".to_string()).unwrap();
    assert_eq!(payload, "Hello");
    let record = parse_data(payload).unwrap();
    let expected: Vec<String> =
        vec!["Hello", "", "", "", "", "", "", "", "", "", ""].into_iter().map(String::from).collect();
    assert_eq!(record, expected);
}

#[test]
fn hello_scenario_through_decode_record() {
    let record = decode_record("radio_rx 48656C6C6F".to_string()).unwrap();
    assert_eq!(record.len(), FIELD_COUNT);
    assert_eq!(record[0], "Hello");
    for field in &record[1..] {
        assert_eq!(field, "");
    }
}

#[test]
fn lower_and_mixed_case_hex_decode_alike() {
    assert_eq!(get_data("radio_rx 48656c6c6f".to_string()).unwrap(), "Hello");
    assert_eq!(get_data("radio_rx 48656C6c6F".to_string()).unwrap(), "Hello");
}

#[test]
fn empty_line_is_irregular() {
    assert_eq!(get_data(String::new()), Err(StreamError::IrregularMessage));
}

#[test]
fn one_token_is_irregular() {
    assert_eq!(get_data("ok".to_string()), Err(StreamError::IrregularMessage));
}

#[test]
fn three_tokens_are_irregular() {
    // a spaced prefix makes three tokens, so the two-token rule rejects it
    assert_eq!(
        get_data("mac rx 48656C6C6F".to_string()),
        Err(StreamError::IrregularMessage)
    );
    assert_eq!(
        get_data("radio_rx 48 extra".to_string()),
        Err(StreamError::IrregularMessage)
    );
}

#[test]
fn whitespace_only_line_is_irregular() {
    assert_eq!(get_data("   \t ".to_string()), Err(StreamError::IrregularMessage));
}

#[test]
fn non_hex_payload_is_a_decode_error() {
    assert_eq!(get_data("radio_rx 48xy".to_string()), Err(StreamError::DecodeError));
}

#[test]
fn odd_length_hex_is_a_decode_error() {
    assert_eq!(get_data("radio_rx 486".to_string()), Err(StreamError::DecodeError));
}

#[test]
fn invalid_utf8_payload_is_a_decode_error() {
    // 0xFF is never part of a valid UTF-8 encoding
    assert_eq!(get_data("radio_rx FF".to_string()), Err(StreamError::DecodeError));
}

#[test]
fn hex_encode_round_trip() {
    let payloads = ["Hello, world!", "a", "12 34 56", "héllo → mañana", "0"];
    for payload in payloads {
        let line = format!("radio_rx {}", hex::encode(payload.as_bytes()));
        assert_eq!(get_data(line).unwrap(), payload);
    }
}

#[test]
fn fewer_tokens_leave_trailing_fields_empty() {
    let record = parse_data("a b c".to_string()).unwrap();
    assert_eq!(record.len(), FIELD_COUNT);
    assert_eq!(&record[..3], &["a".to_string(), "b".to_string(), "c".to_string()]);
    for field in &record[3..] {
        assert_eq!(field, "");
    }
}

#[test]
fn exactly_eleven_tokens_fill_the_record() {
    let record = parse_data("0 1 2 3 4 5 6 7 8 9 10".to_string()).unwrap();
    assert_eq!(record.len(), FIELD_COUNT);
    assert_eq!(record[10], "10");
}

#[test]
fn extra_tokens_are_discarded() {
    let record = parse_data("0 1 2 3 4 5 6 7 8 9 10 11 12".to_string()).unwrap();
    assert_eq!(record.len(), FIELD_COUNT);
    assert_eq!(record[10], "10");
    assert!(!record.contains(&"11".to_string()));
    assert!(!record.contains(&"12".to_string()));
}

#[test]
fn empty_payload_parses_to_all_empty_fields() {
    let record = parse_data(String::new()).unwrap();
    assert_eq!(record, vec![String::new(); FIELD_COUNT]);
}

#[test]
fn payload_with_many_spaces_splits_on_runs() {
    let record = parse_data("  a \t b  ".to_string()).unwrap();
    assert_eq!(record[0], "a");
    assert_eq!(record[1], "b");
    assert_eq!(record[2], "");
}

#[test]
fn numeric_record_parses_eleven_fields() {
    let record = parse_numeric_data("1 2 3 4 5 6 7 8 9 10 11".to_string()).unwrap();
    assert_eq!(record, vec![1, 2, 3, 4, 5, 6, 7, 8, 9, 10, 11]);
}

#[test]
fn numeric_record_discards_extra_tokens() {
    let record = parse_numeric_data("1 2 3 4 5 6 7 8 9 10 11 12 13".to_string()).unwrap();
    assert_eq!(record.len(), FIELD_COUNT);
    assert_eq!(record[10], 11);
}

#[test]
fn numeric_record_with_missing_fields_aborts() {
    assert_eq!(
        parse_numeric_data("1 2 3".to_string()),
        Err(StreamError::ParseError)
    );
    assert_eq!(parse_numeric_data(String::new()), Err(StreamError::ParseError));
}

#[test]
fn numeric_record_with_a_bad_field_aborts() {
    assert_eq!(
        parse_numeric_data("1 2 3 4 5 six 7 8 9 10 11".to_string()),
        Err(StreamError::ParseError)
    );
}

#[test]
fn numeric_record_bounds() {
    // the largest value that fits parses; one past it aborts the record
    let line_max = "18446744073709551615 1 2 3 4 5 6 7 8 9 10".to_string();
    assert_eq!(parse_numeric_data(line_max).unwrap()[0], u64::MAX);
    let line_over = "18446744073709551616 1 2 3 4 5 6 7 8 9 10".to_string();
    assert_eq!(parse_numeric_data(line_over), Err(StreamError::ParseError));
}

#[test]
fn numeric_record_accepts_leading_zeros() {
    let record = parse_numeric_data("007 0 0 0 0 0 0 0 0 0 0".to_string()).unwrap();
    assert_eq!(record[0], 7);
}

#[test]
fn error_messages_name_the_cause() {
    assert!(StreamError::IrregularMessage.message().contains("irregular"));
    assert!(StreamError::DecodeError.message().contains("decoding"));
    assert!(StreamError::ParseError.message().contains("parsing"));
    assert!(StreamError::IoError.message().contains("error"));
}
