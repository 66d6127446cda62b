use r3status::Alignment;
use r3status::Block;
use r3status::DecodeError;
use r3status::Header;

#[test]
fn test_encode_decode_alignment() {
    assert_eq!(r#""right""#, Alignment::Right.encode_json());
    assert_eq!(r#""left""#, Alignment::Left.encode_json());
    assert_eq!(r#""center""#, Alignment::Center.encode_json());

    assert_eq!(Ok(Alignment::Right), Alignment::decode_json(r#""right""#));
    assert_eq!(Ok(Alignment::Left), Alignment::decode_json(r#""left""#));
    assert_eq!(Ok(Alignment::Center), Alignment::decode_json(r#""center""#));
}

#[test]
fn alignment_tokens_round_trip() {
    assert_eq!("right", Alignment::Right.encode());
    assert_eq!("left", Alignment::Left.encode());
    assert_eq!("center", Alignment::Center.encode());
    assert_eq!(Ok(Alignment::Right), Alignment::decode("right"));
    assert_eq!(Ok(Alignment::Left), Alignment::decode("left"));
    assert_eq!(Ok(Alignment::Center), Alignment::decode("center"));
}

#[test]
fn alignment_rejects_other_tokens_naming_them() {
    match Alignment::decode("middle") {
        Err(DecodeError::InvalidAlignment(t)) => assert_eq!("middle", t),
        other => panic!("expected an invalid-alignment error, got {:?}", other),
    }
    match Alignment::decode_json(r#""top""#) {
        Err(DecodeError::InvalidAlignment(t)) => assert_eq!("top", t),
        other => panic!("expected an invalid-alignment error, got {:?}", other),
    }
    match Alignment::decode_json("right") {
        Err(DecodeError::Malformed(t)) => assert_eq!("right", t),
        other => panic!("expected a malformed error, got {:?}", other),
    }
}

#[test]
fn header_round_trip_all_field_combinations() {
    for version in [0usize, 1, 7, usize::MAX] {
        for stop_signal in [None, Some(10usize), Some(usize::MAX)] {
            for cont_signal in [None, Some(12usize)] {
                for click_events in [None, Some(true), Some(false)] {
                    let h = Header { version, stop_signal, cont_signal, click_events };
                    let h2 = h.with_click_events(true);
                    assert_eq!(Ok(h2), Header::decode(&h2.encode()));
                }
            }
        }
    }
}

#[test]
fn header_encode_is_compact_and_ordered() {
    let h = Header {
        version: 1,
        stop_signal: Some(10),
        cont_signal: Some(12),
        click_events: Some(true),
    };
    assert_eq!(
        "{\"version\":1,\"stop_signal\":10,\"cont_signal\":12,\"click_events\":true}",
        h.encode()
    );
    let h2 = Header { version: 1, stop_signal: None, cont_signal: None, click_events: None };
    assert_eq!("{\"version\":1}", h2.encode());
    assert_eq!(h2, Header::default());
}

#[test]
fn header_decode_accepts_any_key_order_and_blanks() {
    let h = Header::decode(" { \"click_events\" : false , \"version\" : 4 } \n").unwrap();
    assert_eq!(
        Header { version: 4, stop_signal: None, cont_signal: None, click_events: Some(false) },
        h
    );
    let h2 = Header::decode("{\"stop_signal\":10,\"version\":1}").unwrap();
    assert_eq!(
        Header { version: 1, stop_signal: Some(10), cont_signal: None, click_events: None },
        h2
    );
}

#[test]
fn header_decode_errors_name_the_line() {
    match Header::decode("nonsense") {
        Err(DecodeError::Malformed(t)) => assert_eq!("nonsense", t),
        other => panic!("expected a malformed error, got {:?}", other),
    }
    match Header::decode("{\"version\":1,}") {
        Err(DecodeError::Malformed(t)) => assert_eq!("{\"version\":1,}", t),
        other => panic!("expected a malformed error, got {:?}", other),
    }
    match Header::decode("{}") {
        Err(DecodeError::MissingVersion(t)) => assert_eq!("{}", t),
        other => panic!("expected a missing-version error, got {:?}", other),
    }
    match Header::decode("{\"stop_signal\":2}") {
        Err(DecodeError::MissingVersion(t)) => assert_eq!("{\"stop_signal\":2}", t),
        other => panic!("expected a missing-version error, got {:?}", other),
    }
    match Header::decode("{\"version\":99999999999999999999999}") {
        Err(DecodeError::NumberTooLarge(t)) => {
            assert_eq!("{\"version\":99999999999999999999999}", t)
        },
        other => panic!("expected a number-too-large error, got {:?}", other),
    }
}

#[test]
fn block_encode_writes_every_field_with_nulls() {
    let b = Block::default();
    assert_eq!(
        "{\"full_text\":\"\",\"short_text\":null,\"color\":null,\"min_width\":null,\"align\":null,\"urgent\":null,\"name\":null,\"instance\":null,\"separator\":null,\"separator_block_width\":null}",
        b.encode()
    );
}

#[test]
fn block_encode_escapes_text_and_writes_values() {
    let mut b = Block::default();
    b.full_text = "a\"b\\c\nd".to_string();
    b.short_text = Some("s".to_string());
    b.min_width = Some(250);
    b.align = Some(Alignment::Center);
    b.urgent = Some(false);
    b.separator = Some(true);
    b.separator_block_width = Some(9);
    assert_eq!(
        "{\"full_text\":\"a\\\"b\\\\c\\nd\",\"short_text\":\"s\",\"color\":null,\"min_width\":250,\"align\":\"center\",\"urgent\":false,\"name\":null,\"instance\":null,\"separator\":true,\"separator_block_width\":9}",
        b.encode()
    );
}
