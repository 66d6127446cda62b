use r3status::DecodeError;
use r3status::R3Status;
use r3status::RelayState;

#[test]
fn new_relay_waits_for_the_header() {
    let r = R3Status::new();
    assert_eq!(RelayState::HeaderExchange, r.state);
    assert_eq!("", r.buffer);
    assert_eq!(None, r.config_file);
}

#[test]
fn config_file_is_remembered() {
    let mut r = R3Status::new();
    r.config_file("/etc/i3status.conf");
    assert_eq!(Some("/etc/i3status.conf".to_string()), r.config_file);
}

#[test]
fn flush_buffer_terminates_and_clears() {
    let mut r = R3Status::new();
    r.append_chunk("hello");
    assert_eq!("hello\n", r.flush_buffer());
    assert_eq!("", r.buffer);
    r.append_chunk("world\n");
    assert_eq!("world\n", r.flush_buffer());
    // an empty buffer still flushes as one bare newline, as a plain
    // line-write of nothing does
    assert_eq!("\n", r.flush_buffer());
}

#[test]
fn header_line_gains_click_events_and_keeps_other_fields() {
    let mut r = R3Status::new();
    let out = r.pipe_header("{\"version\":1,\"stop_signal\":10,\"cont_signal\":12}\n").unwrap();
    assert_eq!(
        "{\"version\":1,\"stop_signal\":10,\"cont_signal\":12,\"click_events\":true}\n",
        out
    );
    assert!(out.contains("\"click_events\":true"));
}

#[test]
fn final_record_without_newline_is_still_terminated() {
    let mut r = R3Status::new();
    r.step("{\"version\":1}\n").unwrap();
    r.step("[\n").unwrap();
    r.step("[{\"full_text\":\"a\"}]\n").unwrap();
    // the stream ends without a trailing newline; the record is whole and
    // gains exactly one
    let out = r.step(",[{\"full_text\":\"b\"}]").unwrap();
    assert_eq!(",[{\"full_text\":\"b\"}]\n", out);
}

#[test]
fn steady_state_preserves_order_and_volume() {
    let mut r = R3Status::new();
    r.step("{\"version\":1}").unwrap();
    r.step("[").unwrap();
    r.step("[{\"full_text\":\"0\"}]").unwrap();
    assert_eq!(RelayState::SteadyState, r.state);
    let lines = [",[1]\n", ",[2]", ",[3]\n"];
    let mut outs: Vec<String> = Vec::new();
    for l in lines {
        outs.push(r.step(l).unwrap());
    }
    assert_eq!(
        vec![",[1]\n".to_string(), ",[2]\n".to_string(), ",[3]\n".to_string()],
        outs
    );
    assert_eq!(RelayState::SteadyState, r.state);
}

#[test]
fn end_to_end_four_line_stream() {
    let mut r = R3Status::new();
    let mut out = String::new();
    out.push_str(&r.step("{\"version\":1}\n").unwrap());
    out.push_str(&r.step("[\n").unwrap());
    out.push_str(&r.step("[{\"full_text\":\"100%\"}]\n").unwrap());
    out.push_str(&r.step(",[{\"full_text\":\"101%\"}]\n").unwrap());
    assert_eq!(
        "{\"version\":1,\"click_events\":true}\n[\n[{\"full_text\":\"100%\"}]\n,[{\"full_text\":\"101%\"}]\n",
        out
    );
}

#[test]
fn bad_header_forwards_nothing() {
    let mut r = R3Status::new();
    match r.step("not json\n") {
        Err(DecodeError::Malformed(t)) => assert_eq!("not json\n", t),
        other => panic!("expected a malformed error, got {:?}", other),
    }
    // the run is still in the header phase: nothing was written
    assert_eq!(RelayState::HeaderExchange, r.state);
}

#[test]
fn synthetic_message_record_with_bare_comma() {
    let mut r = R3Status::new();
    let out = r.write_msg("no data");
    assert_eq!(
        "[{\"full_text\":\"no data\",\"short_text\":null,\"color\":null,\"min_width\":null,\"align\":null,\"urgent\":null,\"name\":null,\"instance\":null,\"separator\":null,\"separator_block_width\":null}]\n,",
        out
    );
}
