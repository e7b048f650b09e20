use sciproj::formats::ndjson::{append_record, frame_records, NdJsonError};

#[test]
fn frames_lines_ended_by_newlines() {
    let f = frame_records(b"{\"a\":1}\n{\"b\":2}\n");
    assert_eq!(f.error, None);
    assert_eq!(f.records, vec![b"{\"a\":1}".to_vec(), b"{\"b\":2}".to_vec()]);
}

#[test]
fn blank_line_is_an_error_after_the_records_before_it() {
    let f = frame_records(b"1\n\n2\n");
    assert_eq!(f.error, Some(NdJsonError::BlankLine));
    assert_eq!(f.records, vec![b"1".to_vec()]);
    assert_eq!(frame_records(b"\n").error, Some(NdJsonError::BlankLine));
}

#[test]
fn data_must_end_with_a_newline() {
    let f = frame_records(b"1\n2");
    assert_eq!(f.error, Some(NdJsonError::Unterminated));
    assert_eq!(f.records, vec![b"1".to_vec()]);
    assert_eq!(frame_records(b"").error, Some(NdJsonError::Unterminated));
    assert_eq!(frame_records(b"").records.len(), 0);
}

#[test]
fn append_then_frame_gives_the_records_back() {
    let records = vec![b"x".to_vec(), b"{}".to_vec(), b"[1,2]".to_vec()];
    let mut out = Vec::new();
    for r in &records {
        append_record(&mut out, r).unwrap();
    }
    assert_eq!(out, b"x\n{}\n[1,2]\n".to_vec());
    let f = frame_records(&out);
    assert_eq!(f.error, None);
    assert_eq!(f.records, records);
}

#[test]
fn a_record_with_a_newline_is_refused() {
    let mut out = b"a\n".to_vec();
    assert_eq!(append_record(&mut out, b"b\nc"), Err(NdJsonError::NewlineInRecord));
    assert_eq!(out, b"a\n".to_vec());
    assert_eq!(
        NdJsonError::NewlineInRecord.message(),
        "serialized item contained a newline in its representation."
    );
}
