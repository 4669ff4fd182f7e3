use ustad::{
    decode_text_auto, detect_charset_label, parse_bytes, parse_str, HeaderKind, NoteKind,
    ParseErrorKind, Ust,
};

/// The global tempo as a float, read the way callers of the library do.
fn tempo(ust: &Ust<'_>) -> Option<f64> {
    let field = ust.setting(b"Tempo")?;
    std::str::from_utf8(field.value_trimmed()).ok()?.parse().ok()
}

#[test]
fn parses_ust_12_with_common_fields() {
    let ust = parse_str(
        "[#VERSION]\r\n\
         UST Version1.2\r\n\
         Charset=UTF-8\r\n\
         [#SETTING]\r\n\
         Tempo=120.5\r\n\
         ProjectName=demo\r\n\
         Mode2=True\r\n\
         [#0000]\r\n\
         Length=480\r\n\
         Lyric=?あ\r\n\
         NoteNum=60\r\n\
         PBS=-40;0\r\n\
         PBW=80,120\r\n\
         PBY=0,20\r\n\
         PBM=s,r\r\n\
         [#TRACKEND]\r\n",
    )
    .unwrap();

    assert_eq!(ust.version.unwrap().version, Some(b"1.2".as_slice()));
    assert_eq!(ust.charset(), Some(b"UTF-8".as_slice()));
    assert_eq!(tempo(&ust), Some(120.5));
    assert!(ust.track_end);
    assert_eq!(ust.notes.len(), 1);
    assert_eq!(ust.notes[0].kind, NoteKind::Index(0));
    assert_eq!(ust.notes[0].fields.length, Some(480));
    assert_eq!(ust.notes[0].fields.lyric, Some("あ".as_bytes()));
    assert_eq!(ust.notes[0].fields.note_num, Some(60));
    assert_eq!(ust.notes[0].fields.pbs, Some(b"-40;0".as_slice()));
}

#[test]
fn keeps_unknown_fields_and_plugin_headers() {
    let ust = parse_str(
        "[#SETTING]\n\
         Tempo=100\n\
         [#PREV]\n\
         Length=240\n\
         @preuttr=12.5\n\
         $custom=value\n\
         [#INSERT]\n\
         Length=120\n",
    )
    .unwrap();

    assert_eq!(ust.notes[0].kind, NoteKind::Prev);
    assert_eq!(ust.notes[1].kind, NoteKind::Insert);
    assert_eq!(
        ust.notes[0]
            .field(b"@preuttr", &ust)
            .unwrap()
            .value_trimmed(),
        b"12.5"
    );
    assert_eq!(
        ust.notes[0]
            .field(b"$custom", &ust)
            .unwrap()
            .value_trimmed(),
        b"value"
    );
}

#[test]
fn detects_charset_in_first_lines() {
    let label = detect_charset_label(b"[#VERSION]\nUST Version=1.20\nCharset=UTF-8\n");
    assert_eq!(label, Some(b"UTF-8".as_slice()));
}

#[test]
fn charset_detection_ignores_blank_lines() {
    let label = detect_charset_label(
        b"\n\n\n\n\n\n\n\n\n\n[#VERSION]\nUST Version=1.20\nCharset=UTF-8\n",
    );
    assert_eq!(label, Some(b"UTF-8".as_slice()));
}

#[test]
fn decodes_shift_jis_by_default() {
    let bytes = b"[#SETTING]\nProjectName=\x83e\x83X\x83g\n";
    let decoded = decode_text_auto(bytes);
    assert_eq!(decoded.encoding.name(), "Shift_JIS");
    assert!(!decoded.had_errors);
    assert!(decoded.text.contains("テスト"));
}

#[test]
fn rejects_content_before_header() {
    let err = parse_str("Tempo=120\n[#SETTING]\n").unwrap_err();
    assert_eq!(err.kind, ParseErrorKind::ContentBeforeHeader);
    assert_eq!(err.line, 1);
}

#[test]
fn malformed_headers_return_errors_without_panicking() {
    assert!(parse_bytes(b"").unwrap().blocks.is_empty());

    let err = parse_bytes(b"[#").unwrap_err();
    assert_eq!(err.kind, ParseErrorKind::UnterminatedHeader);

    let err = parse_bytes(b"[#]\n").unwrap_err();
    assert_eq!(err.kind, ParseErrorKind::EmptyHeader);
}

#[test]
fn oversized_numeric_header_is_preserved_as_unknown() {
    let ust = parse_bytes(b"[#999999999999999999999999]\nLength=480\n").unwrap();
    assert!(matches!(ust.blocks[0].header.kind, HeaderKind::Other(_)));
    assert!(ust.notes.is_empty());
}

#[test]
fn invalid_typed_values_become_none() {
    let ust = parse_str(
        "[#SETTING]\n\
         Tempo=not-a-number\n\
         [#0000]\n\
         Length=abc\n\
         NoteNum=oops\n",
    )
    .unwrap();

    assert_eq!(tempo(&ust), None);
    assert_eq!(ust.notes[0].fields.length, None);
    assert_eq!(ust.notes[0].fields.note_num, None);
}
