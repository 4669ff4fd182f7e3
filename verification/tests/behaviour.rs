use ustad::{
    decode_text, decode_text_auto, detect_charset_label, parse_bytes, parse_str, HeaderKind, Item,
    NoteKind, ParseErrorKind,
};
use ustad::bytes::{eq_ignore_ascii_case, strip_utf8_bom, trim_ascii, trim_line_right};
use ustad::charset::encoding_or_default;
use ustad::number::{all_ascii_digits, parse_ascii_i32, parse_ascii_u32};

#[test]
fn crlf_and_lf_parse_alike() {
    let lf = parse_bytes(b"[#SETTING]\nTempo=120\n[#0001]\nLyric=a\nraw line\n").unwrap();
    let crlf =
        parse_bytes(b"[#SETTING]\r\nTempo=120\r\n[#0001]\r\nLyric=a\r\nraw line\r\n").unwrap();
    assert_eq!(lf, crlf);
}

#[test]
fn bom_is_ignored() {
    let plain = parse_bytes(b"[#SETTING]\nCharset=UTF-8\n").unwrap();
    let with_bom = parse_bytes(b"\xEF\xBB\xBF[#SETTING]\nCharset=UTF-8\n").unwrap();
    assert_eq!(plain, with_bom);
    assert_eq!(
        detect_charset_label(b"\xEF\xBB\xBFCharset=UTF-8\n"),
        Some(b"UTF-8".as_slice())
    );
}

#[test]
fn blank_line_before_charset_changes_nothing() {
    let bytes = b"a\nb\nc\nd\ne\nf\ng\nh\ni\nCharset=EUC-KR\n";
    assert_eq!(detect_charset_label(bytes), Some(b"EUC-KR".as_slice()));
    let mut with_blank = b"\n".to_vec();
    with_blank.extend_from_slice(bytes);
    assert_eq!(detect_charset_label(&with_blank), Some(b"EUC-KR".as_slice()));
}

#[test]
fn charset_after_ten_nonempty_lines_is_not_seen() {
    let bytes = b"a\nb\nc\nd\ne\nf\ng\nh\ni\nj\nCharset=UTF-8\n";
    assert_eq!(detect_charset_label(bytes), None);
}

#[test]
fn every_line_is_kept_in_order() {
    let ust = parse_bytes(b"[#0000]\n  Lyric = ?a \nplain\n\n[#WHATEVER]\n@x=1=2\n").unwrap();
    assert_eq!(ust.blocks.len(), 2);
    assert_eq!(ust.blocks[0].line, 1);
    assert_eq!(ust.blocks[0].items.len(), 2);
    match ust.blocks[0].items[0] {
        Item::Field(f) => {
            assert_eq!(f.key, b"Lyric");
            assert_eq!(f.value, b" ?a ");
            assert_eq!(f.line, 2);
        }
        _ => panic!("expected a field"),
    }
    match ust.blocks[0].items[1] {
        Item::Raw(r) => {
            assert_eq!(r.bytes, b"plain");
            assert_eq!(r.line, 3);
        }
        _ => panic!("expected a raw line"),
    }
    assert_eq!(ust.blocks[1].line, 5);
    assert!(matches!(ust.blocks[1].header.kind, HeaderKind::Other(b"WHATEVER")));
    match ust.blocks[1].items[0] {
        Item::Field(f) => {
            assert_eq!(f.key, b"@x");
            assert_eq!(f.value, b"1=2");
            assert_eq!(f.line, 6);
        }
        _ => panic!("expected a field"),
    }
    assert_eq!(ust.notes[0].fields.lyric, Some(b"a".as_slice()));
}

#[test]
fn lookup_and_headers_ignore_case() {
    let ust = parse_bytes(b"[#setting]\nTEMPO=90\n[#version]\nust version=2.0\ncharset=utf-8\n").unwrap();
    assert!(matches!(ust.blocks[0].header.kind, HeaderKind::Setting));
    assert!(matches!(ust.blocks[1].header.kind, HeaderKind::Version));
    assert_eq!(ust.setting(b"tempo").unwrap().value, b"90");
    assert_eq!(ust.setting(b"Tempo").unwrap().value, b"90");
    assert_eq!(ust.version.unwrap().version, Some(b"2.0".as_slice()));
    assert_eq!(ust.charset(), Some(b"utf-8".as_slice()));
}

#[test]
fn notes_point_at_their_sections() {
    let ust = parse_bytes(
        b"[#SETTING]\nTempo=1\n[#0003]\nLength=10\n[#NEXT]\nLength=20\n[#DELETE]\n[#TRACKEND]\n",
    )
    .unwrap();
    assert_eq!(ust.notes.len(), 3);
    assert_eq!(ust.notes[0].kind, NoteKind::Index(3));
    assert_eq!(ust.notes[0].block_index(), 1);
    assert_eq!(ust.notes[1].kind, NoteKind::Next);
    assert_eq!(ust.notes[1].block_index(), 2);
    assert_eq!(ust.notes[2].kind, NoteKind::Delete);
    assert_eq!(ust.notes[2].fields.length, None);
    assert!(ust.track_end);
    let block = ust.note_block(&ust.notes[1]).unwrap();
    assert!(matches!(block.header.kind, HeaderKind::Next));
    assert_eq!(ust.notes[1].field(b"length", &ust).unwrap().parse_u32(), Some(20));
    assert!(ust.settings_block().is_some());
    assert!(ust.version_block().is_none());
}

#[test]
fn each_error_kind_and_its_line() {
    let err = parse_bytes(b"\n\nkey=value\n").unwrap_err();
    assert_eq!(err.kind, ParseErrorKind::ContentBeforeHeader);
    assert_eq!(err.line, 3);
    let err = parse_bytes(b"[#SETTING]\nA=1\n[#]\n").unwrap_err();
    assert_eq!(err.kind, ParseErrorKind::EmptyHeader);
    assert_eq!(err.line, 3);
    let err = parse_bytes(b"[#SETTING]\r\n[#0000\r\n").unwrap_err();
    assert_eq!(err.kind, ParseErrorKind::UnterminatedHeader);
    assert_eq!(err.line, 2);
    let err = parse_bytes(b"[#SETTING]\n[#0000]x\n").unwrap_err();
    assert_eq!(err.kind, ParseErrorKind::UnterminatedHeader);
}

#[test]
fn later_sections_and_fields_replace_earlier_ones() {
    let ust = parse_bytes(
        b"[#VERSION]\nUST Version1.0\n[#VERSION]\nUST Version 1.20\nCharset=UTF-8\n[#SETTING]\nA=1\n[#SETTING]\nA=2\nCharset=SJIS\n[#0000]\nLength=1\nLength=2\n",
    )
    .unwrap();
    assert_eq!(ust.version.unwrap().version, Some(b"1.20".as_slice()));
    assert_eq!(ust.version_block().unwrap().line, 3);
    assert_eq!(ust.setting(b"A").unwrap().value, b"2");
    assert_eq!(ust.charset(), Some(b"UTF-8".as_slice()));
    assert_eq!(ust.notes[0].fields.length, Some(2));
}

#[test]
fn charset_falls_back_to_setting() {
    let ust = parse_bytes(b"[#VERSION]\nUST Version=1.2\n[#SETTING]\nCharset= Shift_JIS \n").unwrap();
    assert_eq!(ust.version.unwrap().version, Some(b"1.2".as_slice()));
    assert_eq!(ust.charset(), Some(b"Shift_JIS".as_slice()));
}

#[test]
fn note_field_aliases_and_raw_values() {
    let ust = parse_bytes(
        b"[#0000]\nModuration=-3\nPiches=1,2\nTempo= 125.00 \nVelocity=+100\nDelta=-480\nDuration=96\nVBR=65,180\nEnvelope=0,5,35,0,100,100,0\nLyric=no-question\n",
    )
    .unwrap();
    let f = ust.notes[0].fields;
    assert_eq!(f.modulation, Some(-3));
    assert_eq!(f.pitches, Some(b"1,2".as_slice()));
    assert_eq!(f.tempo, Some(b"125.00".as_slice()));
    assert_eq!(f.velocity, Some(100));
    assert_eq!(f.delta, Some(-480));
    assert_eq!(f.duration, Some(96));
    assert_eq!(f.vbr, Some(b"65,180".as_slice()));
    assert_eq!(f.envelope, Some(b"0,5,35,0,100,100,0".as_slice()));
    assert_eq!(f.lyric, Some(b"no-question".as_slice()));
    assert_eq!(f.note_num, None);
}

#[test]
fn numbered_headers() {
    let ust = parse_bytes(b"[#4294967295]\n[#4294967296]\n[#+1]\n[#00012]\n").unwrap();
    assert!(matches!(ust.blocks[0].header.kind, HeaderKind::Note(4294967295)));
    assert!(matches!(ust.blocks[1].header.kind, HeaderKind::Other(_)));
    assert!(matches!(ust.blocks[2].header.kind, HeaderKind::Other(b"+1")));
    assert!(matches!(ust.blocks[3].header.kind, HeaderKind::Note(12)));
    assert_eq!(ust.notes.len(), 2);
}

#[test]
fn decimal_numbers() {
    assert_eq!(parse_ascii_u32(b"0"), Some(0));
    assert_eq!(parse_ascii_u32(b"+480"), Some(480));
    assert_eq!(parse_ascii_u32(b"4294967295"), Some(u32::MAX));
    assert_eq!(parse_ascii_u32(b"4294967296"), None);
    assert_eq!(parse_ascii_u32(b"000000000000000000007"), Some(7));
    assert_eq!(parse_ascii_u32(b"-0"), None);
    assert_eq!(parse_ascii_u32(b"+"), None);
    assert_eq!(parse_ascii_u32(b""), None);
    assert_eq!(parse_ascii_u32(b"12a"), None);
    assert_eq!(parse_ascii_i32(b"-2147483648"), Some(i32::MIN));
    assert_eq!(parse_ascii_i32(b"2147483647"), Some(i32::MAX));
    assert_eq!(parse_ascii_i32(b"2147483648"), None);
    assert_eq!(parse_ascii_i32(b"-2147483649"), None);
    assert_eq!(parse_ascii_i32(b"-"), None);
    assert_eq!(parse_ascii_i32(b"--1"), None);
    assert_eq!(parse_ascii_i32(b"+-1"), None);
    assert_eq!(parse_ascii_i32(b"-0"), Some(0));
    assert!(all_ascii_digits(b"0123456789"));
    assert!(!all_ascii_digits(b"12 "));
}

#[test]
fn booleans() {
    let ust = parse_bytes(b"[#SETTING]\nA=1\nB= 0 \nC=TRUE\nD=False\nE=yes\nF=10\n").unwrap();
    assert_eq!(ust.setting(b"A").unwrap().parse_bool(), Some(true));
    assert_eq!(ust.setting(b"B").unwrap().parse_bool(), Some(false));
    assert_eq!(ust.setting(b"C").unwrap().parse_bool(), Some(true));
    assert_eq!(ust.setting(b"D").unwrap().parse_bool(), Some(false));
    assert_eq!(ust.setting(b"E").unwrap().parse_bool(), None);
    assert_eq!(ust.setting(b"F").unwrap().parse_bool(), None);
    assert_eq!(ust.setting(b"F").unwrap().parse_i32(), Some(10));
}

#[test]
fn byte_helpers() {
    assert_eq!(trim_ascii(b" \t\x0Cab c\r\n "), b"ab c");
    assert_eq!(trim_ascii(b"\x0Bx\x0B"), b"\x0Bx\x0B");
    assert_eq!(trim_ascii(b"   "), b"");
    assert_eq!(trim_line_right(b"abc\r"), b"abc");
    assert_eq!(trim_line_right(b"abc\r\r"), b"abc\r");
    assert_eq!(strip_utf8_bom(b"\xEF\xBB\xBFx"), b"x");
    assert_eq!(strip_utf8_bom(b"\xEF\xBBx"), b"\xEF\xBBx");
    assert!(eq_ignore_ascii_case(b"ChArSeT", b"charset"));
    assert!(!eq_ignore_ascii_case(b"charset", b"charse"));
}

#[test]
fn decoding_follows_the_label() {
    let utf8 = "[#SETTING]\nProjectName=テスト\n".as_bytes();
    let decoded = decode_text(utf8, Some(b" Utf-8 "));
    assert_eq!(decoded.encoding.name(), "UTF-8");
    assert!(!decoded.had_errors);
    assert_eq!(decoded.text, "[#SETTING]\nProjectName=テスト\n");

    let decoded = decode_text(b"abc", Some(b"no-such-charset"));
    assert_eq!(decoded.encoding.name(), "Shift_JIS");

    let decoded = decode_text(b"abc", None);
    assert_eq!(decoded.encoding.name(), "Shift_JIS");
    assert_eq!(decoded.text, "abc");

    let decoded = decode_text(b"\xEF\xBB\xBFabc", Some(b"utf-8"));
    assert_eq!(decoded.text, "abc");

    let decoded = decode_text(b"\x83e\x83X\x83g", Some(b"utf-8"));
    assert!(decoded.had_errors);
    assert_ne!(decoded.text, "テスト");

    let auto = decode_text_auto("[#VERSION]\nCharset=UTF-8\n[#0000]\nLyric=あ\n".as_bytes());
    assert_eq!(auto.encoding.name(), "UTF-8");
    assert!(auto.text.contains("Lyric=あ"));

    let euc = decode_text_auto(b"Charset=EUC-KR\n");
    assert_eq!(euc.encoding.name(), "EUC-KR");
    assert_eq!(encoding_or_default(None).name(), "Shift_JIS");
    assert_eq!(encoding_or_default(Some(euc.encoding)).name(), "EUC-KR");
}

#[test]
fn parse_str_is_parse_bytes() {
    let s = "[#0000]\nLyric=あ\n";
    assert_eq!(parse_str(s).unwrap(), parse_bytes(s.as_bytes()).unwrap());
}

#[test]
fn charset_is_the_first_declared() {
    let ust = parse_bytes(b"[#VERSION]\nCharset=UTF-8\nCharset=EUC-JP\n").unwrap();
    assert_eq!(ust.charset(), Some(b"UTF-8".as_slice()));
    let ust = parse_bytes(
        b"[#VERSION]\nUST Version1.2\n[#VERSION]\ncharset= GBK \n[#VERSION]\nCharset=Big5\n[#SETTING]\nCharset=UTF-8\n",
    )
    .unwrap();
    assert_eq!(ust.charset(), Some(b"GBK".as_slice()));
    let ust = parse_bytes(b"[#VERSION]\nUST Version1.2\n[#SETTING]\nCharset=a\nCharset=b\n").unwrap();
    assert_eq!(ust.charset(), Some(b"a".as_slice()));
    let ust = parse_bytes(b"[#VERSION]\nUST Version1.2\n").unwrap();
    assert_eq!(ust.charset(), None);
}

#[test]
fn decoded_text_clones() {
    let decoded = decode_text(b"abc", None);
    let copy = decoded.clone();
    assert_eq!(copy.text, decoded.text);
    assert_eq!(copy.encoding.name(), decoded.encoding.name());
    assert_eq!(copy.had_errors, decoded.had_errors);
}
