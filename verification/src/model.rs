//! What parsing a UST byte stream means, stated over the models of `ast`.
//!
//! The document is the byte stream without a leading UTF-8 BOM, cut into
//! `\n`-terminated lines; each line loses one trailing `\r`. Empty lines are
//! skipped. A line that starts with `[#` opens a section and must end with
//! `]` around a non-empty name; any other line belongs to the open section,
//! as a `key=value` field when it holds a `=` and as a raw line otherwise.
use vstd::prelude::*;
use vstd::string::StringSliceAdditionalSpecFns;
use crate::ast::{
    BlockView, FieldView, HeaderKindView, HeaderView, ItemView, NoteBlockView, NoteFieldsView,
    NoteKind, ParseError, ParseErrorKind, RawLineView, UstView, VersionView,
};
use crate::bytes::{eq_ignore_case, strip_bom, trim, trim_cr};
use crate::lines::split_lines;
use crate::number::{all_digits, spec_parse_i32, spec_parse_u32};

verus! {

/// Classifies a header name (the bytes between `[#` and `]`).
pub open spec fn spec_classify_header(raw: Seq<u8>) -> HeaderKindView {
    if eq_ignore_case(raw, "VERSION".spec_bytes()) {
        HeaderKindView::Version
    } else if eq_ignore_case(raw, "SETTING".spec_bytes()) {
        HeaderKindView::Setting
    } else if eq_ignore_case(raw, "TRACKEND".spec_bytes()) {
        HeaderKindView::TrackEnd
    } else if eq_ignore_case(raw, "PREV".spec_bytes()) {
        HeaderKindView::Prev
    } else if eq_ignore_case(raw, "NEXT".spec_bytes()) {
        HeaderKindView::Next
    } else if eq_ignore_case(raw, "INSERT".spec_bytes()) {
        HeaderKindView::Insert
    } else if eq_ignore_case(raw, "DELETE".spec_bytes()) {
        HeaderKindView::Delete
    } else if all_digits(raw) {
        match spec_parse_u32(raw) {
            Some(n) => HeaderKindView::Note(n),
            None => HeaderKindView::Other(raw),
        }
    } else {
        HeaderKindView::Other(raw)
    }
}

/// `p` is the position of the first `=` in `line`.
pub open spec fn is_first_eq(line: Seq<u8>, p: int) -> bool {
    &&& 0 <= p < line.len()
    &&& line[p] == 0x3Du8
    &&& forall|j: int| 0 <= j < p ==> line[j] != 0x3Du8
}

/// A line with a `=` is a field: the key is the trimmed text before the first
/// `=`, the value everything after it, untrimmed.
pub open spec fn spec_parse_field(line: Seq<u8>, n: usize) -> Option<FieldView> {
    if exists|p: int| is_first_eq(line, p) {
        let p = choose|p: int| is_first_eq(line, p);
        Some(FieldView { key: trim(line.take(p)), value: line.skip(p + 1), line: n })
    } else {
        None
    }
}

/// A line inside a section: a field, or else a raw line kept verbatim.
pub open spec fn spec_parse_item(line: Seq<u8>, n: usize) -> ItemView {
    match spec_parse_field(line, n) {
        Some(f) => ItemView::Field(f),
        None => ItemView::Raw(RawLineView { bytes: line, line: n }),
    }
}

/// The line opens a section.
pub open spec fn is_header_line(line: Seq<u8>) -> bool {
    line.len() >= 2 && line[0] == 0x5Bu8 && line[1] == 0x23u8
}

/// Sections closed so far, and the one still open.
pub ghost struct ParseState {
    pub blocks: Seq<BlockView>,
    pub current: Option<BlockView>,
}

/// The closed sections followed by the open one.
pub open spec fn all_blocks(st: ParseState) -> Seq<BlockView> {
    match st.current {
        Some(b) => st.blocks.push(b),
        None => st.blocks,
    }
}

/// Effect of line number `n` (its `\r` already removed) on the parse.
pub open spec fn parse_step(st: ParseState, line: Seq<u8>, n: usize) -> Result<ParseState, ParseError> {
    if line.len() == 0 {
        Ok(st)
    } else if is_header_line(line) {
        if line.last() != 0x5Du8 {
            Err(ParseError { line: n, kind: ParseErrorKind::UnterminatedHeader })
        } else {
            let raw = line.subrange(2, line.len() - 1);
            if raw.len() == 0 {
                Err(ParseError { line: n, kind: ParseErrorKind::EmptyHeader })
            } else {
                Ok(ParseState {
                    blocks: all_blocks(st),
                    current: Some(BlockView {
                        header: HeaderView { kind: spec_classify_header(raw), raw },
                        line: n,
                        items: Seq::empty(),
                    }),
                })
            }
        }
    } else {
        match st.current {
            None => Err(ParseError { line: n, kind: ParseErrorKind::ContentBeforeHeader }),
            Some(b) => Ok(ParseState {
                blocks: st.blocks,
                current: Some(BlockView { items: b.items.push(spec_parse_item(line, n)), ..b }),
            }),
        }
    }
}

/// Parse state after the given lines, numbered from one; the first error stops it.
pub open spec fn parse_lines(lines: Seq<Seq<u8>>) -> Result<ParseState, ParseError>
    decreases lines.len(),
{
    if lines.len() == 0 {
        Ok(ParseState { blocks: Seq::empty(), current: None })
    } else {
        match parse_lines(lines.drop_last()) {
            Err(e) => Err(e),
            Ok(st) => parse_step(st, trim_cr(lines.last()), lines.len() as usize),
        }
    }
}

/// The document's lines: the input without its BOM, split at line feeds.
pub open spec fn document_lines(input: Seq<u8>) -> Seq<Seq<u8>> {
    split_lines(strip_bom(input))
}

/// All sections of the input in source order, or the first structural error.
pub open spec fn spec_blocks(input: Seq<u8>) -> Result<Seq<BlockView>, ParseError> {
    match parse_lines(document_lines(input)) {
        Ok(st) => Ok(all_blocks(st)),
        Err(e) => Err(e),
    }
}

/// The version number that a raw `UST Version...` line carries, with an
/// optional `=` between the prefix and the number.
pub open spec fn spec_parse_raw_version(line: Seq<u8>) -> Option<Seq<u8>> {
    let prefix = "UST Version".spec_bytes();
    if line.len() < prefix.len() || !eq_ignore_case(line.take(prefix.len() as int), prefix) {
        None
    } else {
        let rest = trim(line.skip(prefix.len() as int));
        if rest.len() > 0 && rest[0] == 0x3Du8 {
            Some(trim(rest.drop_first()))
        } else {
            Some(rest)
        }
    }
}

/// Version and charset declared by these items of a `[#VERSION]` section;
/// a later declaration replaces an earlier one.
pub open spec fn version_fields(items: Seq<ItemView>) -> (Option<Seq<u8>>, Option<Seq<u8>>)
    decreases items.len(),
{
    if items.len() == 0 {
        (None, None)
    } else {
        let (v, c) = version_fields(items.drop_last());
        match items.last() {
            ItemView::Field(f) => if eq_ignore_case(f.key, "UST Version".spec_bytes()) {
                (Some(trim(f.value)), c)
            } else if eq_ignore_case(f.key, "Charset".spec_bytes()) {
                (v, Some(trim(f.value)))
            } else {
                (v, c)
            },
            ItemView::Raw(r) => match spec_parse_raw_version(r.bytes) {
                Some(x) => (Some(x), c),
                None => (v, c),
            },
        }
    }
}

/// The `[#VERSION]` section at this index.
pub open spec fn spec_version_section(block_index: usize, block: BlockView) -> VersionView {
    let (v, c) = version_fields(block.items);
    VersionView { block_index, version: v, charset: c }
}

/// Note fields with nothing set.
pub open spec fn empty_note_fields() -> NoteFieldsView {
    NoteFieldsView {
        length: None,
        duration: None,
        delta: None,
        lyric: None,
        note_num: None,
        tempo: None,
        velocity: None,
        intensity: None,
        modulation: None,
        flags: None,
        pre_utterance: None,
        voice_overlap: None,
        start_point: None,
        envelope: None,
        pbs: None,
        pbw: None,
        pby: None,
        pbm: None,
        pitches: None,
        vbr: None,
    }
}

/// A lyric without its leading `?`, if it has one.
pub open spec fn strip_question(value: Seq<u8>) -> Seq<u8> {
    if value.len() > 0 && value[0] == 0x3Fu8 {
        value.drop_first()
    } else {
        value
    }
}

/// The typed note fields after one more field of the section; keys are
/// compared ignoring ASCII case, values are trimmed, numbers that do not
/// parse become `None`, unknown keys change nothing.
pub open spec fn note_field_update(f: NoteFieldsView, field: FieldView) -> NoteFieldsView {
    let key = field.key;
    let value = trim(field.value);
    if eq_ignore_case(key, "Length".spec_bytes()) {
        NoteFieldsView { length: spec_parse_u32(value), ..f }
    } else if eq_ignore_case(key, "Duration".spec_bytes()) {
        NoteFieldsView { duration: spec_parse_u32(value), ..f }
    } else if eq_ignore_case(key, "Delta".spec_bytes()) {
        NoteFieldsView { delta: spec_parse_i32(value), ..f }
    } else if eq_ignore_case(key, "Lyric".spec_bytes()) {
        NoteFieldsView { lyric: Some(strip_question(value)), ..f }
    } else if eq_ignore_case(key, "NoteNum".spec_bytes()) {
        NoteFieldsView { note_num: spec_parse_i32(value), ..f }
    } else if eq_ignore_case(key, "Tempo".spec_bytes()) {
        NoteFieldsView { tempo: Some(value), ..f }
    } else if eq_ignore_case(key, "Velocity".spec_bytes()) {
        NoteFieldsView { velocity: spec_parse_i32(value), ..f }
    } else if eq_ignore_case(key, "Intensity".spec_bytes()) {
        NoteFieldsView { intensity: spec_parse_i32(value), ..f }
    } else if eq_ignore_case(key, "Modulation".spec_bytes()) || eq_ignore_case(
        key,
        "Moduration".spec_bytes(),
    ) {
        NoteFieldsView { modulation: spec_parse_i32(value), ..f }
    } else if eq_ignore_case(key, "Flags".spec_bytes()) {
        NoteFieldsView { flags: Some(value), ..f }
    } else if eq_ignore_case(key, "PreUtterance".spec_bytes()) {
        NoteFieldsView { pre_utterance: Some(value), ..f }
    } else if eq_ignore_case(key, "VoiceOverlap".spec_bytes()) {
        NoteFieldsView { voice_overlap: Some(value), ..f }
    } else if eq_ignore_case(key, "StartPoint".spec_bytes()) {
        NoteFieldsView { start_point: Some(value), ..f }
    } else if eq_ignore_case(key, "Envelope".spec_bytes()) {
        NoteFieldsView { envelope: Some(value), ..f }
    } else if eq_ignore_case(key, "PBS".spec_bytes()) {
        NoteFieldsView { pbs: Some(value), ..f }
    } else if eq_ignore_case(key, "PBW".spec_bytes()) {
        NoteFieldsView { pbw: Some(value), ..f }
    } else if eq_ignore_case(key, "PBY".spec_bytes()) {
        NoteFieldsView { pby: Some(value), ..f }
    } else if eq_ignore_case(key, "PBM".spec_bytes()) {
        NoteFieldsView { pbm: Some(value), ..f }
    } else if eq_ignore_case(key, "Pitches".spec_bytes()) || eq_ignore_case(
        key,
        "Piches".spec_bytes(),
    ) || eq_ignore_case(key, "PitchBend".spec_bytes()) {
        NoteFieldsView { pitches: Some(value), ..f }
    } else if eq_ignore_case(key, "VBR".spec_bytes()) {
        NoteFieldsView { vbr: Some(value), ..f }
    } else {
        f
    }
}

/// Typed note fields of a section with these items, read in order.
pub open spec fn spec_note_fields(items: Seq<ItemView>) -> NoteFieldsView
    decreases items.len(),
{
    if items.len() == 0 {
        empty_note_fields()
    } else {
        let prev = spec_note_fields(items.drop_last());
        match items.last() {
            ItemView::Field(f) => note_field_update(prev, f),
            ItemView::Raw(_) => prev,
        }
    }
}

/// The note class of a header, for note and plugin-note sections.
pub open spec fn note_kind_of(kind: HeaderKindView) -> Option<NoteKind> {
    match kind {
        HeaderKindView::Note(n) => Some(NoteKind::Index(n)),
        HeaderKindView::Prev => Some(NoteKind::Prev),
        HeaderKindView::Next => Some(NoteKind::Next),
        HeaderKindView::Insert => Some(NoteKind::Insert),
        HeaderKindView::Delete => Some(NoteKind::Delete),
        _ => None,
    }
}

/// The note and plugin-note sections among `blocks`, in order.
pub open spec fn spec_notes(blocks: Seq<BlockView>) -> Seq<NoteBlockView>
    decreases blocks.len(),
{
    if blocks.len() == 0 {
        Seq::empty()
    } else {
        let prev = spec_notes(blocks.drop_last());
        let b = blocks.last();
        match note_kind_of(b.header.kind) {
            Some(k) => prev.push(
                NoteBlockView {
                    block_index: (blocks.len() - 1) as usize,
                    kind: k,
                    fields: spec_note_fields(b.items),
                },
            ),
            None => prev,
        }
    }
}

/// The last `[#VERSION]` section among `blocks`.
pub open spec fn spec_last_version(blocks: Seq<BlockView>) -> Option<VersionView>
    decreases blocks.len(),
{
    if blocks.len() == 0 {
        None
    } else if blocks.last().header.kind is Version {
        Some(spec_version_section((blocks.len() - 1) as usize, blocks.last()))
    } else {
        spec_last_version(blocks.drop_last())
    }
}

/// Index of the last `[#SETTING]` section among `blocks`.
pub open spec fn spec_last_setting(blocks: Seq<BlockView>) -> Option<usize>
    decreases blocks.len(),
{
    if blocks.len() == 0 {
        None
    } else if blocks.last().header.kind is Setting {
        Some((blocks.len() - 1) as usize)
    } else {
        spec_last_setting(blocks.drop_last())
    }
}

/// Some section among `blocks` is `[#TRACKEND]`.
pub open spec fn spec_has_track_end(blocks: Seq<BlockView>) -> bool {
    exists|i: int| 0 <= i < blocks.len() && (#[trigger] blocks[i]).header.kind is TrackEnd
}

/// The document that these sections make up.
pub open spec fn spec_ust(blocks: Seq<BlockView>) -> UstView {
    UstView {
        blocks,
        version: spec_last_version(blocks),
        settings: spec_last_setting(blocks),
        notes: spec_notes(blocks),
        track_end: spec_has_track_end(blocks),
    }
}

/// The result of parsing the byte stream `input`.
pub open spec fn spec_parse_bytes(input: Seq<u8>) -> Result<UstView, ParseError> {
    match spec_blocks(input) {
        Ok(blocks) => Ok(spec_ust(blocks)),
        Err(e) => Err(e),
    }
}

} // verus!
