//! The parser: from bytes to the syntax tree of `ast`, proved to compute
//! `model::spec_parse_bytes`.
use vstd::prelude::*;
use vstd::slice::slice_subrange;
use vstd::string::StringSliceAdditionalSpecFns;
use crate::ast::{
    BlockView, blocks_view, items_view, notes_view, opt_setting_view, opt_version_view, opt_view, Block,
    Field, Header, HeaderKind, Item, NoteBlock, NoteFields, NoteKind, ParseError,
    ParseErrorKind, RawLine, SettingSection, Ust, UstView, VersionSection,
};
use crate::bytes::{eq_ignore_ascii_case, strip_utf8_bom, trim_ascii, trim_line_right};
use crate::lines::{split_lines, Lines};
use crate::model::{
    all_blocks, document_lines, is_first_eq, note_field_update, note_kind_of, parse_lines,
    parse_step, spec_blocks, spec_classify_header, spec_has_track_end, spec_last_setting,
    spec_last_version, spec_note_fields, spec_notes, spec_parse_bytes, spec_parse_field,
    spec_parse_item, spec_parse_raw_version, spec_ust, spec_version_section, version_fields,
    ParseState,
};
use crate::number::{all_ascii_digits, parse_ascii_u32};

verus! {

/// The model of a parse result.
pub open spec fn parse_result_view<'a>(r: Result<Ust<'a>, ParseError>) -> Result<UstView, ParseError> {
    match r {
        Ok(u) => Ok(u@),
        Err(e) => Err(e),
    }
}

/// Parse a UST byte stream without decoding text values.
pub fn parse_bytes<'a>(input: &'a [u8]) -> (r: Result<Ust<'a>, ParseError>)
    requires
        input@.len() < usize::MAX,
    ensures
        parse_result_view(r) == spec_parse_bytes(input@),
{
    let blocks = match split_blocks(input) {
        Ok(blocks) => blocks,
        Err(e) => return Err(e),
    };
    Ok(build_ust(blocks))
}

/// The model of a sequence of sections or an error.
pub open spec fn blocks_result_view<'a>(r: Result<Vec<Block<'a>>, ParseError>) -> Result<Seq<BlockView>, ParseError> {
    match r {
        Ok(blocks) => Ok(blocks_view(blocks@)),
        Err(e) => Err(e),
    }
}

/// The sections of the input, in source order.
fn split_blocks<'a>(input: &'a [u8]) -> (r: Result<Vec<Block<'a>>, ParseError>)
    requires
        input@.len() < usize::MAX,
    ensures
        blocks_result_view(r) == spec_blocks(input@),
{
    let ghost original = input@;
    let body = strip_utf8_bom(input);
    let ghost all = split_lines(body@);
    let mut blocks: Vec<Block<'a>> = Vec::new();
    let mut current: Option<Block<'a>> = None;
    let mut lines = Lines::new(body);
    proof {
        assert(all.take(0) =~= Seq::empty());
        assert(blocks_view(blocks@) =~= Seq::empty());
    }
    loop
        invariant
            lines.wf(),
            lines.bytes@ == body@,
            all == split_lines(body@),
            all == document_lines(original),
            original == input@,
            parse_lines(all.take(lines.yielded())) == Ok::<ParseState, ParseError>(
                ParseState { blocks: blocks_view(blocks@), current: opt_view(current) },
            ),
        ensures
            lines.yielded() == all.len(),
            parse_lines(all.take(lines.yielded())) == Ok::<ParseState, ParseError>(
                ParseState { blocks: blocks_view(blocks@), current: opt_view(current) },
            ),
        decreases all.len() - lines.yielded(),
    {
        let ghost y = lines.yielded();
        let (line_number, line) = match lines.next() {
            Some(pair) => pair,
            None => break,
        };
        proof {
            assert(all.take(y + 1).drop_last() =~= all.take(y));
            assert(all.take(y + 1).last() == all[y]);
        }
        let line = trim_line_right(line);
        match parse_line(&mut blocks, &mut current, line, line_number) {
            Ok(()) => {},
            Err(e) => {
                proof {
                    lemma_error_persists(all, y + 1, e);
                    assert(spec_blocks(original) == Err::<Seq<BlockView>, ParseError>(e));
                }
                return Err(e);
            },
        }
    }
    proof {
        assert(all.take(all.len() as int) =~= all);
    }
    let ghost before = blocks_view(blocks@);
    match current {
        Some(block) => {
            blocks.push(block);
            proof {
                assert(blocks_view(blocks@) =~= before.push(block@));
            }
        },
        None => {},
    }
    Ok(blocks)
}

/// Applies one line (its `\r` removed) to the sections read so far.
fn parse_line<'a>(
    blocks: &mut Vec<Block<'a>>,
    current: &mut Option<Block<'a>>,
    line: &'a [u8],
    line_number: usize,
) -> (r: Result<(), ParseError>)
    ensures
        match parse_step(
            ParseState { blocks: blocks_view(old(blocks)@), current: opt_view(*old(current)) },
            line@,
            line_number,
        ) {
            Ok(st) => r is Ok && st == ParseState {
                blocks: blocks_view(final(blocks)@),
                current: opt_view(*final(current)),
            },
            Err(e) => r == Err::<(), ParseError>(e),
        },
{
    if line.len() == 0 {
        return Ok(());
    }
    if line.len() >= 2 && line[0] == 0x5Bu8 && line[1] == 0x23u8 {
        if line[line.len() - 1] != 0x5Du8 {
            return Err(ParseError { line: line_number, kind: ParseErrorKind::UnterminatedHeader });
        }
        let ghost done = all_blocks(
            ParseState { blocks: blocks_view(blocks@), current: opt_view(*current) },
        );
        match current.take() {
            Some(block) => {
                let ghost prev = blocks_view(blocks@);
                blocks.push(block);
                proof {
                    assert(blocks_view(blocks@) =~= prev.push(block@));
                }
            },
            None => {},
        }
        let raw = slice_subrange(line, 2, line.len() - 1);
        if raw.len() == 0 {
            return Err(ParseError { line: line_number, kind: ParseErrorKind::EmptyHeader });
        }
        *current = Some(
            Block {
                header: Header { kind: classify_header(raw), raw },
                line: line_number,
                items: Vec::new(),
            },
        );
        proof {
            assert(blocks_view(blocks@) == done);
            assert(items_view(Seq::<Item<'a>>::empty()) =~= Seq::empty());
        }
        return Ok(());
    }
    match current.take() {
        None => Err(ParseError { line: line_number, kind: ParseErrorKind::ContentBeforeHeader }),
        Some(mut block) => {
            let ghost before = block@;
            let item = parse_item(line, line_number);
            block.items.push(item);
            proof {
                assert(items_view(block.items@) =~= before.items.push(item@));
            }
            *current = Some(block);
            Ok(())
        },
    }
}

/// The document made of these sections: the last `[#VERSION]` and
/// `[#SETTING]`, the note sections in order, and whether `[#TRACKEND]` occurs.
fn build_ust<'a>(blocks: Vec<Block<'a>>) -> (r: Ust<'a>)
    ensures
        r@ == spec_ust(blocks_view(blocks@)),
{
    let ghost bv = blocks_view(blocks@);
    let mut version: Option<VersionSection<'a>> = None;
    let mut settings: Option<SettingSection> = None;
    let mut notes: Vec<NoteBlock<'a>> = Vec::new();
    let mut track_end = false;

    let mut index: usize = 0;
    proof {
        assert(bv.take(0) =~= Seq::empty());
        assert(notes_view(notes@) =~= Seq::empty());
    }
    while index < blocks.len()
        invariant
            bv == blocks_view(blocks@),
            0 <= index <= blocks@.len(),
            opt_version_view(version) == spec_last_version(bv.take(index as int)),
            opt_setting_view(settings) == spec_last_setting(bv.take(index as int)),
            notes_view(notes@) == spec_notes(bv.take(index as int)),
            track_end == spec_has_track_end(bv.take(index as int)),
        decreases blocks@.len() - index,
    {
        let block = &blocks[index];
        proof {
            assert(bv.take(index + 1).drop_last() =~= bv.take(index as int));
            assert(bv.take(index + 1).last() == block@);
            assert(bv.take(index + 1).len() == index + 1);
        }
        let ghost prev_notes = notes_view(notes@);
        match block.header.kind {
            HeaderKind::Version => {
                version = Some(parse_version_section(index, block));
            },
            HeaderKind::Setting => {
                settings = Some(SettingSection { block_index: index });
            },
            HeaderKind::TrackEnd => {
                track_end = true;
            },
            HeaderKind::Other(_) => {},
            _ => {
                match note_kind(block.header.kind) {
                    Some(kind) => {
                        let note = NoteBlock {
                            block_index: index,
                            kind,
                            fields: parse_note_fields(block),
                        };
                        notes.push(note);
                        proof {
                            assert(notes_view(notes@) =~= prev_notes.push(note@));
                        }
                    },
                    None => {},
                }
            },
        }
        proof {
            let t = bv.take(index + 1);
            let p = bv.take(index as int);
            if block@.header.kind is TrackEnd {
                assert(t[index as int].header.kind is TrackEnd);
            } else {
                if spec_has_track_end(t) {
                    let i = choose|i: int| 0 <= i < t.len() && (#[trigger] t[i]).header.kind is TrackEnd;
                    assert(p[i] == t[i]);
                }
                if spec_has_track_end(p) {
                    let i = choose|i: int| 0 <= i < p.len() && (#[trigger] p[i]).header.kind is TrackEnd;
                    assert(t[i] == p[i]);
                }
            }
        }
        index += 1;
    }
    proof {
        assert(bv.take(index as int) =~= bv);
    }
    Ust { blocks, version, settings, notes, track_end }
}

/// An error on line `k` stays the result however many lines follow.
proof fn lemma_error_persists(all: Seq<Seq<u8>>, k: int, e: ParseError)
    requires
        0 <= k <= all.len(),
        parse_lines(all.take(k)) == Err::<ParseState, ParseError>(e),
    ensures
        parse_lines(all) == Err::<ParseState, ParseError>(e),
    decreases all.len() - k,
{
    if k == all.len() {
        assert(all.take(k) =~= all);
    } else {
        assert(all.take(k + 1).drop_last() =~= all.take(k));
        lemma_error_persists(all, k + 1, e);
    }
}

/// Parse a UTF-8 string as UST.
pub fn parse_str<'a>(input: &'a str) -> (r: Result<Ust<'a>, ParseError>)
    requires
        input.spec_bytes().len() < usize::MAX,
    ensures
        parse_result_view(r) == spec_parse_bytes(input.spec_bytes()),
{
    parse_bytes(input.as_bytes())
}

/// The note class of a header kind.
fn note_kind(kind: HeaderKind) -> (r: Option<NoteKind>)
    ensures
        r == note_kind_of(kind@),
{
    match kind {
        HeaderKind::Note(n) => Some(NoteKind::Index(n)),
        HeaderKind::Prev => Some(NoteKind::Prev),
        HeaderKind::Next => Some(NoteKind::Next),
        HeaderKind::Insert => Some(NoteKind::Insert),
        HeaderKind::Delete => Some(NoteKind::Delete),
        _ => None,
    }
}

fn parse_item<'a>(line: &'a [u8], line_number: usize) -> (r: Item<'a>)
    ensures
        r@ == spec_parse_item(line@, line_number),
{
    match parse_field(line, line_number) {
        Some(field) => Item::Field(field),
        None => Item::Raw(RawLine { bytes: line, line: line_number }),
    }
}

pub(crate) fn parse_field<'a>(line: &'a [u8], line_number: usize) -> (r: Option<Field<'a>>)
    ensures
        opt_view(r) == spec_parse_field(line@, line_number),
{
    let len = line.len();
    let mut split: usize = 0;
    while split < len && line[split] != 0x3Du8
        invariant
            0 <= split <= len,
            len == line@.len(),
            forall|j: int| 0 <= j < split ==> line@[j] != 0x3Du8,
        decreases len - split,
    {
        split += 1;
    }
    if split == len {
        proof {
            assert forall|p: int| !is_first_eq(line@, p) by {
                if 0 <= p < line@.len() && line@[p] == 0x3Du8 {
                    assert(line@[p] != 0x3Du8);
                }
            }
        }
        return None;
    }
    proof {
        assert(is_first_eq(line@, split as int));
        assert forall|p: int| is_first_eq(line@, p) implies p == split as int by {
            if p < split {
                assert(line@[p] != 0x3Du8);
            } else if p > split {
                assert(line@[split as int] != 0x3Du8);
            }
        }
    }
    let key = trim_ascii(slice_subrange(line, 0, split));
    let value = slice_subrange(line, split + 1, len);
    Some(Field { key, value, line: line_number })
}

fn parse_version_section<'a>(block_index: usize, block: &Block<'a>) -> (r: VersionSection<'a>)
    ensures
        r@ == spec_version_section(block_index, block@),
{
    let ghost items = block@.items;
    let mut version: Option<&'a [u8]> = None;
    let mut charset: Option<&'a [u8]> = None;
    let mut i: usize = 0;
    assert(items.take(0) =~= Seq::empty());
    while i < block.items.len()
        invariant
            0 <= i <= block.items@.len(),
            items == block@.items,
            items.len() == block.items@.len(),
            (opt_view(version), opt_view(charset)) == version_fields(items.take(i as int)),
        decreases block.items@.len() - i,
    {
        let item = &block.items[i];
        proof {
            assert(items.take(i + 1).drop_last() =~= items.take(i as int));
            assert(items.take(i + 1).last() == item@);
        }
        match item {
            Item::Field(field) => {
                if eq_ignore_ascii_case(field.key, "UST Version".as_bytes()) {
                    version = Some(field.value_trimmed());
                } else if eq_ignore_ascii_case(field.key, "Charset".as_bytes()) {
                    charset = Some(field.value_trimmed());
                }
            },
            Item::Raw(raw) => {
                if let Some(value) = parse_raw_version(raw.bytes) {
                    version = Some(value);
                }
            },
        }
        i += 1;
    }
    assert(items.take(i as int) =~= items);
    VersionSection { block_index, version, charset }
}

fn parse_raw_version<'a>(line: &'a [u8]) -> (r: Option<&'a [u8]>)
    ensures
        opt_view(r) == spec_parse_raw_version(line@),
{
    let prefix = "UST Version".as_bytes();
    if line.len() < prefix.len() || !eq_ignore_ascii_case(
        slice_subrange(line, 0, prefix.len()),
        prefix,
    ) {
        return None;
    }
    let rest = trim_ascii(slice_subrange(line, prefix.len(), line.len()));
    if rest.len() > 0 && rest[0] == 0x3Du8 {
        let after = slice_subrange(rest, 1, rest.len());
        assert(after@ =~= rest@.drop_first());
        Some(trim_ascii(after))
    } else {
        Some(rest)
    }
}

/// The typed fields after one more field of a note section.
fn update_note_fields<'a>(fields: NoteFields<'a>, field: &Field<'a>) -> (r: NoteFields<'a>)
    ensures
        r@ == note_field_update(fields@, field@),
{
    let key = field.key;
    let value = field.value_trimmed();
    let mut f = fields;
    if eq_ignore_ascii_case(key, "Length".as_bytes()) {
        f.length = field.parse_u32();
    } else if eq_ignore_ascii_case(key, "Duration".as_bytes()) {
        f.duration = field.parse_u32();
    } else if eq_ignore_ascii_case(key, "Delta".as_bytes()) {
        f.delta = field.parse_i32();
    } else if eq_ignore_ascii_case(key, "Lyric".as_bytes()) {
        if value.len() > 0 && value[0] == 0x3Fu8 {
            let stripped = slice_subrange(value, 1, value.len());
            assert(stripped@ =~= value@.drop_first());
            f.lyric = Some(stripped);
        } else {
            f.lyric = Some(value);
        }
    } else if eq_ignore_ascii_case(key, "NoteNum".as_bytes()) {
        f.note_num = field.parse_i32();
    } else if eq_ignore_ascii_case(key, "Tempo".as_bytes()) {
        f.tempo = Some(value);
    } else if eq_ignore_ascii_case(key, "Velocity".as_bytes()) {
        f.velocity = field.parse_i32();
    } else if eq_ignore_ascii_case(key, "Intensity".as_bytes()) {
        f.intensity = field.parse_i32();
    } else if eq_ignore_ascii_case(key, "Modulation".as_bytes()) || eq_ignore_ascii_case(
        key,
        "Moduration".as_bytes(),
    ) {
        f.modulation = field.parse_i32();
    } else if eq_ignore_ascii_case(key, "Flags".as_bytes()) {
        f.flags = Some(value);
    } else if eq_ignore_ascii_case(key, "PreUtterance".as_bytes()) {
        f.pre_utterance = Some(value);
    } else if eq_ignore_ascii_case(key, "VoiceOverlap".as_bytes()) {
        f.voice_overlap = Some(value);
    } else if eq_ignore_ascii_case(key, "StartPoint".as_bytes()) {
        f.start_point = Some(value);
    } else if eq_ignore_ascii_case(key, "Envelope".as_bytes()) {
        f.envelope = Some(value);
    } else if eq_ignore_ascii_case(key, "PBS".as_bytes()) {
        f.pbs = Some(value);
    } else if eq_ignore_ascii_case(key, "PBW".as_bytes()) {
        f.pbw = Some(value);
    } else if eq_ignore_ascii_case(key, "PBY".as_bytes()) {
        f.pby = Some(value);
    } else if eq_ignore_ascii_case(key, "PBM".as_bytes()) {
        f.pbm = Some(value);
    } else if eq_ignore_ascii_case(key, "Pitches".as_bytes()) || eq_ignore_ascii_case(
        key,
        "Piches".as_bytes(),
    ) || eq_ignore_ascii_case(key, "PitchBend".as_bytes()) {
        f.pitches = Some(value);
    } else if eq_ignore_ascii_case(key, "VBR".as_bytes()) {
        f.vbr = Some(value);
    }
    f
}

fn parse_note_fields<'a>(block: &Block<'a>) -> (r: NoteFields<'a>)
    ensures
        r@ == spec_note_fields(block@.items),
{
    let ghost items = block@.items;
    let mut fields = NoteFields {
        length: None,
        duration: None,
        delta: None,
        lyric: None,
        note_num: None,
        tempo: None,
        velocity: None,
        intensity: None,
        modulation: None,
        flags: None,
        pre_utterance: None,
        voice_overlap: None,
        start_point: None,
        envelope: None,
        pbs: None,
        pbw: None,
        pby: None,
        pbm: None,
        pitches: None,
        vbr: None,
    };
    let mut i: usize = 0;
    assert(items.take(0) =~= Seq::empty());
    while i < block.items.len()
        invariant
            0 <= i <= block.items@.len(),
            items == block@.items,
            items.len() == block.items@.len(),
            fields@ == spec_note_fields(items.take(i as int)),
        decreases block.items@.len() - i,
    {
        let item = &block.items[i];
        proof {
            assert(items.take(i + 1).drop_last() =~= items.take(i as int));
            assert(items.take(i + 1).last() == item@);
        }
        match item {
            Item::Field(field) => {
                fields = update_note_fields(fields, field);
            },
            Item::Raw(_) => {},
        }
        i += 1;
    }
    assert(items.take(i as int) =~= items);
    fields
}

fn classify_header<'a>(raw: &'a [u8]) -> (r: HeaderKind<'a>)
    ensures
        r@ == spec_classify_header(raw@),
{
    if eq_ignore_ascii_case(raw, "VERSION".as_bytes()) {
        HeaderKind::Version
    } else if eq_ignore_ascii_case(raw, "SETTING".as_bytes()) {
        HeaderKind::Setting
    } else if eq_ignore_ascii_case(raw, "TRACKEND".as_bytes()) {
        HeaderKind::TrackEnd
    } else if eq_ignore_ascii_case(raw, "PREV".as_bytes()) {
        HeaderKind::Prev
    } else if eq_ignore_ascii_case(raw, "NEXT".as_bytes()) {
        HeaderKind::Next
    } else if eq_ignore_ascii_case(raw, "INSERT".as_bytes()) {
        HeaderKind::Insert
    } else if eq_ignore_ascii_case(raw, "DELETE".as_bytes()) {
        HeaderKind::Delete
    } else if all_ascii_digits(raw) {
        match parse_ascii_u32(raw) {
            Some(n) => HeaderKind::Note(n),
            None => HeaderKind::Other(raw),
        }
    } else {
        HeaderKind::Other(raw)
    }
}

} // verus!
