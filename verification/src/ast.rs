//! The byte-level syntax tree of a UST document, and its mathematical model.
//!
//! Every type that borrows from the input has a view in which the borrowed
//! byte slices become `Seq<u8>`; contracts are stated over those views.
use vstd::prelude::*;

verus! {

// ---------------------------------------------------------------------------
// Models
// ---------------------------------------------------------------------------

/// Model of `HeaderKind`.
pub ghost enum HeaderKindView {
    Version,
    Setting,
    TrackEnd,
    Note(u32),
    Prev,
    Next,
    Insert,
    Delete,
    Other(Seq<u8>),
}

/// Model of `Header`.
pub ghost struct HeaderView {
    pub kind: HeaderKindView,
    pub raw: Seq<u8>,
}

/// Model of `Field`.
pub ghost struct FieldView {
    pub key: Seq<u8>,
    pub value: Seq<u8>,
    pub line: usize,
}

/// Model of `RawLine`.
pub ghost struct RawLineView {
    pub bytes: Seq<u8>,
    pub line: usize,
}

/// Model of `Item`.
pub ghost enum ItemView {
    Field(FieldView),
    Raw(RawLineView),
}

/// Model of `Block`.
pub ghost struct BlockView {
    pub header: HeaderView,
    pub line: usize,
    pub items: Seq<ItemView>,
}

/// Model of `VersionSection`.
pub ghost struct VersionView {
    pub block_index: usize,
    pub version: Option<Seq<u8>>,
    pub charset: Option<Seq<u8>>,
}

/// Model of `NoteFields`.
pub ghost struct NoteFieldsView {
    pub length: Option<u32>,
    pub duration: Option<u32>,
    pub delta: Option<i32>,
    pub lyric: Option<Seq<u8>>,
    pub note_num: Option<i32>,
    pub tempo: Option<Seq<u8>>,
    pub velocity: Option<i32>,
    pub intensity: Option<i32>,
    pub modulation: Option<i32>,
    pub flags: Option<Seq<u8>>,
    pub pre_utterance: Option<Seq<u8>>,
    pub voice_overlap: Option<Seq<u8>>,
    pub start_point: Option<Seq<u8>>,
    pub envelope: Option<Seq<u8>>,
    pub pbs: Option<Seq<u8>>,
    pub pbw: Option<Seq<u8>>,
    pub pby: Option<Seq<u8>>,
    pub pbm: Option<Seq<u8>>,
    pub pitches: Option<Seq<u8>>,
    pub vbr: Option<Seq<u8>>,
}

/// Model of `NoteBlock`.
pub ghost struct NoteBlockView {
    pub block_index: usize,
    pub kind: NoteKind,
    pub fields: NoteFieldsView,
}

/// Model of `Ust`.
pub ghost struct UstView {
    pub blocks: Seq<BlockView>,
    pub version: Option<VersionView>,
    pub settings: Option<usize>,
    pub notes: Seq<NoteBlockView>,
    pub track_end: bool,
}

/// The model of an optional value.
pub open spec fn opt_view<T: View>(o: Option<T>) -> Option<T::V> {
    match o {
        Some(v) => Some(v@),
        None => None,
    }
}

/// The contents of an optional byte slice.
pub open spec fn opt_bytes(o: Option<&[u8]>) -> Option<Seq<u8>> {
    match o {
        Some(b) => Some(b@),
        None => None,
    }
}

// ---------------------------------------------------------------------------
// Syntax tree
// ---------------------------------------------------------------------------

/// Parsed UST document.
#[derive(Debug, Clone, PartialEq, Eq)]
#[non_exhaustive]
pub struct Ust<'a> {
    /// All sections in source order, including unknown sections.
    pub blocks: Vec<Block<'a>>,
    /// Parsed version section, when present.
    pub version: Option<VersionSection<'a>>,
    /// Parsed global settings section, when present.
    pub settings: Option<SettingSection>,
    /// Note and plugin-note blocks in source order.
    pub notes: Vec<NoteBlock<'a>>,
    /// Whether a `[#TRACKEND]` marker was found.
    pub track_end: bool,
}

/// A UST section.
#[derive(Debug, Clone, PartialEq, Eq)]
#[non_exhaustive]
pub struct Block<'a> {
    pub header: Header<'a>,
    pub line: usize,
    pub items: Vec<Item<'a>>,
}

/// A parsed section header.
#[derive(Debug, Clone, Copy, PartialEq, Eq)]
#[non_exhaustive]
pub struct Header<'a> {
    pub kind: HeaderKind<'a>,
    pub raw: &'a [u8],
}

/// Known UST section kinds.
#[derive(Debug, Clone, Copy, PartialEq, Eq)]
#[non_exhaustive]
pub enum HeaderKind<'a> {
    Version,
    Setting,
    TrackEnd,
    Note(u32),
    Prev,
    Next,
    Insert,
    Delete,
    Other(&'a [u8]),
}

/// A line inside a section.
#[derive(Debug, Clone, Copy, PartialEq, Eq)]
#[non_exhaustive]
pub enum Item<'a> {
    Field(Field<'a>),
    Raw(RawLine<'a>),
}

/// `key=value` line.
#[derive(Debug, Clone, Copy, PartialEq, Eq)]
#[non_exhaustive]
pub struct Field<'a> {
    pub key: &'a [u8],
    pub value: &'a [u8],
    pub line: usize,
}

/// Non-`key=value` line preserved verbatim.
#[derive(Debug, Clone, Copy, PartialEq, Eq)]
#[non_exhaustive]
pub struct RawLine<'a> {
    pub bytes: &'a [u8],
    pub line: usize,
}

/// `[#VERSION]` content.
#[derive(Debug, Clone, Copy, PartialEq, Eq)]
#[non_exhaustive]
pub struct VersionSection<'a> {
    pub block_index: usize,
    pub version: Option<&'a [u8]>,
    pub charset: Option<&'a [u8]>,
}

/// `[#SETTING]` content.
#[derive(Debug, Clone, Copy, PartialEq, Eq)]
#[non_exhaustive]
pub struct SettingSection {
    pub block_index: usize,
}

/// Note or plugin-note block.
#[derive(Debug, Clone, PartialEq, Eq)]
#[non_exhaustive]
pub struct NoteBlock<'a> {
    pub block_index: usize,
    pub kind: NoteKind,
    pub fields: NoteFields<'a>,
}

/// Note header class.
#[derive(Debug, Clone, Copy, PartialEq, Eq)]
#[non_exhaustive]
pub enum NoteKind {
    Index(u32),
    Prev,
    Next,
    Insert,
    Delete,
}

/// Commonly used typed note fields.
#[derive(Debug, Clone, Copy, Default, PartialEq, Eq)]
#[non_exhaustive]
pub struct NoteFields<'a> {
    pub length: Option<u32>,
    pub duration: Option<u32>,
    pub delta: Option<i32>,
    pub lyric: Option<&'a [u8]>,
    pub note_num: Option<i32>,
    pub tempo: Option<&'a [u8]>,
    pub velocity: Option<i32>,
    pub intensity: Option<i32>,
    pub modulation: Option<i32>,
    pub flags: Option<&'a [u8]>,
    pub pre_utterance: Option<&'a [u8]>,
    pub voice_overlap: Option<&'a [u8]>,
    pub start_point: Option<&'a [u8]>,
    pub envelope: Option<&'a [u8]>,
    pub pbs: Option<&'a [u8]>,
    pub pbw: Option<&'a [u8]>,
    pub pby: Option<&'a [u8]>,
    pub pbm: Option<&'a [u8]>,
    pub pitches: Option<&'a [u8]>,
    pub vbr: Option<&'a [u8]>,
}

/// Structural parse error.
#[derive(Debug, Clone, PartialEq, Eq)]
#[non_exhaustive]
pub struct ParseError {
    pub line: usize,
    pub kind: ParseErrorKind,
}

#[derive(Debug, Clone, PartialEq, Eq)]
#[non_exhaustive]
pub enum ParseErrorKind {
    ContentBeforeHeader,
    EmptyHeader,
    UnterminatedHeader,
}

impl ParseError {
    /// An error of the given kind on the given line.
    pub fn new(line: usize, kind: ParseErrorKind) -> (r: Self)
        ensures
            r.line == line,
            r.kind == kind,
    {
        ParseError { line, kind }
    }
}

// ---------------------------------------------------------------------------
// Views
// ---------------------------------------------------------------------------

impl<'a> View for HeaderKind<'a> {
    type V = HeaderKindView;

    open spec fn view(&self) -> HeaderKindView {
        match *self {
            HeaderKind::Version => HeaderKindView::Version,
            HeaderKind::Setting => HeaderKindView::Setting,
            HeaderKind::TrackEnd => HeaderKindView::TrackEnd,
            HeaderKind::Note(n) => HeaderKindView::Note(n),
            HeaderKind::Prev => HeaderKindView::Prev,
            HeaderKind::Next => HeaderKindView::Next,
            HeaderKind::Insert => HeaderKindView::Insert,
            HeaderKind::Delete => HeaderKindView::Delete,
            HeaderKind::Other(raw) => HeaderKindView::Other(raw@),
        }
    }
}

impl<'a> View for Header<'a> {
    type V = HeaderView;

    open spec fn view(&self) -> HeaderView {
        HeaderView { kind: self.kind@, raw: self.raw@ }
    }
}

impl<'a> View for Field<'a> {
    type V = FieldView;

    open spec fn view(&self) -> FieldView {
        FieldView { key: self.key@, value: self.value@, line: self.line }
    }
}

impl<'a> View for RawLine<'a> {
    type V = RawLineView;

    open spec fn view(&self) -> RawLineView {
        RawLineView { bytes: self.bytes@, line: self.line }
    }
}

impl<'a> View for Item<'a> {
    type V = ItemView;

    open spec fn view(&self) -> ItemView {
        match *self {
            Item::Field(f) => ItemView::Field(f@),
            Item::Raw(r) => ItemView::Raw(r@),
        }
    }
}

/// The models of a sequence of items.
pub open spec fn items_view<'a>(items: Seq<Item<'a>>) -> Seq<ItemView> {
    items.map_values(|it: Item<'a>| it@)
}

impl<'a> View for Block<'a> {
    type V = BlockView;

    open spec fn view(&self) -> BlockView {
        BlockView { header: self.header@, line: self.line, items: items_view(self.items@) }
    }
}

/// The models of a sequence of blocks.
pub open spec fn blocks_view<'a>(blocks: Seq<Block<'a>>) -> Seq<BlockView> {
    blocks.map_values(|b: Block<'a>| b@)
}

impl<'a> View for VersionSection<'a> {
    type V = VersionView;

    open spec fn view(&self) -> VersionView {
        VersionView {
            block_index: self.block_index,
            version: opt_bytes(self.version),
            charset: opt_bytes(self.charset),
        }
    }
}

impl View for SettingSection {
    type V = usize;

    open spec fn view(&self) -> usize {
        self.block_index
    }
}

impl<'a> View for NoteFields<'a> {
    type V = NoteFieldsView;

    open spec fn view(&self) -> NoteFieldsView {
        NoteFieldsView {
            length: self.length,
            duration: self.duration,
            delta: self.delta,
            lyric: opt_bytes(self.lyric),
            note_num: self.note_num,
            tempo: opt_bytes(self.tempo),
            velocity: self.velocity,
            intensity: self.intensity,
            modulation: self.modulation,
            flags: opt_bytes(self.flags),
            pre_utterance: opt_bytes(self.pre_utterance),
            voice_overlap: opt_bytes(self.voice_overlap),
            start_point: opt_bytes(self.start_point),
            envelope: opt_bytes(self.envelope),
            pbs: opt_bytes(self.pbs),
            pbw: opt_bytes(self.pbw),
            pby: opt_bytes(self.pby),
            pbm: opt_bytes(self.pbm),
            pitches: opt_bytes(self.pitches),
            vbr: opt_bytes(self.vbr),
        }
    }
}

impl<'a> View for NoteBlock<'a> {
    type V = NoteBlockView;

    open spec fn view(&self) -> NoteBlockView {
        NoteBlockView { block_index: self.block_index, kind: self.kind, fields: self.fields@ }
    }
}

/// What the model of a note block says of its public fields: its class and
/// its typed fields. (Its section index is what `NoteBlock::block_index`
/// returns.)
pub proof fn lemma_note_block_view<'a>(n: NoteBlock<'a>)
    ensures
        n@.kind == n.kind,
        n@.fields == n.fields@,
{
}

/// What the model of a version section says of its public fields: the
/// declared version and charset.
pub proof fn lemma_version_section_view<'a>(v: VersionSection<'a>)
    ensures
        v@.version == opt_bytes(v.version),
        v@.charset == opt_bytes(v.charset),
{
}

/// The models of a sequence of note blocks.
pub open spec fn notes_view<'a>(notes: Seq<NoteBlock<'a>>) -> Seq<NoteBlockView> {
    notes.map_values(|n: NoteBlock<'a>| n@)
}

/// The model of an optional version section.
pub open spec fn opt_version_view<'a>(v: Option<VersionSection<'a>>) -> Option<VersionView> {
    match v {
        Some(s) => Some(s@),
        None => None,
    }
}

/// The model of an optional settings section.
pub open spec fn opt_setting_view(s: Option<SettingSection>) -> Option<usize> {
    match s {
        Some(s) => Some(s@),
        None => None,
    }
}

impl<'a> View for Ust<'a> {
    type V = UstView;

    open spec fn view(&self) -> UstView {
        UstView {
            blocks: blocks_view(self.blocks@),
            version: opt_version_view(self.version),
            settings: opt_setting_view(self.settings),
            notes: notes_view(self.notes@),
            track_end: self.track_end,
        }
    }
}

} // verus!
