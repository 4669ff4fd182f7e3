//! Lookups on a parsed document: fields by key, sections by index, typed
//! values of fields.
use vstd::prelude::*;
use vstd::string::StringSliceAdditionalSpecFns;
use crate::ast::{
    opt_view, Block, BlockView, Field, FieldView, HeaderKind, Item, ItemView, NoteBlock,
    SettingSection, Ust,
};
use crate::bytes::{eq_ignore_ascii_case, eq_ignore_case, trim, trim_ascii};
use crate::number::{parse_ascii_i32, parse_ascii_u32, spec_parse_i32, spec_parse_u32};

verus! {

/// The first field among `items` whose key equals `key` up to ASCII case.
pub open spec fn find_field(items: Seq<ItemView>, key: Seq<u8>) -> Option<FieldView>
    decreases items.len(),
{
    if items.len() == 0 {
        None
    } else {
        match items[0] {
            ItemView::Field(f) => if eq_ignore_case(f.key, key) {
                Some(f)
            } else {
                find_field(items.drop_first(), key)
            },
            ItemView::Raw(_) => find_field(items.drop_first(), key),
        }
    }
}

/// The section at `index`, if there is one.
pub open spec fn block_at(blocks: Seq<BlockView>, index: usize) -> Option<BlockView> {
    if index < blocks.len() {
        Some(blocks[index as int])
    } else {
        None
    }
}

/// The field that `key` finds in the `[#SETTING]` section.
pub open spec fn spec_setting(blocks: Seq<BlockView>, settings: Option<usize>, key: Seq<u8>) -> Option<FieldView> {
    match settings {
        Some(i) => match block_at(blocks, i) {
            Some(b) => find_field(b.items, key),
            None => None,
        },
        None => None,
    }
}

/// The first `Charset` declared in a `[#VERSION]` section among `blocks`,
/// trimmed: the first such field of the first such section that has one.
pub open spec fn first_version_charset(blocks: Seq<BlockView>) -> Option<Seq<u8>>
    decreases blocks.len(),
{
    if blocks.len() == 0 {
        None
    } else if blocks[0].header.kind is Version && find_field(
        blocks[0].items,
        "Charset".spec_bytes(),
    ) is Some {
        Some(trim(find_field(blocks[0].items, "Charset".spec_bytes())->Some_0.value))
    } else {
        first_version_charset(blocks.drop_first())
    }
}

/// The charset that a document declares: the first `Charset` of its
/// `[#VERSION]` sections, else the trimmed `Charset` setting.
pub open spec fn spec_charset(blocks: Seq<BlockView>, settings: Option<usize>) -> Option<Seq<u8>> {
    match first_version_charset(blocks) {
        Some(c) => Some(c),
        None => match spec_setting(blocks, settings, "Charset".spec_bytes()) {
            Some(f) => Some(trim(f.value)),
            None => None,
        },
    }
}

/// What `Field::parse_bool` accepts: `1`, `0`, and `true` or `false` in any
/// ASCII case.
pub open spec fn spec_parse_bool(v: Seq<u8>) -> Option<bool> {
    if v == seq![0x31u8] {
        Some(true)
    } else if v == seq![0x30u8] {
        Some(false)
    } else if eq_ignore_case(v, "true".spec_bytes()) {
        Some(true)
    } else if eq_ignore_case(v, "false".spec_bytes()) {
        Some(false)
    } else {
        None
    }
}

impl<'a> Field<'a> {
    /// The value without leading and trailing ASCII whitespace.
    pub fn value_trimmed(&self) -> (r: &'a [u8])
        ensures
            r@ == trim(self.value@),
    {
        trim_ascii(self.value)
    }

    /// The trimmed value as an `i32`, when it is one.
    pub fn parse_i32(&self) -> (r: Option<i32>)
        ensures
            r == spec_parse_i32(trim(self.value@)),
    {
        parse_ascii_i32(self.value_trimmed())
    }

    /// The trimmed value as a `u32`, when it is one.
    pub fn parse_u32(&self) -> (r: Option<u32>)
        ensures
            r == spec_parse_u32(trim(self.value@)),
    {
        parse_ascii_u32(self.value_trimmed())
    }

    /// The trimmed value as a boolean, when it is one.
    pub fn parse_bool(&self) -> (r: Option<bool>)
        ensures
            r == spec_parse_bool(trim(self.value@)),
    {
        let value = self.value_trimmed();
        if value.len() == 1 && value[0] == 0x31u8 {
            assert(value@ =~= seq![0x31u8]);
            Some(true)
        } else if value.len() == 1 && value[0] == 0x30u8 {
            assert(value@ =~= seq![0x30u8]);
            Some(false)
        } else {
            proof {
                if value@ == seq![0x31u8] {
                    assert(value@[0] == 0x31u8);
                }
                if value@ == seq![0x30u8] {
                    assert(value@[0] == 0x30u8);
                }
            }
            if eq_ignore_ascii_case(value, "true".as_bytes()) {
                Some(true)
            } else if eq_ignore_ascii_case(value, "false".as_bytes()) {
                Some(false)
            } else {
                None
            }
        }
    }
}

impl<'a> Block<'a> {
    /// The first field whose key equals `key`, ignoring ASCII case.
    pub fn field(&self, key: &[u8]) -> (r: Option<&Field<'a>>)
        ensures
            opt_view(r) == find_field(self@.items, key@),
    {
        let ghost items = self@.items;
        let mut i: usize = 0;
        assert(items.skip(0) =~= items);
        while i < self.items.len()
            invariant
                0 <= i <= self.items@.len(),
                items == self@.items,
                items.len() == self.items@.len(),
                find_field(items, key@) == find_field(items.skip(i as int), key@),
            decreases self.items@.len() - i,
        {
            let item = &self.items[i];
            proof {
                assert(items.skip(i as int)[0] == self.items@[i as int]@);
                assert(items.skip(i as int).drop_first() =~= items.skip(i + 1));
            }
            match item {
                Item::Field(field) => {
                    if eq_ignore_ascii_case(field.key, key) {
                        return Some(field);
                    }
                },
                Item::Raw(_) => {},
            }
            i += 1;
        }
        None
    }
}

impl SettingSection {
    fn field_from_block<'a, 'b>(&self, block: &'b Block<'a>, key: &[u8]) -> (r: Option<&'b Field<'a>>)
        ensures
            opt_view(r) == find_field(block@.items, key@),
    {
        block.field(key)
    }
}

impl<'a> Ust<'a> {
    /// Finds a setting by byte key.
    pub fn setting(&self, key: &[u8]) -> (r: Option<&Field<'a>>)
        ensures
            opt_view(r) == spec_setting(self@.blocks, self@.settings, key@),
    {
        self.settings_field(key)
    }

    /// Returns the parsed `[#VERSION]` block, when present.
    pub fn version_block(&self) -> (r: Option<&Block<'a>>)
        ensures
            opt_view(r) == match self@.version {
                Some(v) => block_at(self@.blocks, v.block_index),
                None => None,
            },
    {
        match &self.version {
            Some(v) => self.block_at_index(v.block_index),
            None => None,
        }
    }

    /// Returns the parsed `[#SETTING]` block, when present.
    pub fn settings_block(&self) -> (r: Option<&Block<'a>>)
        ensures
            opt_view(r) == match self@.settings {
                Some(i) => block_at(self@.blocks, i),
                None => None,
            },
    {
        match self.settings {
            Some(s) => self.block_at_index(s.block_index),
            None => None,
        }
    }

    /// Returns the source block for a note object produced by this document.
    pub fn note_block(&self, note: &NoteBlock<'a>) -> (r: Option<&Block<'a>>)
        ensures
            opt_view(r) == block_at(self@.blocks, note@.block_index),
    {
        self.block_at_index(note.block_index)
    }

    /// Returns the first declared charset label from the parsed document.
    pub fn charset(&self) -> (r: Option<&'a [u8]>)
        ensures
            opt_view(r) == spec_charset(self@.blocks, self@.settings),
    {
        let ghost bv = self@.blocks;
        let mut i: usize = 0;
        assert(bv.skip(0) =~= bv);
        while i < self.blocks.len()
            invariant
                0 <= i <= self.blocks@.len(),
                bv == self@.blocks,
                bv.len() == self.blocks@.len(),
                first_version_charset(bv) == first_version_charset(bv.skip(i as int)),
            decreases self.blocks@.len() - i,
        {
            let block = &self.blocks[i];
            proof {
                assert(bv.skip(i as int)[0] == block@);
                assert(bv.skip(i as int).drop_first() =~= bv.skip(i + 1));
            }
            match block.header.kind {
                HeaderKind::Version => {
                    if let Some(field) = block.field("Charset".as_bytes()) {
                        return Some(field.value_trimmed());
                    }
                },
                _ => {},
            }
            i += 1;
        }
        match self.setting("Charset".as_bytes()) {
            Some(field) => Some(field.value_trimmed()),
            None => None,
        }
    }

    fn block_at_index(&self, index: usize) -> (r: Option<&Block<'a>>)
        ensures
            opt_view(r) == block_at(self@.blocks, index),
    {
        if index < self.blocks.len() {
            Some(&self.blocks[index])
        } else {
            None
        }
    }

    fn setting_block(&self) -> (r: Option<&Block<'a>>)
        ensures
            opt_view(r) == match self@.settings {
                Some(i) => block_at(self@.blocks, i),
                None => None,
            },
    {
        self.settings_block()
    }

    fn settings_field(&self, key: &[u8]) -> (r: Option<&Field<'a>>)
        ensures
            opt_view(r) == spec_setting(self@.blocks, self@.settings, key@),
    {
        let block = match self.setting_block() {
            Some(b) => b,
            None => return None,
        };
        match self.settings {
            Some(s) => s.field_from_block(block, key),
            None => None,
        }
    }
}

impl<'a> NoteBlock<'a> {
    /// Returns the zero-based block index in the original document.
    pub fn block_index(&self) -> (r: usize)
        ensures
            r == self@.block_index,
    {
        self.block_index
    }

    /// Finds a field in this note's source block.
    pub fn field<'b>(&self, key: &[u8], ust: &'b Ust<'a>) -> (r: Option<&'b Field<'a>>)
        ensures
            opt_view(r) == match block_at(ust@.blocks, self@.block_index) {
                Some(b) => find_field(b.items, key@),
                None => None,
            },
    {
        match ust.note_block(self) {
            Some(block) => block.field(key),
            None => None,
        }
    }
}

} // verus!
