//! Charset detection and decoding of UST bytes into text.
//!
//! Detection is this crate's own logic. Looking a label up and decoding are
//! done by `encoding_rs`; the library knows an encoding by its name.
use std::borrow::Cow;
use encoding_rs::{Encoding, SHIFT_JIS};
use vstd::prelude::*;
use vstd::string::StringSliceAdditionalSpecFns;
use crate::ast::{opt_view, Field};
use crate::bytes::{eq_ignore_ascii_case, eq_ignore_case, strip_bom, strip_utf8_bom, trim, trim_cr, trim_line_right};
use crate::lines::{split_lines, Lines};
use crate::model::{document_lines, spec_parse_field};
use crate::parse::parse_field;

verus! {

/// `encoding_rs::Encoding`, an opaque singleton per supported encoding.
#[verifier::external_type_specification]
#[verifier::external_body]
pub struct ExEncoding(Encoding);

/// Name of the encoding that `Encoding::for_label` finds for a label (after
/// ASCII-lowercasing and trimming whitespace, per the WHATWG Encoding
/// Standard), or `None` when the label is unknown.
pub uninterp spec fn label_encoding(label: Seq<u8>) -> Option<Seq<char>>;

/// What `Encoding::decode` gives for the named encoding and these bytes:
/// the decoded text and whether malformed sequences were replaced.
pub uninterp spec fn decoding(encoding: Seq<char>, bytes: Seq<u8>) -> (Seq<char>, bool);

/// An encoding of `encoding_rs` together with its name.
///
/// The fields are private and only `encoding_for_label` and `shift_jis` build
/// a value, from one `&'static Encoding` and that encoding's `name()`; so the
/// name always is the name of the encoding held.
#[derive(Debug, Clone, Copy)]
pub struct TextEncoding {
    name: &'static str,
    encoding: &'static Encoding,
}

impl View for TextEncoding {
    type V = Seq<char>;

    closed spec fn view(&self) -> Seq<char> {
        self.name@
    }
}

impl TextEncoding {
    /// The `encoding_rs` encoding held, the one whose name is `self@`; it is
    /// what `decode_text` decodes with.
    pub closed spec fn held(&self) -> &'static Encoding {
        self.encoding
    }

    /// The encoding's name, as `Encoding::name` gives it (e.g. `Shift_JIS`).
    pub fn name(&self) -> (r: &'static str)
        ensures
            r@ == self@,
    {
        self.name
    }

    /// The `encoding_rs` encoding itself.
    pub fn encoding(&self) -> (r: &'static Encoding)
        ensures
            r == self.held(),
    {
        self.encoding
    }
}

/// Calls `Encoding::for_label` and keeps the name of the encoding found.
/// Claimed: the result's name is `label_encoding(label)`, a function of the
/// label bytes alone.
#[verifier::external_body]
fn encoding_for_label(label: &[u8]) -> (r: Option<TextEncoding>)
    ensures
        opt_view(r) == label_encoding(label@),
{
    match Encoding::for_label(label) {
        Some(encoding) => Some(TextEncoding { name: encoding.name(), encoding }),
        None => None,
    }
}

/// The `SHIFT_JIS` static of `encoding_rs`. Claimed: its name is `Shift_JIS`,
/// as the static's initializer in the source states.
#[verifier::external_body]
fn shift_jis() -> (r: TextEncoding)
    ensures
        r@ == "Shift_JIS"@,
{
    TextEncoding { name: SHIFT_JIS.name(), encoding: SHIFT_JIS }
}

/// Calls `Encoding::decode` (with BOM sniffing, malformed sequences replaced)
/// and keeps the text and the error flag. Claimed: they are
/// `decoding(encoding, bytes)`. `decode` panics when its buffer-size
/// computation (about three output bytes per input byte) overflows, so
/// inputs longer than a quarter of `isize::MAX` are left out.
#[verifier::external_body]
fn decode_with<'a>(encoding: TextEncoding, bytes: &'a [u8]) -> (r: (Cow<'a, str>, bool))
    requires
        bytes@.len() <= isize::MAX / 4,
    ensures
        (r.0@, r.1) == decoding(encoding@, bytes@),
{
    let (text, _, had_errors) = encoding.encoding.decode(bytes);
    (text, had_errors)
}

/// `Clone` of `Cow`, which `#[derive(Clone)]` calls for the decoded text.
/// Nothing is claimed of the copy.
pub assume_specification<'a, B>[ <Cow<'a, B> as Clone>::clone ](c: &Cow<'a, B>) -> Cow<'a, B>
    where B: ?Sized + std::borrow::ToOwned;

/// Result of decoding a UST byte stream into text.
#[derive(Debug, Clone)]
#[non_exhaustive]
pub struct DecodedText<'a> {
    pub text: Cow<'a, str>,
    pub encoding: TextEncoding,
    pub had_errors: bool,
}

/// A declared `Charset=` among the first `budget` non-empty lines of `lines`
/// (each without its `\r`), trimmed.
pub open spec fn charset_in_lines(lines: Seq<Seq<u8>>, budget: nat) -> Option<Seq<u8>>
    decreases lines.len(),
{
    if lines.len() == 0 {
        None
    } else {
        let line = trim_cr(lines[0]);
        if line.len() == 0 {
            charset_in_lines(lines.drop_first(), budget)
        } else if budget == 0 {
            None
        } else {
            match spec_parse_field(line, 0) {
                Some(f) if eq_ignore_case(f.key, "Charset".spec_bytes()) => Some(trim(f.value)),
                _ => charset_in_lines(lines.drop_first(), (budget - 1) as nat),
            }
        }
    }
}

/// The charset label declared in the first ten non-empty lines.
pub open spec fn spec_detect_charset(bytes: Seq<u8>) -> Option<Seq<u8>> {
    charset_in_lines(document_lines(bytes), 10)
}

/// The encoding name chosen for an optional charset label: the label's
/// encoding when it names one, else Shift_JIS.
pub open spec fn chosen_encoding(label: Option<Seq<u8>>) -> Seq<char> {
    match label {
        Some(l) => match label_encoding(l) {
            Some(name) => name,
            None => "Shift_JIS"@,
        },
        None => "Shift_JIS"@,
    }
}

/// Detect a declared `Charset=` label by scanning the first ten non-empty lines.
///
/// Classic tools often read the beginning as Shift_JIS-compatible ASCII first,
/// then choose the declared encoding. This function follows that practice.
pub fn detect_charset_label(bytes: &[u8]) -> (r: Option<&[u8]>)
    requires
        bytes@.len() < usize::MAX,
    ensures
        opt_view(r) == spec_detect_charset(bytes@),
{
    let body = strip_utf8_bom(bytes);
    let ghost all = split_lines(body@);
    let ghost total = spec_detect_charset(bytes@);
    let mut inspected: usize = 0;
    let mut lines = Lines::new(body);
    assert(all.skip(0) =~= all);
    loop
        invariant
            lines.wf(),
            lines.bytes@ == body@,
            all == split_lines(body@),
            total == spec_detect_charset(bytes@),
            0 <= inspected <= 10,
            total == charset_in_lines(all.skip(lines.yielded()), (10 - inspected) as nat),
        decreases all.len() - lines.yielded(),
    {
        let ghost y = lines.yielded();
        let (_, line) = match lines.next() {
            Some(pair) => pair,
            None => {
                assert(all.skip(y).len() == 0);
                return None;
            },
        };
        proof {
            assert(all.skip(y)[0] == all[y]);
            assert(all.skip(y).drop_first() =~= all.skip(y + 1));
        }
        let line = trim_line_right(line);
        if line.len() == 0 {
            continue;
        }
        if inspected == 10 {
            return None;
        }
        inspected += 1;
        let field: Field = match parse_field(line, 0) {
            Some(field) => field,
            None => continue,
        };
        if eq_ignore_ascii_case(field.key, "Charset".as_bytes()) {
            return Some(field.value_trimmed());
        }
    }
}

/// The encoding found for a label, or Shift_JIS when there is none.
pub fn encoding_or_default(found: Option<TextEncoding>) -> (r: TextEncoding)
    ensures
        r@ == match opt_view(found) {
            Some(name) => name,
            None => "Shift_JIS"@,
        },
{
    match found {
        Some(encoding) => encoding,
        None => shift_jis(),
    }
}

/// Decode bytes using a declared charset label, or Shift_JIS when absent.
pub fn decode_text<'a>(bytes: &'a [u8], charset_label: Option<&[u8]>) -> (r: DecodedText<'a>)
    requires
        bytes@.len() <= isize::MAX / 4,
    ensures
        r.encoding@ == chosen_encoding(opt_view(charset_label)),
        (r.text@, r.had_errors) == decoding(r.encoding@, strip_bom(bytes@)),
{
    let found = match charset_label {
        Some(label) => encoding_for_label(label),
        None => None,
    };
    let encoding = encoding_or_default(found);
    let (text, had_errors) = decode_with(encoding, strip_utf8_bom(bytes));
    DecodedText { text, encoding, had_errors }
}

/// Detect charset, then decode bytes.
pub fn decode_text_auto(bytes: &[u8]) -> (r: DecodedText<'_>)
    requires
        bytes@.len() <= isize::MAX / 4,
    ensures
        r.encoding@ == chosen_encoding(spec_detect_charset(bytes@)),
        (r.text@, r.had_errors) == decoding(r.encoding@, strip_bom(bytes@)),
{
    decode_text(bytes, detect_charset_label(bytes))
}

} // verus!
