//! Properties of the format that the parser keeps, proved over the models.
use vstd::prelude::*;
use vstd::string::StringSliceAdditionalSpecFns;
use crate::ast::{BlockView, ItemView, ParseError, ParseErrorKind};
use crate::bytes::{
    ascii_lower, eq_ignore_case, is_ascii_ws, strip_bom, trim, trim_cr, trim_end, trim_start,
    utf8_bom,
};
use crate::charset::{charset_in_lines, chosen_encoding, decoding, spec_detect_charset};
use crate::lines::{lemma_lines_from_len, lemma_split_lines_cons, split_lines};
use crate::model::{
    all_blocks, document_lines, is_header_line, parse_lines, spec_classify_header,
    spec_parse_bytes, spec_parse_field, spec_parse_item, ParseState, note_kind_of, spec_notes,
    spec_last_version, spec_last_setting, spec_note_fields, spec_version_section,
};
use crate::keywords::lemma_keyword_shape;
use crate::model::{note_field_update, strip_question, version_fields, spec_parse_raw_version};
use crate::number::{spec_parse_i32, spec_parse_u32};
use crate::ast::{FieldView, NoteFieldsView};
use crate::query::{find_field, first_version_charset, spec_charset, spec_setting};

verus! {

// ---------------------------------------------------------------------------
// Trimming
// ---------------------------------------------------------------------------

/// Trimming keeps no byte that was not there: a byte absent from `s` is
/// absent from `trim(s)`.
pub proof fn lemma_trim_start_keeps_absent(s: Seq<u8>, b: u8)
    requires
        forall|j: int| 0 <= j < s.len() ==> s[j] != b,
    ensures
        forall|k: int| 0 <= k < trim_start(s).len() ==> trim_start(s)[k] != b,
    decreases s.len(),
{
    if s.len() > 0 && is_ascii_ws(s[0]) {
        assert forall|j: int| 0 <= j < s.drop_first().len() implies s.drop_first()[j] != b by {
            assert(s.drop_first()[j] == s[j + 1]);
        }
        lemma_trim_start_keeps_absent(s.drop_first(), b);
        assert(trim_start(s) == trim_start(s.drop_first()));
    } else {
        assert(trim_start(s) == s);
    }
}

pub proof fn lemma_trim_end_keeps_absent(s: Seq<u8>, b: u8)
    requires
        forall|j: int| 0 <= j < s.len() ==> s[j] != b,
    ensures
        forall|k: int| 0 <= k < trim_end(s).len() ==> trim_end(s)[k] != b,
    decreases s.len(),
{
    if s.len() > 0 && is_ascii_ws(s.last()) {
        assert forall|j: int| 0 <= j < s.drop_last().len() implies s.drop_last()[j] != b by {
            assert(s.drop_last()[j] == s[j]);
        }
        lemma_trim_end_keeps_absent(s.drop_last(), b);
        assert(trim_end(s) == trim_end(s.drop_last()));
    } else {
        assert(trim_end(s) == s);
    }
}

/// `trim_start` leaves no leading whitespace.
pub proof fn lemma_trim_start_clean(s: Seq<u8>)
    ensures
        trim_start(s).len() > 0 ==> !is_ascii_ws(trim_start(s)[0]),
        trim_start(s).len() <= s.len(),
        trim_start(s) == s.skip(s.len() - trim_start(s).len()),
    decreases s.len(),
{
    if s.len() > 0 && is_ascii_ws(s[0]) {
        lemma_trim_start_clean(s.drop_first());
        assert(s.drop_first().skip(s.drop_first().len() - trim_start(s.drop_first()).len())
            =~= s.skip(s.len() - trim_start(s).len()));
    } else {
        assert(s.skip(0) =~= s);
    }
}

/// `trim_end` leaves no trailing whitespace, and keeps a leading byte that is
/// not whitespace.
pub proof fn lemma_trim_end_clean(s: Seq<u8>)
    ensures
        trim_end(s).len() > 0 ==> !is_ascii_ws(trim_end(s).last()),
        trim_end(s).len() <= s.len(),
        trim_end(s) == s.take(trim_end(s).len() as int),
    decreases s.len(),
{
    if s.len() > 0 && is_ascii_ws(s.last()) {
        lemma_trim_end_clean(s.drop_last());
        assert(s.drop_last().take(trim_end(s.drop_last()).len() as int)
            =~= s.take(trim_end(s).len() as int));
    } else {
        assert(s.take(s.len() as int) =~= s);
    }
}

/// `trim` leaves whitespace at neither end.
pub proof fn lemma_trim_clean(s: Seq<u8>)
    ensures
        trim(s).len() > 0 ==> !is_ascii_ws(trim(s)[0]) && !is_ascii_ws(trim(s).last()),
{
    let t = trim_start(s);
    lemma_trim_start_clean(s);
    lemma_trim_end_clean(t);
    if trim(s).len() > 0 {
        assert(trim(s)[0] == t[0]);
    }
}

// ---------------------------------------------------------------------------
// Fields
// ---------------------------------------------------------------------------

/// The key of a `key=value` line never holds a `=` and has no whitespace at
/// either end: a line is split at its first `=` and the key is trimmed.
pub proof fn law_field_key_is_clean(line: Seq<u8>, n: usize)
    requires
        spec_parse_field(line, n) is Some,
    ensures
        ({
            let key = spec_parse_field(line, n)->Some_0.key;
            &&& forall|k: int| 0 <= k < key.len() ==> key[k] != 0x3Du8
            &&& key.len() > 0 ==> !is_ascii_ws(key[0]) && !is_ascii_ws(key.last())
        }),
{
    let p = choose|p: int| crate::model::is_first_eq(line, p);
    let head = line.take(p);
    assert forall|j: int| 0 <= j < head.len() implies head[j] != 0x3Du8 by {
        assert(head[j] == line[j]);
    }
    lemma_trim_start_keeps_absent(head, 0x3Du8);
    lemma_trim_end_keeps_absent(trim_start(head), 0x3Du8);
    lemma_trim_clean(head);
}

/// A line is read as a field exactly when it holds a `=`: the key is the
/// trimmed text before the first `=`, the value is every byte after it,
/// untrimmed (an empty value included).
pub proof fn law_field_splits_at_first_eq(line: Seq<u8>, n: usize)
    ensures
        match spec_parse_field(line, n) {
            Some(f) => exists|p: int| {
                &&& 0 <= p < line.len()
                &&& #[trigger] line[p] == 0x3Du8
                &&& forall|j: int| 0 <= j < p ==> line[j] != 0x3Du8
                &&& f.key == trim(line.take(p))
                &&& f.value == line.skip(p + 1)
                &&& f.line == n
            },
            None => forall|p: int| 0 <= p < line.len() ==> #[trigger] line[p] != 0x3Du8,
        },
{
    if exists|p: int| 0 <= p < line.len() && #[trigger] line[p] == 0x3Du8 {
        let q = choose|p: int| 0 <= p < line.len() && #[trigger] line[p] == 0x3Du8;
        lemma_first_eq_exists(line, q);
        let p = choose|p: int| crate::model::is_first_eq(line, p);
        assert(line[p] == 0x3Du8);
    } else {
        if spec_parse_field(line, n) is Some {
            let p = choose|p: int| crate::model::is_first_eq(line, p);
            assert(line[p] == 0x3Du8);
        }
    }
}

/// A line with a `=` at `q` has a first `=`.
proof fn lemma_first_eq_exists(line: Seq<u8>, q: int)
    requires
        0 <= q < line.len(),
        line[q] == 0x3Du8,
    ensures
        exists|p: int| crate::model::is_first_eq(line, p),
    decreases q,
{
    if forall|j: int| 0 <= j < q ==> line[j] != 0x3Du8 {
        assert(crate::model::is_first_eq(line, q));
    } else {
        let j = choose|j: int| 0 <= j < q && line[j] == 0x3Du8;
        lemma_first_eq_exists(line, j);
    }
}

/// How a section name is classified: the known names `VERSION`, `SETTING`,
/// `TRACKEND`, `PREV`, `NEXT`, `INSERT`, `DELETE` ignoring ASCII case; a
/// non-empty run of digits whose value fits in a `u32` is a note with that
/// number; anything else is an unknown section that keeps its bytes.
pub proof fn law_header_kinds(raw: Seq<u8>)
    ensures
        spec_classify_header(raw) is Version <==> eq_ignore_case(raw, "VERSION".spec_bytes()),
        spec_classify_header(raw) is Setting <==> eq_ignore_case(raw, "SETTING".spec_bytes()),
        spec_classify_header(raw) is TrackEnd <==> eq_ignore_case(raw, "TRACKEND".spec_bytes()),
        spec_classify_header(raw) is Prev <==> eq_ignore_case(raw, "PREV".spec_bytes()),
        spec_classify_header(raw) is Next <==> eq_ignore_case(raw, "NEXT".spec_bytes()),
        spec_classify_header(raw) is Insert <==> eq_ignore_case(raw, "INSERT".spec_bytes()),
        spec_classify_header(raw) is Delete <==> eq_ignore_case(raw, "DELETE".spec_bytes()),
        spec_classify_header(raw) is Note <==> (raw.len() > 0 && crate::number::all_digits(raw)
            && crate::number::digits_value(raw) <= u32::MAX),
        spec_classify_header(raw) is Note ==> spec_classify_header(raw)->Note_0 as nat
            == crate::number::digits_value(raw),
        spec_classify_header(raw) is Other ==> spec_classify_header(raw)->Other_0 == raw,
{
    lemma_keyword_shape(raw);
    if raw.len() > 0 && crate::number::all_digits(raw) {
        assert(crate::number::is_digit(raw[0]));
    }
}

/// `eq_ignore_case` is symmetric and transitive.
proof fn lemma_eq_ignore_case_trans(a: Seq<u8>, b: Seq<u8>, c: Seq<u8>)
    requires
        eq_ignore_case(b, c),
    ensures
        eq_ignore_case(a, b) <==> eq_ignore_case(a, c),
{
    if eq_ignore_case(a, b) {
        assert forall|i: int| 0 <= i < a.len() implies #[trigger] ascii_lower(a[i]) == ascii_lower(c[i]) by {
            assert(ascii_lower(a[i]) == ascii_lower(b[i]));
            assert(ascii_lower(b[i]) == ascii_lower(c[i]));
        }
    }
    if eq_ignore_case(a, c) {
        assert forall|i: int| 0 <= i < a.len() implies #[trigger] ascii_lower(a[i]) == ascii_lower(b[i]) by {
            assert(ascii_lower(a[i]) == ascii_lower(c[i]));
            assert(ascii_lower(b[i]) == ascii_lower(c[i]));
        }
    }
}

/// Strings equal up to ASCII case compare alike with any third string.
proof fn lemma_eq_ignore_case_left(a: Seq<u8>, b: Seq<u8>, k: Seq<u8>)
    requires
        eq_ignore_case(a, b),
    ensures
        eq_ignore_case(a, k) <==> eq_ignore_case(b, k),
{
    if eq_ignore_case(a, k) {
        assert forall|i: int| 0 <= i < b.len() implies #[trigger] ascii_lower(b[i]) == ascii_lower(k[i]) by {
            assert(ascii_lower(a[i]) == ascii_lower(b[i]));
            assert(ascii_lower(a[i]) == ascii_lower(k[i]));
        }
    }
    if eq_ignore_case(b, k) {
        assert forall|i: int| 0 <= i < a.len() implies #[trigger] ascii_lower(a[i]) == ascii_lower(k[i]) by {
            assert(ascii_lower(a[i]) == ascii_lower(b[i]));
            assert(ascii_lower(b[i]) == ascii_lower(k[i]));
        }
    }
}

/// Section names are read ignoring ASCII case: two names that differ only
/// in case are the same known section (`[#version]` is `[#VERSION]`).
/// Unknown names are kept as written, so they are left out.
pub proof fn law_header_names_ignore_case(raw1: Seq<u8>, raw2: Seq<u8>)
    requires
        eq_ignore_case(raw1, raw2),
        !(spec_classify_header(raw1) is Other),
    ensures
        spec_classify_header(raw1) == spec_classify_header(raw2),
{
    lemma_eq_ignore_case_left(raw1, raw2, "VERSION".spec_bytes());
    lemma_eq_ignore_case_left(raw1, raw2, "SETTING".spec_bytes());
    lemma_eq_ignore_case_left(raw1, raw2, "TRACKEND".spec_bytes());
    lemma_eq_ignore_case_left(raw1, raw2, "PREV".spec_bytes());
    lemma_eq_ignore_case_left(raw1, raw2, "NEXT".spec_bytes());
    lemma_eq_ignore_case_left(raw1, raw2, "INSERT".spec_bytes());
    lemma_eq_ignore_case_left(raw1, raw2, "DELETE".spec_bytes());
    if crate::number::all_digits(raw1) {
        assert forall|i: int| 0 <= i < raw1.len() implies raw2[i] == raw1[i] by {
            assert(crate::number::is_digit(raw1[i]));
            assert(ascii_lower(raw1[i]) == ascii_lower(raw2[i]));
        }
        assert(raw1 =~= raw2);
    }
}

/// Looking a field up by two keys that differ only in ASCII case finds the
/// same field: keys are matched ignoring case.
pub proof fn law_lookup_ignores_case(items: Seq<ItemView>, key1: Seq<u8>, key2: Seq<u8>)
    requires
        eq_ignore_case(key1, key2),
    ensures
        find_field(items, key1) == find_field(items, key2),
    decreases items.len(),
{
    if items.len() > 0 {
        match items[0] {
            ItemView::Field(f) => {
                lemma_eq_ignore_case_trans(f.key, key1, key2);
            },
            ItemView::Raw(_) => {},
        }
        law_lookup_ignores_case(items.drop_first(), key1, key2);
    }
}

// ---------------------------------------------------------------------------
// Byte order mark
// ---------------------------------------------------------------------------

/// A leading UTF-8 BOM changes nothing: parsing, charset detection and
/// decoding give the same results with and without it.
pub proof fn law_bom_is_ignored(s: Seq<u8>, label: Option<Seq<u8>>)
    requires
        !(s.len() >= 3 && s.take(3) == utf8_bom()),
    ensures
        spec_parse_bytes(utf8_bom() + s) == spec_parse_bytes(s),
        spec_detect_charset(utf8_bom() + s) == spec_detect_charset(s),
        decoding(chosen_encoding(label), strip_bom(utf8_bom() + s)) == decoding(
            chosen_encoding(label),
            strip_bom(s),
        ),
{
    let t = utf8_bom() + s;
    assert(t.take(3) =~= utf8_bom());
    assert(t.skip(3) =~= s);
    assert(strip_bom(t) == s);
    assert(strip_bom(s) == s);
}

// ---------------------------------------------------------------------------
// Line endings and blank lines
// ---------------------------------------------------------------------------

/// `s` with every line feed turned into a carriage return and line feed.
pub open spec fn lf_to_crlf(s: Seq<u8>) -> Seq<u8>
    decreases s.len(),
{
    if s.len() == 0 {
        s
    } else if s[0] == 0x0Au8 {
        seq![0x0Du8, 0x0Au8] + lf_to_crlf(s.drop_first())
    } else {
        seq![s[0]] + lf_to_crlf(s.drop_first())
    }
}

/// `s` holds no carriage return.
pub open spec fn no_cr(s: Seq<u8>) -> bool {
    forall|i: int| 0 <= i < s.len() ==> s[i] != 0x0Du8
}

/// Two line lists agree once each line loses its trailing `\r`.
pub open spec fn same_lines_but_cr(a: Seq<Seq<u8>>, b: Seq<Seq<u8>>) -> bool {
    &&& a.len() == b.len()
    &&& forall|i: int| 0 <= i < a.len() ==> #[trigger] trim_cr(a[i]) == trim_cr(b[i])
}

proof fn lemma_no_cr_tail(s: Seq<u8>)
    requires
        s.len() > 0,
        no_cr(s),
    ensures
        no_cr(s.drop_first()),
{
    assert forall|i: int| 0 <= i < s.drop_first().len() implies s.drop_first()[i] != 0x0Du8 by {
        assert(s.drop_first()[i] == s[i + 1]);
    }
}

/// Prepending a byte other than `\r` commutes with removing a trailing `\r`.
proof fn lemma_trim_cr_cons(c: u8, x: Seq<u8>)
    requires
        c != 0x0Du8,
    ensures
        trim_cr(seq![c] + x) == seq![c] + trim_cr(x),
{
    if x.len() > 0 {
        assert((seq![c] + x).last() == x.last());
        if x.last() == 0x0Du8 {
            assert((seq![c] + x).drop_last() =~= seq![c] + x.drop_last());
        }
    } else {
        assert(seq![c] + x =~= seq![c]);
    }
}

/// Turning line feeds into CRLF pairs leaves the lines the same, up to the
/// `\r` that each line then ends with.
proof fn lemma_crlf_lines(s: Seq<u8>)
    requires
        no_cr(s),
    ensures
        same_lines_but_cr(split_lines(lf_to_crlf(s)), split_lines(s)),
    decreases s.len(),
{
    if s.len() > 0 {
        let c = s[0];
        let t = s.drop_first();
        assert(s =~= seq![c] + t);
        lemma_no_cr_tail(s);
        lemma_crlf_lines(t);
        let a = split_lines(lf_to_crlf(t));
        let b = split_lines(t);
        lemma_split_lines_cons(c, t);
        if c == 0x0Au8 {
            let nl = seq![0x0Au8] + lf_to_crlf(t);
            assert(lf_to_crlf(s) =~= seq![0x0Du8] + nl);
            lemma_split_lines_cons(0x0Du8, nl);
            lemma_split_lines_cons(0x0Au8, lf_to_crlf(t));
            let x = split_lines(nl);
            assert(x == seq![Seq::<u8>::empty()] + a);
            assert(split_lines(lf_to_crlf(s)) == seq![seq![0x0Du8] + x[0]] + x.drop_first());
            assert(x.drop_first() =~= a);
            assert(seq![0x0Du8] + x[0] =~= seq![0x0Du8]);
            assert(trim_cr(seq![0x0Du8]) =~= Seq::<u8>::empty());
            let l = split_lines(lf_to_crlf(s));
            let r = split_lines(s);
            assert forall|i: int| 0 <= i < l.len() implies #[trigger] trim_cr(l[i]) == trim_cr(r[i]) by {
                if i > 0 {
                    assert(l[i] == a[i - 1]);
                    assert(r[i] == b[i - 1]);
                }
            }
        } else {
            assert(lf_to_crlf(s) =~= seq![c] + lf_to_crlf(t));
            lemma_split_lines_cons(c, lf_to_crlf(t));
            if t.len() == 0 {
                assert(lf_to_crlf(t).len() == 0);
            } else {
                assert(lf_to_crlf(t).len() > 0);
                assert(a.len() > 0);
                lemma_trim_cr_cons(c, a[0]);
                lemma_trim_cr_cons(c, b[0]);
                assert(trim_cr(a[0]) == trim_cr(b[0]));
                let l = split_lines(lf_to_crlf(s));
                let r = split_lines(s);
                assert forall|i: int| 0 <= i < l.len() implies #[trigger] trim_cr(l[i]) == trim_cr(r[i]) by {
                    if i > 0 {
                        assert(l[i] == a[i]);
                        assert(r[i] == b[i]);
                    }
                }
            }
        }
    }
}

/// A byte string that starts with the BOM after the CRLF rewrite started
/// with it before, and the rewrite commutes with removing it.
proof fn lemma_crlf_bom(s: Seq<u8>)
    requires
        no_cr(s),
    ensures
        strip_bom(lf_to_crlf(s)) == lf_to_crlf(strip_bom(s)),
        no_cr(strip_bom(s)),
{
    let b = utf8_bom();
    let x = lf_to_crlf(s);
    if s.len() >= 3 && s.take(3) == b {
        assert(s[0] == 0xEFu8 && s[1] == 0xBBu8 && s[2] == 0xBFu8);
        let s1 = s.drop_first();
        let s2 = s1.drop_first();
        let s3 = s2.drop_first();
        assert(s3 =~= s.skip(3));
        lemma_no_cr_tail(s);
        lemma_no_cr_tail(s1);
        lemma_no_cr_tail(s2);
        assert(x == seq![0xEFu8] + lf_to_crlf(s1));
        assert(lf_to_crlf(s1) == seq![0xBBu8] + lf_to_crlf(s2));
        assert(lf_to_crlf(s2) == seq![0xBFu8] + lf_to_crlf(s3));
        assert(x =~= b + lf_to_crlf(s3));
        assert(x.take(3) =~= b);
        assert(x.skip(3) =~= lf_to_crlf(s3));
    } else {
        if x.len() >= 3 && x.take(3) == b {
            assert(x[0] == 0xEFu8 && x[1] == 0xBBu8 && x[2] == 0xBFu8);
            assert(s.len() > 0 && s[0] == 0xEFu8);
            let s1 = s.drop_first();
            assert(x == seq![0xEFu8] + lf_to_crlf(s1));
            assert(lf_to_crlf(s1)[0] == 0xBBu8);
            assert(s1.len() > 0 && s1[0] == 0xBBu8);
            let s2 = s1.drop_first();
            assert(lf_to_crlf(s1) == seq![0xBBu8] + lf_to_crlf(s2));
            assert(lf_to_crlf(s2)[0] == 0xBFu8);
            assert(s2.len() > 0 && s2[0] == 0xBFu8);
            assert(s.take(3) =~= b);
        }
    }
    assert forall|i: int| 0 <= i < strip_bom(s).len() implies strip_bom(s)[i] != 0x0Du8 by {
        if s.len() >= 3 && s.take(3) == b {
            assert(strip_bom(s)[i] == s[i + 3]);
        }
    }
}

/// Parsing looks at each line only once its trailing `\r` is removed.
proof fn lemma_parse_lines_ignores_cr(a: Seq<Seq<u8>>, b: Seq<Seq<u8>>)
    requires
        same_lines_but_cr(a, b),
    ensures
        parse_lines(a) == parse_lines(b),
    decreases a.len(),
{
    if a.len() > 0 {
        assert(trim_cr(a[a.len() - 1]) == trim_cr(b[b.len() - 1]));
        assert(same_lines_but_cr(a.drop_last(), b.drop_last()));
        lemma_parse_lines_ignores_cr(a.drop_last(), b.drop_last());
    }
}

/// Charset detection looks at each line only once its trailing `\r` is removed.
proof fn lemma_charset_ignores_cr(a: Seq<Seq<u8>>, b: Seq<Seq<u8>>, budget: nat)
    requires
        same_lines_but_cr(a, b),
    ensures
        charset_in_lines(a, budget) == charset_in_lines(b, budget),
    decreases a.len(),
{
    if a.len() > 0 {
        assert(trim_cr(a[0]) == trim_cr(b[0]));
        assert forall|i: int| 0 <= i < a.drop_first().len() implies #[trigger] trim_cr(
            a.drop_first()[i],
        ) == trim_cr(b.drop_first()[i]) by {
            assert(trim_cr(a[i + 1]) == trim_cr(b[i + 1]));
        }
        lemma_charset_ignores_cr(a.drop_first(), b.drop_first(), budget);
        if budget > 0 {
            lemma_charset_ignores_cr(a.drop_first(), b.drop_first(), (budget - 1) as nat);
        }
    }
}

/// CRLF and LF line endings are read alike: a document without carriage
/// returns parses, and declares its charset, the same as the same document
/// with every line feed written as CRLF.
pub proof fn law_crlf_same_as_lf(s: Seq<u8>)
    requires
        no_cr(s),
    ensures
        spec_parse_bytes(lf_to_crlf(s)) == spec_parse_bytes(s),
        spec_detect_charset(lf_to_crlf(s)) == spec_detect_charset(s),
{
    lemma_crlf_bom(s);
    lemma_crlf_lines(strip_bom(s));
    let a = document_lines(lf_to_crlf(s));
    let b = document_lines(s);
    assert(a == split_lines(lf_to_crlf(strip_bom(s))));
    lemma_parse_lines_ignores_cr(a, b);
    lemma_charset_ignores_cr(a, b, 10);
}

/// Blank lines are not among the ten lines that charset detection inspects:
/// a leading empty line changes nothing.
pub proof fn law_blank_line_before_charset(s: Seq<u8>)
    requires
        !(s.len() >= 3 && s.take(3) == utf8_bom()),
    ensures
        spec_detect_charset(seq![0x0Au8] + s) == spec_detect_charset(s),
{
    let t = seq![0x0Au8] + s;
    if t.len() >= 3 && t.take(3) == utf8_bom() {
        assert(t.take(3)[0] == t[0]);
    }
    assert(strip_bom(t) == t);
    lemma_split_lines_cons(0x0Au8, s);
    let ls = split_lines(t);
    assert(ls.drop_first() =~= split_lines(s));
    assert(trim_cr(ls[0]) =~= Seq::<u8>::empty());
}

// ---------------------------------------------------------------------------
// Nothing is lost, nothing reordered
// ---------------------------------------------------------------------------

/// Source line number of an item.
pub open spec fn item_line(it: ItemView) -> usize {
    match it {
        ItemView::Field(f) => f.line,
        ItemView::Raw(r) => r.line,
    }
}

/// Line numbers a section was read from: its header, then its items.
pub open spec fn block_line_numbers(b: BlockView) -> Seq<usize> {
    seq![b.line] + b.items.map_values(|it: ItemView| item_line(it))
}

/// Line numbers that the sections were read from, in order.
pub open spec fn flat_line_numbers(blocks: Seq<BlockView>) -> Seq<usize>
    decreases blocks.len(),
{
    if blocks.len() == 0 {
        Seq::empty()
    } else {
        flat_line_numbers(blocks.drop_last()) + block_line_numbers(blocks.last())
    }
}

/// Numbers (from one) of the lines that are not empty once their `\r` is removed.
pub open spec fn nonempty_line_numbers(lines: Seq<Seq<u8>>) -> Seq<usize>
    decreases lines.len(),
{
    if lines.len() == 0 {
        Seq::empty()
    } else if trim_cr(lines.last()).len() == 0 {
        nonempty_line_numbers(lines.drop_last())
    } else {
        nonempty_line_numbers(lines.drop_last()).push(lines.len() as usize)
    }
}

/// The header of `b` is what its source line says.
pub open spec fn header_faithful(b: BlockView, lines: Seq<Seq<u8>>) -> bool {
    let n = b.line as int;
    &&& 1 <= n <= lines.len()
    &&& {
        let l = trim_cr(lines[n - 1]);
        &&& is_header_line(l)
        &&& l.last() == 0x5Du8
        &&& b.header.raw == l.subrange(2, l.len() - 1)
        &&& b.header.kind == spec_classify_header(b.header.raw)
    }
}

/// The item is what its source line says.
pub open spec fn item_faithful(it: ItemView, lines: Seq<Seq<u8>>) -> bool {
    let n = item_line(it) as int;
    &&& 1 <= n <= lines.len()
    &&& it == spec_parse_item(trim_cr(lines[n - 1]), n as usize)
}

/// Header and items of `b` are what their source lines say.
pub open spec fn block_faithful(b: BlockView, lines: Seq<Seq<u8>>) -> bool {
    &&& header_faithful(b, lines)
    &&& forall|j: int| 0 <= j < b.items.len() ==> item_faithful(#[trigger] b.items[j], lines)
}

/// The numbers strictly increase.
pub open spec fn strictly_increasing(s: Seq<usize>) -> bool {
    forall|i: int, j: int| 0 <= i < j < s.len() ==> s[i] < s[j]
}

proof fn lemma_faithful_extend(b: BlockView, lines: Seq<Seq<u8>>)
    requires
        lines.len() > 0,
        block_faithful(b, lines.drop_last()),
    ensures
        block_faithful(b, lines),
{
    let d = lines.drop_last();
    assert(lines[b.line - 1] == d[b.line - 1]);
    assert forall|j: int| 0 <= j < b.items.len() implies item_faithful(#[trigger] b.items[j], lines) by {
        assert(item_faithful(b.items[j], d));
        let n = item_line(b.items[j]) as int;
        assert(lines[n - 1] == d[n - 1]);
    }
}

proof fn lemma_flat_push(blocks: Seq<BlockView>, b: BlockView)
    ensures
        flat_line_numbers(blocks.push(b)) == flat_line_numbers(blocks) + block_line_numbers(b),
{
    assert(blocks.push(b).drop_last() =~= blocks);
}

/// Every line of the parse prefix is accounted for, and every section is
/// faithful to its lines.
proof fn lemma_parse_accounting(lines: Seq<Seq<u8>>)
    requires
        lines.len() < usize::MAX,
        parse_lines(lines) is Ok,
    ensures
        ({
            let st = parse_lines(lines)->Ok_0;
            &&& flat_line_numbers(all_blocks(st)) == nonempty_line_numbers(lines)
            &&& forall|i: int| 0 <= i < all_blocks(st).len() ==> block_faithful(
                #[trigger] all_blocks(st)[i],
                lines,
            )
            &&& st.current is None ==> st.blocks.len() == 0
        }),
    decreases lines.len(),
{
    if lines.len() == 0 {
        let st = parse_lines(lines)->Ok_0;
        assert(all_blocks(st) =~= Seq::<BlockView>::empty());
    } else {
        let d = lines.drop_last();
        assert(parse_lines(d) is Ok);
        lemma_parse_accounting(d);
        let prev = parse_lines(d)->Ok_0;
        let st = parse_lines(lines)->Ok_0;
        let n = lines.len() as usize;
        let l = trim_cr(lines.last());
        assert(lines[n - 1] == lines.last());
        assert forall|i: int| 0 <= i < all_blocks(prev).len() implies block_faithful(
            #[trigger] all_blocks(prev)[i],
            lines,
        ) by {
            lemma_faithful_extend(all_blocks(prev)[i], lines);
        }
        if l.len() == 0 {
            assert(st == prev);
        } else if is_header_line(l) {
            let raw = l.subrange(2, l.len() - 1);
            let nb = BlockView {
                header: crate::ast::HeaderView { kind: spec_classify_header(raw), raw },
                line: n,
                items: Seq::empty(),
            };
            assert(st.blocks == all_blocks(prev));
            assert(all_blocks(st) == all_blocks(prev).push(nb));
            lemma_flat_push(all_blocks(prev), nb);
            assert(block_line_numbers(nb) =~= seq![n]);
            assert(block_faithful(nb, lines));
            assert forall|i: int| 0 <= i < all_blocks(st).len() implies block_faithful(
                #[trigger] all_blocks(st)[i],
                lines,
            ) by {
                if i < all_blocks(prev).len() {
                    assert(all_blocks(st)[i] == all_blocks(prev)[i]);
                }
            }
        } else {
            let b = prev.current->Some_0;
            let it = spec_parse_item(l, n);
            let nb = BlockView { items: b.items.push(it), ..b };
            assert(st == ParseState { blocks: prev.blocks, current: Some(nb) });
            assert(all_blocks(prev) == prev.blocks.push(b));
            lemma_flat_push(prev.blocks, b);
            lemma_flat_push(prev.blocks, nb);
            assert(item_line(it) == n);
            assert(nb.items.map_values(|x: ItemView| item_line(x)) =~= b.items.map_values(
                |x: ItemView| item_line(x),
            ).push(n));
            assert(block_line_numbers(nb) =~= block_line_numbers(b).push(n));
            assert(block_faithful(b, lines)) by {
                assert(all_blocks(prev)[prev.blocks.len() as int] == b);
            }
            assert(item_faithful(it, lines));
            assert forall|j: int| 0 <= j < nb.items.len() implies item_faithful(
                #[trigger] nb.items[j],
                lines,
            ) by {
                if j < b.items.len() {
                    assert(nb.items[j] == b.items[j]);
                }
            }
            assert forall|i: int| 0 <= i < all_blocks(st).len() implies block_faithful(
                #[trigger] all_blocks(st)[i],
                lines,
            ) by {
                if i < prev.blocks.len() {
                    assert(all_blocks(st)[i] == all_blocks(prev)[i]);
                }
            }
        }
    }
}

/// Non-empty line numbers are increasing and within the document.
proof fn lemma_nonempty_numbers_increase(lines: Seq<Seq<u8>>)
    requires
        lines.len() < usize::MAX,
    ensures
        strictly_increasing(nonempty_line_numbers(lines)),
        nonempty_line_numbers(lines).len() <= lines.len(),
        forall|i: int| 0 <= i < nonempty_line_numbers(lines).len() ==> 1 <= #[trigger] nonempty_line_numbers(lines)[i] <= lines.len(),
    decreases lines.len(),
{
    if lines.len() > 0 {
        lemma_nonempty_numbers_increase(lines.drop_last());
    }
}

/// There are at least as many line numbers as sections.
proof fn lemma_flat_len(blocks: Seq<BlockView>)
    ensures
        flat_line_numbers(blocks).len() >= blocks.len(),
    decreases blocks.len(),
{
    if blocks.len() > 0 {
        lemma_flat_len(blocks.drop_last());
    }
}

/// The document has fewer lines than the input has bytes.
proof fn lemma_document_lines_len(input: Seq<u8>)
    ensures
        document_lines(input).len() <= input.len(),
{
    lemma_lines_from_len(strip_bom(input), 0);
}

/// Parsing loses no line and changes no order: the sections' headers and
/// items come, in order, from exactly the non-empty lines of the document,
/// in increasing line order, and each header and item is the reading of its
/// own source line (so raw lines, unknown keys, and values are kept as bytes).
pub proof fn law_every_line_kept_in_order(input: Seq<u8>)
    requires
        input.len() < usize::MAX,
        spec_parse_bytes(input) is Ok,
    ensures
        ({
            let u = spec_parse_bytes(input)->Ok_0;
            let lines = document_lines(input);
            &&& flat_line_numbers(u.blocks) == nonempty_line_numbers(lines)
            &&& strictly_increasing(flat_line_numbers(u.blocks))
            &&& forall|i: int| 0 <= i < u.blocks.len() ==> block_faithful(#[trigger] u.blocks[i], lines)
        }),
{
    let lines = document_lines(input);
    lemma_document_lines_len(input);
    assert(parse_lines(lines) is Ok);
    lemma_parse_accounting(lines);
    lemma_nonempty_numbers_increase(lines);
}

// ---------------------------------------------------------------------------
// Notes, version and settings point at their sections
// ---------------------------------------------------------------------------

/// The notes are exactly the note and plugin-note sections, in order, each
/// with the typed fields of its own section.
pub open spec fn notes_match_blocks(blocks: Seq<BlockView>, notes: Seq<crate::ast::NoteBlockView>) -> bool {
    &&& forall|k: int| 0 <= k < notes.len() ==> {
        let i = (#[trigger] notes[k]).block_index as int;
        &&& 0 <= i < blocks.len()
        &&& note_kind_of(blocks[i].header.kind) == Some(notes[k].kind)
        &&& notes[k].fields == spec_note_fields(blocks[i].items)
    }
    &&& forall|k1: int, k2: int| 0 <= k1 < k2 < notes.len() ==> (#[trigger] notes[k1]).block_index < (#[trigger] notes[k2]).block_index
    &&& forall|i: int| 0 <= i < blocks.len() && (#[trigger] note_kind_of(blocks[i].header.kind)) is Some ==> exists|k: int| 0 <= k < notes.len() && (#[trigger] notes[k]).block_index == i
}

proof fn lemma_notes_match(blocks: Seq<BlockView>)
    requires
        blocks.len() <= usize::MAX,
    ensures
        notes_match_blocks(blocks, spec_notes(blocks)),
    decreases blocks.len(),
{
    if blocks.len() > 0 {
        let d = blocks.drop_last();
        lemma_notes_match(d);
        let pn = spec_notes(d);
        let notes = spec_notes(blocks);
        let last = (blocks.len() - 1) as int;
        assert forall|k: int| 0 <= k < pn.len() implies (#[trigger] pn[k]).block_index < last by {
            let i = pn[k].block_index as int;
            assert(0 <= i < d.len());
        }
        assert forall|k: int| 0 <= k < notes.len() implies {
            let i = (#[trigger] notes[k]).block_index as int;
            &&& 0 <= i < blocks.len()
            &&& note_kind_of(blocks[i].header.kind) == Some(notes[k].kind)
            &&& notes[k].fields == spec_note_fields(blocks[i].items)
        } by {
            if k < pn.len() {
                assert(notes[k] == pn[k]);
                assert(blocks[pn[k].block_index as int] == d[pn[k].block_index as int]);
            }
        }
        assert forall|k1: int, k2: int| 0 <= k1 < k2 < notes.len() implies (#[trigger] notes[k1]).block_index < (#[trigger] notes[k2]).block_index by {
            if k2 < pn.len() {
                assert(notes[k1] == pn[k1]);
                assert(notes[k2] == pn[k2]);
            } else {
                assert(notes[k1] == pn[k1]);
                assert(pn[k1].block_index < last);
            }
        }
        assert forall|i: int| 0 <= i < blocks.len() && (#[trigger] note_kind_of(blocks[i].header.kind)) is Some implies exists|k: int| 0 <= k < notes.len() && (#[trigger] notes[k]).block_index == i by {
            if i < d.len() {
                assert(blocks[i] == d[i]);
                assert(note_kind_of(d[i].header.kind) is Some);
                let k = choose|k: int| 0 <= k < pn.len() && (#[trigger] pn[k]).block_index == i;
                assert(notes[k] == pn[k]);
            } else {
                assert(notes[pn.len() as int].block_index == i);
            }
        }
    }
}

/// The last `[#VERSION]` section is the one `spec_last_version` reads.
proof fn lemma_last_version(blocks: Seq<BlockView>)
    requires
        blocks.len() <= usize::MAX,
    ensures
        match spec_last_version(blocks) {
            Some(v) => {
                &&& v.block_index < blocks.len()
                &&& blocks[v.block_index as int].header.kind is Version
                &&& v == spec_version_section(v.block_index, blocks[v.block_index as int])
                &&& forall|j: int| v.block_index < j < blocks.len() ==> !((#[trigger] blocks[j]).header.kind is Version)
            },
            None => forall|j: int| 0 <= j < blocks.len() ==> !((#[trigger] blocks[j]).header.kind is Version),
        },
    decreases blocks.len(),
{
    if blocks.len() > 0 {
        let d = blocks.drop_last();
        lemma_last_version(d);
        assert forall|j: int| 0 <= j < d.len() implies blocks[j] == d[j] by {}
    }
}

/// The last `[#SETTING]` section is the one `spec_last_setting` points at.
proof fn lemma_last_setting(blocks: Seq<BlockView>)
    requires
        blocks.len() <= usize::MAX,
    ensures
        match spec_last_setting(blocks) {
            Some(i) => {
                &&& i < blocks.len()
                &&& blocks[i as int].header.kind is Setting
                &&& forall|j: int| i < j < blocks.len() ==> !((#[trigger] blocks[j]).header.kind is Setting)
            },
            None => forall|j: int| 0 <= j < blocks.len() ==> !((#[trigger] blocks[j]).header.kind is Setting),
        },
    decreases blocks.len(),
{
    if blocks.len() > 0 {
        let d = blocks.drop_last();
        lemma_last_setting(d);
        assert forall|j: int| 0 <= j < d.len() implies blocks[j] == d[j] by {}
    }
}

/// What a parsed document holds besides its sections points at them: the
/// version is read from the last `[#VERSION]` section, the settings index
/// is that of the last `[#SETTING]` section, and the notes are exactly the
/// note and plugin-note sections in source order, each with the typed
/// fields of its own section. So `version_block`, `settings_block` and
/// `note_block` find a section whenever the document has one to give.
pub proof fn law_document_points_at_sections(input: Seq<u8>)
    requires
        input.len() < usize::MAX,
        spec_parse_bytes(input) is Ok,
    ensures
        ({
            let u = spec_parse_bytes(input)->Ok_0;
            &&& notes_match_blocks(u.blocks, u.notes)
            &&& match u.version {
                Some(v) => {
                    &&& v.block_index < u.blocks.len()
                    &&& u.blocks[v.block_index as int].header.kind is Version
                    &&& v == spec_version_section(v.block_index, u.blocks[v.block_index as int])
                    &&& forall|j: int| v.block_index < j < u.blocks.len() ==> !((#[trigger] u.blocks[j]).header.kind is Version)
                },
                None => forall|j: int| 0 <= j < u.blocks.len() ==> !((#[trigger] u.blocks[j]).header.kind is Version),
            }
            &&& match u.settings {
                Some(i) => {
                    &&& i < u.blocks.len()
                    &&& u.blocks[i as int].header.kind is Setting
                    &&& forall|j: int| i < j < u.blocks.len() ==> !((#[trigger] u.blocks[j]).header.kind is Setting)
                },
                None => forall|j: int| 0 <= j < u.blocks.len() ==> !((#[trigger] u.blocks[j]).header.kind is Setting),
            }
        }),
{
    let lines = document_lines(input);
    lemma_document_lines_len(input);
    lemma_parse_accounting(lines);
    lemma_nonempty_numbers_increase(lines);
    let u = spec_parse_bytes(input)->Ok_0;
    lemma_flat_len(u.blocks);
    lemma_notes_match(u.blocks);
    lemma_last_version(u.blocks);
    lemma_last_setting(u.blocks);
}

// ---------------------------------------------------------------------------
// The declared charset
// ---------------------------------------------------------------------------

/// Section `i` is a `[#VERSION]` section that declares a charset.
pub open spec fn declares_version_charset(blocks: Seq<BlockView>, i: int) -> bool {
    &&& 0 <= i < blocks.len()
    &&& blocks[i].header.kind is Version
    &&& find_field(blocks[i].items, "Charset".spec_bytes()) is Some
}

proof fn lemma_first_version_charset(blocks: Seq<BlockView>)
    ensures
        match first_version_charset(blocks) {
            Some(c) => exists|i: int| {
                &&& #[trigger] declares_version_charset(blocks, i)
                &&& forall|j: int| 0 <= j < i ==> !declares_version_charset(blocks, j)
                &&& c == trim(find_field(blocks[i].items, "Charset".spec_bytes())->Some_0.value)
            },
            None => forall|i: int| !#[trigger] declares_version_charset(blocks, i),
        },
    decreases blocks.len(),
{
    if blocks.len() > 0 {
        let d = blocks.drop_first();
        lemma_first_version_charset(d);
        assert forall|i: int| 0 < i < blocks.len() implies #[trigger] declares_version_charset(blocks, i)
            == declares_version_charset(d, i - 1) by {
            assert(blocks[i] == d[i - 1]);
        }
        if declares_version_charset(blocks, 0) {
            assert(declares_version_charset(blocks, 0));
        } else {
            match first_version_charset(d) {
                Some(c) => {
                    let i = choose|i: int| {
                        &&& #[trigger] declares_version_charset(d, i)
                        &&& forall|j: int| 0 <= j < i ==> !declares_version_charset(d, j)
                        &&& c == trim(find_field(d[i].items, "Charset".spec_bytes())->Some_0.value)
                    };
                    assert(declares_version_charset(blocks, i + 1));
                    assert(blocks[i + 1] == d[i]);
                    assert forall|j: int| 0 <= j < i + 1 implies !declares_version_charset(blocks, j) by {
                        if j > 0 {
                            assert(!declares_version_charset(d, j - 1));
                        }
                    }
                },
                None => {
                    assert forall|i: int| !#[trigger] declares_version_charset(blocks, i) by {
                        if 0 < i < blocks.len() {
                            assert(!declares_version_charset(d, i - 1));
                        }
                    }
                },
            }
        }
    }
}

/// The charset a parsed document declares is the first `Charset` field of
/// the first `[#VERSION]` section that has one; when no `[#VERSION]`
/// section declares one, it is the trimmed `Charset` setting, if any.
pub proof fn law_charset_is_first_declared(input: Seq<u8>)
    requires
        spec_parse_bytes(input) is Ok,
    ensures
        ({
            let u = spec_parse_bytes(input)->Ok_0;
            &&& forall|i: int|
                #[trigger] declares_version_charset(u.blocks, i) && (forall|j: int|
                    0 <= j < i ==> !declares_version_charset(u.blocks, j)) ==> spec_charset(
                    u.blocks,
                    u.settings,
                ) == Some(trim(find_field(u.blocks[i].items, "Charset".spec_bytes())->Some_0.value))
            &&& (forall|i: int| !#[trigger] declares_version_charset(u.blocks, i)) ==> spec_charset(
                u.blocks,
                u.settings,
            ) == match spec_setting(u.blocks, u.settings, "Charset".spec_bytes()) {
                Some(f) => Some(trim(f.value)),
                None => None,
            }
        }),
{
    let u = spec_parse_bytes(input)->Ok_0;
    lemma_first_version_charset(u.blocks);
    assert forall|i: int|
        #[trigger] declares_version_charset(u.blocks, i) && (forall|j: int|
            0 <= j < i ==> !declares_version_charset(u.blocks, j)) implies spec_charset(
        u.blocks,
        u.settings,
    ) == Some(trim(find_field(u.blocks[i].items, "Charset".spec_bytes())->Some_0.value)) by {
        match first_version_charset(u.blocks) {
            Some(c) => {
                let k = choose|k: int| {
                    &&& #[trigger] declares_version_charset(u.blocks, k)
                    &&& forall|j: int| 0 <= j < k ==> !declares_version_charset(u.blocks, j)
                    &&& c == trim(find_field(u.blocks[k].items, "Charset".spec_bytes())->Some_0.value)
                };
                if k < i {
                    assert(!declares_version_charset(u.blocks, k));
                } else if i < k {
                    assert(!declares_version_charset(u.blocks, i));
                }
            },
            None => {
                assert(!declares_version_charset(u.blocks, i));
            },
        }
    }
    if forall|i: int| !#[trigger] declares_version_charset(u.blocks, i) {
        if first_version_charset(u.blocks) is Some {
            let c = first_version_charset(u.blocks)->Some_0;
            let k = choose|k: int| {
                &&& #[trigger] declares_version_charset(u.blocks, k)
                &&& forall|j: int| 0 <= j < k ==> !declares_version_charset(u.blocks, j)
                &&& c == trim(find_field(u.blocks[k].items, "Charset".spec_bytes())->Some_0.value)
            };
            assert(!declares_version_charset(u.blocks, k));
        }
    }
}

// ---------------------------------------------------------------------------
// Field lookup
// ---------------------------------------------------------------------------

/// The item is a field whose key equals `key` ignoring ASCII case.
pub open spec fn field_keyed(it: ItemView, key: Seq<u8>) -> bool {
    it matches ItemView::Field(f) && eq_ignore_case(f.key, key)
}

/// Looking up a key finds the first field whose key equals it ignoring ASCII
/// case, whatever that field's value (an empty one included), and finds
/// nothing only when no field has such a key. This is what `Block::field`,
/// `Ust::setting` and `NoteBlock::field` return.
pub proof fn law_lookup_finds_first_matching_field(items: Seq<ItemView>, key: Seq<u8>)
    ensures
        match find_field(items, key) {
            Some(f) => exists|i: int| {
                &&& 0 <= i < items.len()
                &&& #[trigger] items[i] == ItemView::Field(f)
                &&& eq_ignore_case(f.key, key)
                &&& forall|j: int| 0 <= j < i ==> !field_keyed(items[j], key)
            },
            None => forall|i: int| 0 <= i < items.len() ==> !field_keyed(#[trigger] items[i], key),
        },
    decreases items.len(),
{
    if items.len() > 0 {
        let d = items.drop_first();
        law_lookup_finds_first_matching_field(d, key);
        assert forall|i: int| 0 < i < items.len() implies #[trigger] items[i] == d[i - 1] by {}
        if field_keyed(items[0], key) {
            let f = items[0]->Field_0;
            assert(find_field(items, key) == Some(f));
            assert(items[0] == ItemView::Field(f));
        } else {
            assert(find_field(items, key) == find_field(d, key));
            match find_field(d, key) {
                Some(f) => {
                    let i = choose|i: int| {
                        &&& 0 <= i < d.len()
                        &&& #[trigger] d[i] == ItemView::Field(f)
                        &&& eq_ignore_case(f.key, key)
                        &&& forall|j: int| 0 <= j < i ==> !field_keyed(d[j], key)
                    };
                    assert(items[i + 1] == ItemView::Field(f));
                    assert forall|j: int| 0 <= j < i + 1 implies !field_keyed(items[j], key) by {
                        if j > 0 {
                            assert(items[j] == d[j - 1]);
                        }
                    }
                },
                None => {
                    assert forall|i: int| 0 <= i < items.len() implies !field_keyed(#[trigger] items[i], key) by {
                        if i > 0 {
                            assert(items[i] == d[i - 1]);
                        }
                    }
                },
            }
        }
    }
}

// ---------------------------------------------------------------------------
// When parsing fails
// ---------------------------------------------------------------------------

/// Line `k` (zero-based, without its `\r`) opens a section.
pub open spec fn header_at(lines: Seq<Seq<u8>>, k: int) -> bool {
    is_header_line(trim_cr(lines[k]))
}

/// Line `k` is a structural error: a header not closed by `]`, the empty
/// header `[#]`, or a non-empty line before any header.
pub open spec fn bad_line(lines: Seq<Seq<u8>>, k: int) -> bool {
    let l = trim_cr(lines[k]);
    &&& 0 <= k < lines.len()
    &&& l.len() > 0
    &&& if is_header_line(l) {
        l.last() != 0x5Du8 || l.len() == 3
    } else {
        forall|j: int| 0 <= j < k ==> !header_at(lines, j)
    }
}

/// The error that line `k` gives.
pub open spec fn error_at(lines: Seq<Seq<u8>>, k: int) -> ParseError {
    let l = trim_cr(lines[k]);
    ParseError {
        line: (k + 1) as usize,
        kind: if !is_header_line(l) {
            ParseErrorKind::ContentBeforeHeader
        } else if l.last() != 0x5Du8 {
            ParseErrorKind::UnterminatedHeader
        } else {
            ParseErrorKind::EmptyHeader
        },
    }
}

/// Parse prefixes fail exactly at their first bad line, and have a section
/// open exactly when a header came.
proof fn lemma_parse_errors(lines: Seq<Seq<u8>>)
    ensures
        match parse_lines(lines) {
            Ok(st) => {
                &&& forall|k: int| !#[trigger] bad_line(lines, k)
                &&& st.current is Some <==> exists|j: int| 0 <= j < lines.len() && #[trigger] header_at(lines, j)
            },
            Err(e) => exists|k: int| {
                &&& #[trigger] bad_line(lines, k)
                &&& forall|j: int| 0 <= j < k ==> !bad_line(lines, j)
                &&& e == error_at(lines, k)
            },
        },
    decreases lines.len(),
{
    if lines.len() > 0 {
        let d = lines.drop_last();
        let n = lines.len() - 1;
        lemma_parse_errors(d);
        assert forall|j: int| 0 <= j < n implies lines[j] == d[j] by {}
        assert forall|k: int| 0 <= k < n implies #[trigger] bad_line(lines, k) == bad_line(d, k) by {
            assert(lines[k] == d[k]);
            assert forall|j: int| 0 <= j < k implies header_at(lines, j) == header_at(d, j) by {
                assert(lines[j] == d[j]);
            }
        }
        assert(lines.last() == lines[n]);
        match parse_lines(d) {
            Err(e) => {
                let k = choose|k: int| {
                    &&& #[trigger] bad_line(d, k)
                    &&& forall|j: int| 0 <= j < k ==> !bad_line(d, j)
                    &&& e == error_at(d, k)
                };
                assert(bad_line(lines, k));
                assert(error_at(lines, k) == error_at(d, k));
                assert forall|j: int| 0 <= j < k implies !bad_line(lines, j) by {
                    assert(!bad_line(d, j));
                }
            },
            Ok(st) => {
                assert forall|k: int| 0 <= k < n implies !#[trigger] bad_line(lines, k) by {
                    assert(!bad_line(d, k));
                }
                if st.current is Some {
                    let j = choose|j: int| 0 <= j < d.len() && #[trigger] header_at(d, j);
                    assert(header_at(lines, j));
                } else {
                    assert forall|j: int| 0 <= j < n implies !header_at(lines, j) by {
                        assert(!header_at(d, j));
                    }
                }
                match parse_lines(lines) {
                    Ok(st2) => {
                        assert forall|k: int| !#[trigger] bad_line(lines, k) by {
                            if 0 <= k < n {
                                assert(!bad_line(d, k));
                            }
                        }
                        if st2.current is Some {
                            if !header_at(lines, n) {
                                assert(st.current is Some);
                                let j = choose|j: int| 0 <= j < d.len() && #[trigger] header_at(d, j);
                                assert(header_at(lines, j));
                            }
                        } else {
                            assert forall|j: int| 0 <= j < lines.len() implies !#[trigger] header_at(lines, j) by {
                                if j < n {
                                    assert(!header_at(d, j));
                                }
                            }
                        }
                    },
                    Err(e) => {
                        assert(bad_line(lines, n));
                        assert forall|j: int| 0 <= j < n implies !bad_line(lines, j) by {
                            assert(!bad_line(d, j));
                        }
                    },
                }
            },
        }
    }
}

/// Parsing fails exactly when some non-empty line is a header not closed by
/// `]`, the empty header `[#]`, or content before any header; the error is
/// that of the first such line, numbered from one. In particular a `key=`
/// line, or any other line, inside a section never makes parsing fail.
pub proof fn law_parse_fails_only_on_structure(input: Seq<u8>)
    ensures
        ({
            let lines = document_lines(input);
            match spec_parse_bytes(input) {
                Ok(_) => forall|k: int| !#[trigger] bad_line(lines, k),
                Err(e) => exists|k: int| {
                    &&& #[trigger] bad_line(lines, k)
                    &&& forall|j: int| 0 <= j < k ==> !bad_line(lines, j)
                    &&& e == error_at(lines, k)
                },
            }
        }),
{
    lemma_parse_errors(document_lines(input));
}

// ---------------------------------------------------------------------------
// Charset detection
// ---------------------------------------------------------------------------

/// The non-empty lines, each without its trailing `\r`, in order.
pub open spec fn nonempty_lines(lines: Seq<Seq<u8>>) -> Seq<Seq<u8>>
    decreases lines.len(),
{
    if lines.len() == 0 {
        Seq::empty()
    } else {
        let l = trim_cr(lines[0]);
        let rest = nonempty_lines(lines.drop_first());
        if l.len() == 0 {
            rest
        } else {
            seq![l] + rest
        }
    }
}

/// The line is a field whose key is `Charset`, ignoring ASCII case.
pub open spec fn is_charset_line(l: Seq<u8>) -> bool {
    spec_parse_field(l, 0) matches Some(f) && eq_ignore_case(f.key, "Charset".spec_bytes())
}

/// The trimmed value of a field line.
pub open spec fn field_value_trimmed(l: Seq<u8>) -> Seq<u8> {
    trim(spec_parse_field(l, 0)->Some_0.value)
}

proof fn lemma_charset_in_lines(lines: Seq<Seq<u8>>, budget: nat)
    ensures
        ({
            let ls = nonempty_lines(lines);
            let m = if ls.len() < budget { ls.len() as int } else { budget as int };
            match charset_in_lines(lines, budget) {
                Some(c) => exists|k: int| {
                    &&& 0 <= k < m
                    &&& #[trigger] is_charset_line(ls[k])
                    &&& c == field_value_trimmed(ls[k])
                    &&& forall|j: int| 0 <= j < k ==> !is_charset_line(ls[j])
                },
                None => forall|k: int| 0 <= k < m ==> !#[trigger] is_charset_line(ls[k]),
            }
        }),
    decreases lines.len(),
{
    if lines.len() > 0 {
        let d = lines.drop_first();
        let l = trim_cr(lines[0]);
        let rest = nonempty_lines(d);
        let ls = nonempty_lines(lines);
        lemma_charset_in_lines(d, budget);
        if l.len() == 0 {
            assert(ls == rest);
        } else if budget > 0 {
            lemma_charset_in_lines(d, (budget - 1) as nat);
            assert(ls == seq![l] + rest);
            assert(ls[0] == l);
            assert forall|k: int| 0 < k < ls.len() implies #[trigger] ls[k] == rest[k - 1] by {}
            if is_charset_line(l) {
                assert(charset_in_lines(lines, budget) == Some(field_value_trimmed(l)));
            } else {
                let b1 = (budget - 1) as nat;
                assert(charset_in_lines(lines, budget) == charset_in_lines(d, b1));
                match charset_in_lines(d, b1) {
                    Some(c) => {
                        let k = choose|k: int| {
                            &&& 0 <= k < (if rest.len() < b1 { rest.len() as int } else { b1 as int })
                            &&& #[trigger] is_charset_line(rest[k])
                            &&& c == field_value_trimmed(rest[k])
                            &&& forall|j: int| 0 <= j < k ==> !is_charset_line(rest[j])
                        };
                        assert(ls[k + 1] == rest[k]);
                        assert forall|j: int| 0 <= j < k + 1 implies !is_charset_line(ls[j]) by {
                            if j > 0 {
                                assert(ls[j] == rest[j - 1]);
                            }
                        }
                    },
                    None => {
                        assert forall|k: int|
                            0 <= k < (if ls.len() < budget { ls.len() as int } else { budget as int })
                            implies !#[trigger] is_charset_line(ls[k]) by {
                            if k > 0 {
                                assert(ls[k] == rest[k - 1]);
                            }
                        }
                    },
                }
            }
        }
    }
}

/// Charset detection returns the trimmed value of the first `Charset` field
/// (key compared ignoring ASCII case) among the first ten non-empty lines of
/// the document (BOM removed, each line without its `\r`), whatever lines
/// (section headers included) come before it; it returns nothing only when
/// none of those ten lines is such a field.
pub proof fn law_detect_finds_first_charset_field(bytes: Seq<u8>)
    ensures
        ({
            let ls = nonempty_lines(document_lines(bytes));
            let m = if ls.len() < 10 { ls.len() as int } else { 10 };
            match spec_detect_charset(bytes) {
                Some(c) => exists|k: int| {
                    &&& 0 <= k < m
                    &&& #[trigger] is_charset_line(ls[k])
                    &&& c == field_value_trimmed(ls[k])
                    &&& forall|j: int| 0 <= j < k ==> !is_charset_line(ls[j])
                },
                None => forall|k: int| 0 <= k < m ==> !#[trigger] is_charset_line(ls[k]),
            }
        }),
{
    lemma_charset_in_lines(document_lines(bytes), 10);
}

// ---------------------------------------------------------------------------
// Version section and typed note fields
// ---------------------------------------------------------------------------

/// The last field among `items` whose key satisfies `p`.
pub open spec fn last_field_where(items: Seq<ItemView>, p: spec_fn(Seq<u8>) -> bool) -> Option<FieldView>
    decreases items.len(),
{
    if items.len() == 0 {
        None
    } else {
        match items.last() {
            ItemView::Field(f) => if p(f.key) {
                Some(f)
            } else {
                last_field_where(items.drop_last(), p)
            },
            ItemView::Raw(_) => last_field_where(items.drop_last(), p),
        }
    }
}

/// The trimmed value of a field, as a `u32`.
pub open spec fn u32_of(f: Option<FieldView>) -> Option<u32> {
    match f {
        Some(f) => spec_parse_u32(trim(f.value)),
        None => None,
    }
}

/// The trimmed value of a field, as an `i32`.
pub open spec fn i32_of(f: Option<FieldView>) -> Option<i32> {
    match f {
        Some(f) => spec_parse_i32(trim(f.value)),
        None => None,
    }
}

/// The trimmed value of a field.
pub open spec fn bytes_of(f: Option<FieldView>) -> Option<Seq<u8>> {
    match f {
        Some(f) => Some(trim(f.value)),
        None => None,
    }
}

/// The trimmed value of a field without a leading `?`.
pub open spec fn lyric_of(f: Option<FieldView>) -> Option<Seq<u8>> {
    match f {
        Some(f) => Some(strip_question(trim(f.value))),
        None => None,
    }
}

/// The version that one item of a `[#VERSION]` section declares: a
/// `UST Version` field (key compared ignoring ASCII case) gives its trimmed
/// value, a raw `UST Version...` line the number after the prefix.
pub open spec fn version_declared(it: ItemView) -> Option<Seq<u8>> {
    match it {
        ItemView::Field(f) => if eq_ignore_case(f.key, "UST Version".spec_bytes()) {
            Some(trim(f.value))
        } else {
            None
        },
        ItemView::Raw(r) => spec_parse_raw_version(r.bytes),
    }
}

/// The version that the last declaring item declares.
pub open spec fn last_version_declared(items: Seq<ItemView>) -> Option<Seq<u8>>
    decreases items.len(),
{
    if items.len() == 0 {
        None
    } else {
        match version_declared(items.last()) {
            Some(v) => Some(v),
            None => last_version_declared(items.drop_last()),
        }
    }
}

/// A `[#VERSION]` section's charset is the trimmed value of its last field
/// keyed `Charset` (ignoring ASCII case), and `None` only when it has no such
/// field; its version is the one its last declaring item declares.
pub proof fn law_version_section_reads_its_fields(block_index: usize, block: BlockView)
    ensures
        spec_version_section(block_index, block).block_index == block_index,
        spec_version_section(block_index, block).charset == bytes_of(
            last_field_where(block.items, |k: Seq<u8>| eq_ignore_case(k, "Charset".spec_bytes())),
        ),
        spec_version_section(block_index, block).version == last_version_declared(block.items),
{
    lemma_version_fields(block.items);
}

proof fn lemma_version_fields(items: Seq<ItemView>)
    ensures
        version_fields(items).0 == last_version_declared(items),
        version_fields(items).1 == bytes_of(
            last_field_where(items, |k: Seq<u8>| eq_ignore_case(k, "Charset".spec_bytes())),
        ),
    decreases items.len(),
{
    if items.len() > 0 {
        lemma_version_fields(items.drop_last());
        match items.last() {
            ItemView::Field(f) => {
                lemma_keyword_shape(f.key);
            },
            ItemView::Raw(_) => {},
        }
    }
}

/// One field changes exactly the typed note field that its key names.
#[verifier::rlimit(100)]
proof fn lemma_note_field_update(prev: NoteFieldsView, f: FieldView)
    ensures
        note_field_update(prev, f).length == if eq_ignore_case(f.key, "Length".spec_bytes()) { u32_of(Some(f)) } else { prev.length },
        note_field_update(prev, f).duration == if eq_ignore_case(f.key, "Duration".spec_bytes()) { u32_of(Some(f)) } else { prev.duration },
        note_field_update(prev, f).delta == if eq_ignore_case(f.key, "Delta".spec_bytes()) { i32_of(Some(f)) } else { prev.delta },
        note_field_update(prev, f).lyric == if eq_ignore_case(f.key, "Lyric".spec_bytes()) { lyric_of(Some(f)) } else { prev.lyric },
        note_field_update(prev, f).note_num == if eq_ignore_case(f.key, "NoteNum".spec_bytes()) { i32_of(Some(f)) } else { prev.note_num },
        note_field_update(prev, f).tempo == if eq_ignore_case(f.key, "Tempo".spec_bytes()) { bytes_of(Some(f)) } else { prev.tempo },
        note_field_update(prev, f).velocity == if eq_ignore_case(f.key, "Velocity".spec_bytes()) { i32_of(Some(f)) } else { prev.velocity },
        note_field_update(prev, f).intensity == if eq_ignore_case(f.key, "Intensity".spec_bytes()) { i32_of(Some(f)) } else { prev.intensity },
        note_field_update(prev, f).modulation == if eq_ignore_case(f.key, "Modulation".spec_bytes()) || eq_ignore_case(f.key, "Moduration".spec_bytes()) { i32_of(Some(f)) } else { prev.modulation },
        note_field_update(prev, f).flags == if eq_ignore_case(f.key, "Flags".spec_bytes()) { bytes_of(Some(f)) } else { prev.flags },
        note_field_update(prev, f).pre_utterance == if eq_ignore_case(f.key, "PreUtterance".spec_bytes()) { bytes_of(Some(f)) } else { prev.pre_utterance },
        note_field_update(prev, f).voice_overlap == if eq_ignore_case(f.key, "VoiceOverlap".spec_bytes()) { bytes_of(Some(f)) } else { prev.voice_overlap },
        note_field_update(prev, f).start_point == if eq_ignore_case(f.key, "StartPoint".spec_bytes()) { bytes_of(Some(f)) } else { prev.start_point },
        note_field_update(prev, f).envelope == if eq_ignore_case(f.key, "Envelope".spec_bytes()) { bytes_of(Some(f)) } else { prev.envelope },
        note_field_update(prev, f).pbs == if eq_ignore_case(f.key, "PBS".spec_bytes()) { bytes_of(Some(f)) } else { prev.pbs },
        note_field_update(prev, f).pbw == if eq_ignore_case(f.key, "PBW".spec_bytes()) { bytes_of(Some(f)) } else { prev.pbw },
        note_field_update(prev, f).pby == if eq_ignore_case(f.key, "PBY".spec_bytes()) { bytes_of(Some(f)) } else { prev.pby },
        note_field_update(prev, f).pbm == if eq_ignore_case(f.key, "PBM".spec_bytes()) { bytes_of(Some(f)) } else { prev.pbm },
        note_field_update(prev, f).pitches == if eq_ignore_case(f.key, "Pitches".spec_bytes()) || eq_ignore_case(f.key, "Piches".spec_bytes()) || eq_ignore_case(f.key, "PitchBend".spec_bytes()) { bytes_of(Some(f)) } else { prev.pitches },
        note_field_update(prev, f).vbr == if eq_ignore_case(f.key, "VBR".spec_bytes()) { bytes_of(Some(f)) } else { prev.vbr },
{
    lemma_keyword_shape(f.key);
}

/// Each typed note field comes from the last field of the section with its
/// key (compared ignoring ASCII case; `Moduration` counts as `Modulation`,
/// `Piches` and `PitchBend` as `Pitches`): numbers are parsed from the
/// trimmed value (`None` when they do not parse), text is the trimmed value
/// (a lyric without a leading `?`); a field without such a key leaves it
/// `None`, and no other field changes it.
pub proof fn law_note_fields_come_from_their_keys(items: Seq<ItemView>)
    ensures
        spec_note_fields(items).length == u32_of(last_field_where(items, |k: Seq<u8>| eq_ignore_case(k, "Length".spec_bytes()))),
        spec_note_fields(items).duration == u32_of(last_field_where(items, |k: Seq<u8>| eq_ignore_case(k, "Duration".spec_bytes()))),
        spec_note_fields(items).delta == i32_of(last_field_where(items, |k: Seq<u8>| eq_ignore_case(k, "Delta".spec_bytes()))),
        spec_note_fields(items).lyric == lyric_of(last_field_where(items, |k: Seq<u8>| eq_ignore_case(k, "Lyric".spec_bytes()))),
        spec_note_fields(items).note_num == i32_of(last_field_where(items, |k: Seq<u8>| eq_ignore_case(k, "NoteNum".spec_bytes()))),
        spec_note_fields(items).tempo == bytes_of(last_field_where(items, |k: Seq<u8>| eq_ignore_case(k, "Tempo".spec_bytes()))),
        spec_note_fields(items).velocity == i32_of(last_field_where(items, |k: Seq<u8>| eq_ignore_case(k, "Velocity".spec_bytes()))),
        spec_note_fields(items).intensity == i32_of(last_field_where(items, |k: Seq<u8>| eq_ignore_case(k, "Intensity".spec_bytes()))),
        spec_note_fields(items).modulation == i32_of(last_field_where(items, |k: Seq<u8>| eq_ignore_case(k, "Modulation".spec_bytes()) || eq_ignore_case(k, "Moduration".spec_bytes()))),
        spec_note_fields(items).flags == bytes_of(last_field_where(items, |k: Seq<u8>| eq_ignore_case(k, "Flags".spec_bytes()))),
        spec_note_fields(items).pre_utterance == bytes_of(last_field_where(items, |k: Seq<u8>| eq_ignore_case(k, "PreUtterance".spec_bytes()))),
        spec_note_fields(items).voice_overlap == bytes_of(last_field_where(items, |k: Seq<u8>| eq_ignore_case(k, "VoiceOverlap".spec_bytes()))),
        spec_note_fields(items).start_point == bytes_of(last_field_where(items, |k: Seq<u8>| eq_ignore_case(k, "StartPoint".spec_bytes()))),
        spec_note_fields(items).envelope == bytes_of(last_field_where(items, |k: Seq<u8>| eq_ignore_case(k, "Envelope".spec_bytes()))),
        spec_note_fields(items).pbs == bytes_of(last_field_where(items, |k: Seq<u8>| eq_ignore_case(k, "PBS".spec_bytes()))),
        spec_note_fields(items).pbw == bytes_of(last_field_where(items, |k: Seq<u8>| eq_ignore_case(k, "PBW".spec_bytes()))),
        spec_note_fields(items).pby == bytes_of(last_field_where(items, |k: Seq<u8>| eq_ignore_case(k, "PBY".spec_bytes()))),
        spec_note_fields(items).pbm == bytes_of(last_field_where(items, |k: Seq<u8>| eq_ignore_case(k, "PBM".spec_bytes()))),
        spec_note_fields(items).pitches == bytes_of(last_field_where(items, |k: Seq<u8>| eq_ignore_case(k, "Pitches".spec_bytes()) || eq_ignore_case(k, "Piches".spec_bytes()) || eq_ignore_case(k, "PitchBend".spec_bytes()))),
        spec_note_fields(items).vbr == bytes_of(last_field_where(items, |k: Seq<u8>| eq_ignore_case(k, "VBR".spec_bytes()))),
    decreases items.len(),
{
    if items.len() > 0 {
        law_note_fields_come_from_their_keys(items.drop_last());
        match items.last() {
            ItemView::Field(f) => {
                lemma_note_field_update(spec_note_fields(items.drop_last()), f);
            },
            ItemView::Raw(_) => {},
        }
    }
}

} // verus!
