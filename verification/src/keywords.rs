//! The byte contents of the keywords that keys and section names are
//! compared with, lower-cased, and what comparing with them means.
use vstd::prelude::*;
use vstd::string::StringSliceAdditionalSpecFns;
use crate::bytes::{ascii_lower, eq_ignore_case};

verus! {

/// `s` with every ASCII capital letter lower-cased.
pub open spec fn lower_seq(s: Seq<u8>) -> Seq<u8> {
    Seq::new(s.len(), |i: int| ascii_lower(s[i]))
}

/// Two byte strings are equal ignoring ASCII case exactly when their
/// lower-cased forms are equal.
pub proof fn lemma_eq_ignore_case_lower(a: Seq<u8>, b: Seq<u8>)
    ensures
        eq_ignore_case(a, b) <==> lower_seq(a) == lower_seq(b),
{
    if eq_ignore_case(a, b) {
        assert(lower_seq(a) =~= lower_seq(b));
    }
    if lower_seq(a) == lower_seq(b) {
        assert(a.len() == lower_seq(a).len());
        assert(b.len() == lower_seq(b).len());
        assert forall|i: int| 0 <= i < a.len() implies #[trigger] ascii_lower(a[i]) == ascii_lower(b[i]) by {
            assert(lower_seq(a)[i] == ascii_lower(a[i]));
            assert(lower_seq(b)[i] == ascii_lower(b[i]));
        }
    }
}

/// The keywords, lower-cased.
pub proof fn lemma_keywords_lower()
    ensures
        lower_seq("Length".spec_bytes()) == seq![0x6Cu8, 0x65u8, 0x6Eu8, 0x67u8, 0x74u8, 0x68u8],
        lower_seq("Duration".spec_bytes()) == seq![0x64u8, 0x75u8, 0x72u8, 0x61u8, 0x74u8, 0x69u8, 0x6Fu8, 0x6Eu8],
        lower_seq("Delta".spec_bytes()) == seq![0x64u8, 0x65u8, 0x6Cu8, 0x74u8, 0x61u8],
        lower_seq("Lyric".spec_bytes()) == seq![0x6Cu8, 0x79u8, 0x72u8, 0x69u8, 0x63u8],
        lower_seq("NoteNum".spec_bytes()) == seq![0x6Eu8, 0x6Fu8, 0x74u8, 0x65u8, 0x6Eu8, 0x75u8, 0x6Du8],
        lower_seq("Tempo".spec_bytes()) == seq![0x74u8, 0x65u8, 0x6Du8, 0x70u8, 0x6Fu8],
        lower_seq("Velocity".spec_bytes()) == seq![0x76u8, 0x65u8, 0x6Cu8, 0x6Fu8, 0x63u8, 0x69u8, 0x74u8, 0x79u8],
        lower_seq("Intensity".spec_bytes()) == seq![0x69u8, 0x6Eu8, 0x74u8, 0x65u8, 0x6Eu8, 0x73u8, 0x69u8, 0x74u8, 0x79u8],
        lower_seq("Modulation".spec_bytes()) == seq![0x6Du8, 0x6Fu8, 0x64u8, 0x75u8, 0x6Cu8, 0x61u8, 0x74u8, 0x69u8, 0x6Fu8, 0x6Eu8],
        lower_seq("Moduration".spec_bytes()) == seq![0x6Du8, 0x6Fu8, 0x64u8, 0x75u8, 0x72u8, 0x61u8, 0x74u8, 0x69u8, 0x6Fu8, 0x6Eu8],
        lower_seq("Flags".spec_bytes()) == seq![0x66u8, 0x6Cu8, 0x61u8, 0x67u8, 0x73u8],
        lower_seq("PreUtterance".spec_bytes()) == seq![0x70u8, 0x72u8, 0x65u8, 0x75u8, 0x74u8, 0x74u8, 0x65u8, 0x72u8, 0x61u8, 0x6Eu8, 0x63u8, 0x65u8],
        lower_seq("VoiceOverlap".spec_bytes()) == seq![0x76u8, 0x6Fu8, 0x69u8, 0x63u8, 0x65u8, 0x6Fu8, 0x76u8, 0x65u8, 0x72u8, 0x6Cu8, 0x61u8, 0x70u8],
        lower_seq("StartPoint".spec_bytes()) == seq![0x73u8, 0x74u8, 0x61u8, 0x72u8, 0x74u8, 0x70u8, 0x6Fu8, 0x69u8, 0x6Eu8, 0x74u8],
        lower_seq("Envelope".spec_bytes()) == seq![0x65u8, 0x6Eu8, 0x76u8, 0x65u8, 0x6Cu8, 0x6Fu8, 0x70u8, 0x65u8],
        lower_seq("PBS".spec_bytes()) == seq![0x70u8, 0x62u8, 0x73u8],
        lower_seq("PBW".spec_bytes()) == seq![0x70u8, 0x62u8, 0x77u8],
        lower_seq("PBY".spec_bytes()) == seq![0x70u8, 0x62u8, 0x79u8],
        lower_seq("PBM".spec_bytes()) == seq![0x70u8, 0x62u8, 0x6Du8],
        lower_seq("Pitches".spec_bytes()) == seq![0x70u8, 0x69u8, 0x74u8, 0x63u8, 0x68u8, 0x65u8, 0x73u8],
        lower_seq("Piches".spec_bytes()) == seq![0x70u8, 0x69u8, 0x63u8, 0x68u8, 0x65u8, 0x73u8],
        lower_seq("PitchBend".spec_bytes()) == seq![0x70u8, 0x69u8, 0x74u8, 0x63u8, 0x68u8, 0x62u8, 0x65u8, 0x6Eu8, 0x64u8],
        lower_seq("VBR".spec_bytes()) == seq![0x76u8, 0x62u8, 0x72u8],
        lower_seq("Charset".spec_bytes()) == seq![0x63u8, 0x68u8, 0x61u8, 0x72u8, 0x73u8, 0x65u8, 0x74u8],
        lower_seq("UST Version".spec_bytes()) == seq![0x75u8, 0x73u8, 0x74u8, 0x20u8, 0x76u8, 0x65u8, 0x72u8, 0x73u8, 0x69u8, 0x6Fu8, 0x6Eu8],
        lower_seq("VERSION".spec_bytes()) == seq![0x76u8, 0x65u8, 0x72u8, 0x73u8, 0x69u8, 0x6Fu8, 0x6Eu8],
        lower_seq("SETTING".spec_bytes()) == seq![0x73u8, 0x65u8, 0x74u8, 0x74u8, 0x69u8, 0x6Eu8, 0x67u8],
        lower_seq("TRACKEND".spec_bytes()) == seq![0x74u8, 0x72u8, 0x61u8, 0x63u8, 0x6Bu8, 0x65u8, 0x6Eu8, 0x64u8],
        lower_seq("PREV".spec_bytes()) == seq![0x70u8, 0x72u8, 0x65u8, 0x76u8],
        lower_seq("NEXT".spec_bytes()) == seq![0x6Eu8, 0x65u8, 0x78u8, 0x74u8],
        lower_seq("INSERT".spec_bytes()) == seq![0x69u8, 0x6Eu8, 0x73u8, 0x65u8, 0x72u8, 0x74u8],
        lower_seq("DELETE".spec_bytes()) == seq![0x64u8, 0x65u8, 0x6Cu8, 0x65u8, 0x74u8, 0x65u8],
{
    reveal_strlit("Length");
    assert(vstd::string::is_ascii("Length"));
    vstd::string::is_ascii_spec_bytes("Length");
    assert(lower_seq("Length".spec_bytes()) =~= seq![0x6Cu8, 0x65u8, 0x6Eu8, 0x67u8, 0x74u8, 0x68u8]);
    reveal_strlit("Duration");
    assert(vstd::string::is_ascii("Duration"));
    vstd::string::is_ascii_spec_bytes("Duration");
    assert(lower_seq("Duration".spec_bytes()) =~= seq![0x64u8, 0x75u8, 0x72u8, 0x61u8, 0x74u8, 0x69u8, 0x6Fu8, 0x6Eu8]);
    reveal_strlit("Delta");
    assert(vstd::string::is_ascii("Delta"));
    vstd::string::is_ascii_spec_bytes("Delta");
    assert(lower_seq("Delta".spec_bytes()) =~= seq![0x64u8, 0x65u8, 0x6Cu8, 0x74u8, 0x61u8]);
    reveal_strlit("Lyric");
    assert(vstd::string::is_ascii("Lyric"));
    vstd::string::is_ascii_spec_bytes("Lyric");
    assert(lower_seq("Lyric".spec_bytes()) =~= seq![0x6Cu8, 0x79u8, 0x72u8, 0x69u8, 0x63u8]);
    reveal_strlit("NoteNum");
    assert(vstd::string::is_ascii("NoteNum"));
    vstd::string::is_ascii_spec_bytes("NoteNum");
    assert(lower_seq("NoteNum".spec_bytes()) =~= seq![0x6Eu8, 0x6Fu8, 0x74u8, 0x65u8, 0x6Eu8, 0x75u8, 0x6Du8]);
    reveal_strlit("Tempo");
    assert(vstd::string::is_ascii("Tempo"));
    vstd::string::is_ascii_spec_bytes("Tempo");
    assert(lower_seq("Tempo".spec_bytes()) =~= seq![0x74u8, 0x65u8, 0x6Du8, 0x70u8, 0x6Fu8]);
    reveal_strlit("Velocity");
    assert(vstd::string::is_ascii("Velocity"));
    vstd::string::is_ascii_spec_bytes("Velocity");
    assert(lower_seq("Velocity".spec_bytes()) =~= seq![0x76u8, 0x65u8, 0x6Cu8, 0x6Fu8, 0x63u8, 0x69u8, 0x74u8, 0x79u8]);
    reveal_strlit("Intensity");
    assert(vstd::string::is_ascii("Intensity"));
    vstd::string::is_ascii_spec_bytes("Intensity");
    assert(lower_seq("Intensity".spec_bytes()) =~= seq![0x69u8, 0x6Eu8, 0x74u8, 0x65u8, 0x6Eu8, 0x73u8, 0x69u8, 0x74u8, 0x79u8]);
    reveal_strlit("Modulation");
    assert(vstd::string::is_ascii("Modulation"));
    vstd::string::is_ascii_spec_bytes("Modulation");
    assert(lower_seq("Modulation".spec_bytes()) =~= seq![0x6Du8, 0x6Fu8, 0x64u8, 0x75u8, 0x6Cu8, 0x61u8, 0x74u8, 0x69u8, 0x6Fu8, 0x6Eu8]);
    reveal_strlit("Moduration");
    assert(vstd::string::is_ascii("Moduration"));
    vstd::string::is_ascii_spec_bytes("Moduration");
    assert(lower_seq("Moduration".spec_bytes()) =~= seq![0x6Du8, 0x6Fu8, 0x64u8, 0x75u8, 0x72u8, 0x61u8, 0x74u8, 0x69u8, 0x6Fu8, 0x6Eu8]);
    reveal_strlit("Flags");
    assert(vstd::string::is_ascii("Flags"));
    vstd::string::is_ascii_spec_bytes("Flags");
    assert(lower_seq("Flags".spec_bytes()) =~= seq![0x66u8, 0x6Cu8, 0x61u8, 0x67u8, 0x73u8]);
    reveal_strlit("PreUtterance");
    assert(vstd::string::is_ascii("PreUtterance"));
    vstd::string::is_ascii_spec_bytes("PreUtterance");
    assert(lower_seq("PreUtterance".spec_bytes()) =~= seq![0x70u8, 0x72u8, 0x65u8, 0x75u8, 0x74u8, 0x74u8, 0x65u8, 0x72u8, 0x61u8, 0x6Eu8, 0x63u8, 0x65u8]);
    reveal_strlit("VoiceOverlap");
    assert(vstd::string::is_ascii("VoiceOverlap"));
    vstd::string::is_ascii_spec_bytes("VoiceOverlap");
    assert(lower_seq("VoiceOverlap".spec_bytes()) =~= seq![0x76u8, 0x6Fu8, 0x69u8, 0x63u8, 0x65u8, 0x6Fu8, 0x76u8, 0x65u8, 0x72u8, 0x6Cu8, 0x61u8, 0x70u8]);
    reveal_strlit("StartPoint");
    assert(vstd::string::is_ascii("StartPoint"));
    vstd::string::is_ascii_spec_bytes("StartPoint");
    assert(lower_seq("StartPoint".spec_bytes()) =~= seq![0x73u8, 0x74u8, 0x61u8, 0x72u8, 0x74u8, 0x70u8, 0x6Fu8, 0x69u8, 0x6Eu8, 0x74u8]);
    reveal_strlit("Envelope");
    assert(vstd::string::is_ascii("Envelope"));
    vstd::string::is_ascii_spec_bytes("Envelope");
    assert(lower_seq("Envelope".spec_bytes()) =~= seq![0x65u8, 0x6Eu8, 0x76u8, 0x65u8, 0x6Cu8, 0x6Fu8, 0x70u8, 0x65u8]);
    reveal_strlit("PBS");
    assert(vstd::string::is_ascii("PBS"));
    vstd::string::is_ascii_spec_bytes("PBS");
    assert(lower_seq("PBS".spec_bytes()) =~= seq![0x70u8, 0x62u8, 0x73u8]);
    reveal_strlit("PBW");
    assert(vstd::string::is_ascii("PBW"));
    vstd::string::is_ascii_spec_bytes("PBW");
    assert(lower_seq("PBW".spec_bytes()) =~= seq![0x70u8, 0x62u8, 0x77u8]);
    reveal_strlit("PBY");
    assert(vstd::string::is_ascii("PBY"));
    vstd::string::is_ascii_spec_bytes("PBY");
    assert(lower_seq("PBY".spec_bytes()) =~= seq![0x70u8, 0x62u8, 0x79u8]);
    reveal_strlit("PBM");
    assert(vstd::string::is_ascii("PBM"));
    vstd::string::is_ascii_spec_bytes("PBM");
    assert(lower_seq("PBM".spec_bytes()) =~= seq![0x70u8, 0x62u8, 0x6Du8]);
    reveal_strlit("Pitches");
    assert(vstd::string::is_ascii("Pitches"));
    vstd::string::is_ascii_spec_bytes("Pitches");
    assert(lower_seq("Pitches".spec_bytes()) =~= seq![0x70u8, 0x69u8, 0x74u8, 0x63u8, 0x68u8, 0x65u8, 0x73u8]);
    reveal_strlit("Piches");
    assert(vstd::string::is_ascii("Piches"));
    vstd::string::is_ascii_spec_bytes("Piches");
    assert(lower_seq("Piches".spec_bytes()) =~= seq![0x70u8, 0x69u8, 0x63u8, 0x68u8, 0x65u8, 0x73u8]);
    reveal_strlit("PitchBend");
    assert(vstd::string::is_ascii("PitchBend"));
    vstd::string::is_ascii_spec_bytes("PitchBend");
    assert(lower_seq("PitchBend".spec_bytes()) =~= seq![0x70u8, 0x69u8, 0x74u8, 0x63u8, 0x68u8, 0x62u8, 0x65u8, 0x6Eu8, 0x64u8]);
    reveal_strlit("VBR");
    assert(vstd::string::is_ascii("VBR"));
    vstd::string::is_ascii_spec_bytes("VBR");
    assert(lower_seq("VBR".spec_bytes()) =~= seq![0x76u8, 0x62u8, 0x72u8]);
    reveal_strlit("Charset");
    assert(vstd::string::is_ascii("Charset"));
    vstd::string::is_ascii_spec_bytes("Charset");
    assert(lower_seq("Charset".spec_bytes()) =~= seq![0x63u8, 0x68u8, 0x61u8, 0x72u8, 0x73u8, 0x65u8, 0x74u8]);
    reveal_strlit("UST Version");
    assert(vstd::string::is_ascii("UST Version"));
    vstd::string::is_ascii_spec_bytes("UST Version");
    assert(lower_seq("UST Version".spec_bytes()) =~= seq![0x75u8, 0x73u8, 0x74u8, 0x20u8, 0x76u8, 0x65u8, 0x72u8, 0x73u8, 0x69u8, 0x6Fu8, 0x6Eu8]);
    reveal_strlit("VERSION");
    assert(vstd::string::is_ascii("VERSION"));
    vstd::string::is_ascii_spec_bytes("VERSION");
    assert(lower_seq("VERSION".spec_bytes()) =~= seq![0x76u8, 0x65u8, 0x72u8, 0x73u8, 0x69u8, 0x6Fu8, 0x6Eu8]);
    reveal_strlit("SETTING");
    assert(vstd::string::is_ascii("SETTING"));
    vstd::string::is_ascii_spec_bytes("SETTING");
    assert(lower_seq("SETTING".spec_bytes()) =~= seq![0x73u8, 0x65u8, 0x74u8, 0x74u8, 0x69u8, 0x6Eu8, 0x67u8]);
    reveal_strlit("TRACKEND");
    assert(vstd::string::is_ascii("TRACKEND"));
    vstd::string::is_ascii_spec_bytes("TRACKEND");
    assert(lower_seq("TRACKEND".spec_bytes()) =~= seq![0x74u8, 0x72u8, 0x61u8, 0x63u8, 0x6Bu8, 0x65u8, 0x6Eu8, 0x64u8]);
    reveal_strlit("PREV");
    assert(vstd::string::is_ascii("PREV"));
    vstd::string::is_ascii_spec_bytes("PREV");
    assert(lower_seq("PREV".spec_bytes()) =~= seq![0x70u8, 0x72u8, 0x65u8, 0x76u8]);
    reveal_strlit("NEXT");
    assert(vstd::string::is_ascii("NEXT"));
    vstd::string::is_ascii_spec_bytes("NEXT");
    assert(lower_seq("NEXT".spec_bytes()) =~= seq![0x6Eu8, 0x65u8, 0x78u8, 0x74u8]);
    reveal_strlit("INSERT");
    assert(vstd::string::is_ascii("INSERT"));
    vstd::string::is_ascii_spec_bytes("INSERT");
    assert(lower_seq("INSERT".spec_bytes()) =~= seq![0x69u8, 0x6Eu8, 0x73u8, 0x65u8, 0x72u8, 0x74u8]);
    reveal_strlit("DELETE");
    assert(vstd::string::is_ascii("DELETE"));
    vstd::string::is_ascii_spec_bytes("DELETE");
    assert(lower_seq("DELETE".spec_bytes()) =~= seq![0x64u8, 0x65u8, 0x6Cu8, 0x65u8, 0x74u8, 0x65u8]);
}

/// What matching a keyword says of a key: its length and a few of its
/// lower-cased bytes, enough to tell any two keywords apart.
pub proof fn lemma_keyword_shape(k: Seq<u8>)
    ensures
        eq_ignore_case(k, "Length".spec_bytes()) ==> k.len() == 6 && ascii_lower(k[0]) == 0x6Cu8 && ascii_lower(k[2]) == 0x6Eu8,
        eq_ignore_case(k, "Duration".spec_bytes()) ==> k.len() == 8 && ascii_lower(k[0]) == 0x64u8 && ascii_lower(k[2]) == 0x72u8 && ascii_lower(k[6]) == 0x6Fu8,
        eq_ignore_case(k, "Delta".spec_bytes()) ==> k.len() == 5 && ascii_lower(k[0]) == 0x64u8 && ascii_lower(k[2]) == 0x6Cu8,
        eq_ignore_case(k, "Lyric".spec_bytes()) ==> k.len() == 5 && ascii_lower(k[0]) == 0x6Cu8 && ascii_lower(k[2]) == 0x72u8,
        eq_ignore_case(k, "NoteNum".spec_bytes()) ==> k.len() == 7 && ascii_lower(k[0]) == 0x6Eu8 && ascii_lower(k[2]) == 0x74u8 && ascii_lower(k[6]) == 0x6Du8,
        eq_ignore_case(k, "Tempo".spec_bytes()) ==> k.len() == 5 && ascii_lower(k[0]) == 0x74u8 && ascii_lower(k[2]) == 0x6Du8,
        eq_ignore_case(k, "Velocity".spec_bytes()) ==> k.len() == 8 && ascii_lower(k[0]) == 0x76u8 && ascii_lower(k[2]) == 0x6Cu8 && ascii_lower(k[6]) == 0x74u8,
        eq_ignore_case(k, "Intensity".spec_bytes()) ==> k.len() == 9 && ascii_lower(k[0]) == 0x69u8 && ascii_lower(k[2]) == 0x74u8 && ascii_lower(k[6]) == 0x69u8,
        eq_ignore_case(k, "Modulation".spec_bytes()) ==> k.len() == 10 && ascii_lower(k[0]) == 0x6Du8 && ascii_lower(k[2]) == 0x64u8 && ascii_lower(k[6]) == 0x74u8,
        eq_ignore_case(k, "Moduration".spec_bytes()) ==> k.len() == 10 && ascii_lower(k[0]) == 0x6Du8 && ascii_lower(k[2]) == 0x64u8 && ascii_lower(k[6]) == 0x74u8,
        eq_ignore_case(k, "Flags".spec_bytes()) ==> k.len() == 5 && ascii_lower(k[0]) == 0x66u8 && ascii_lower(k[2]) == 0x61u8,
        eq_ignore_case(k, "PreUtterance".spec_bytes()) ==> k.len() == 12 && ascii_lower(k[0]) == 0x70u8 && ascii_lower(k[2]) == 0x65u8 && ascii_lower(k[6]) == 0x65u8,
        eq_ignore_case(k, "VoiceOverlap".spec_bytes()) ==> k.len() == 12 && ascii_lower(k[0]) == 0x76u8 && ascii_lower(k[2]) == 0x69u8 && ascii_lower(k[6]) == 0x76u8,
        eq_ignore_case(k, "StartPoint".spec_bytes()) ==> k.len() == 10 && ascii_lower(k[0]) == 0x73u8 && ascii_lower(k[2]) == 0x61u8 && ascii_lower(k[6]) == 0x6Fu8,
        eq_ignore_case(k, "Envelope".spec_bytes()) ==> k.len() == 8 && ascii_lower(k[0]) == 0x65u8 && ascii_lower(k[2]) == 0x76u8 && ascii_lower(k[6]) == 0x70u8,
        eq_ignore_case(k, "PBS".spec_bytes()) ==> k.len() == 3 && ascii_lower(k[0]) == 0x70u8 && ascii_lower(k[2]) == 0x73u8,
        eq_ignore_case(k, "PBW".spec_bytes()) ==> k.len() == 3 && ascii_lower(k[0]) == 0x70u8 && ascii_lower(k[2]) == 0x77u8,
        eq_ignore_case(k, "PBY".spec_bytes()) ==> k.len() == 3 && ascii_lower(k[0]) == 0x70u8 && ascii_lower(k[2]) == 0x79u8,
        eq_ignore_case(k, "PBM".spec_bytes()) ==> k.len() == 3 && ascii_lower(k[0]) == 0x70u8 && ascii_lower(k[2]) == 0x6Du8,
        eq_ignore_case(k, "Pitches".spec_bytes()) ==> k.len() == 7 && ascii_lower(k[0]) == 0x70u8 && ascii_lower(k[2]) == 0x74u8 && ascii_lower(k[6]) == 0x73u8,
        eq_ignore_case(k, "Piches".spec_bytes()) ==> k.len() == 6 && ascii_lower(k[0]) == 0x70u8 && ascii_lower(k[2]) == 0x63u8,
        eq_ignore_case(k, "PitchBend".spec_bytes()) ==> k.len() == 9 && ascii_lower(k[0]) == 0x70u8 && ascii_lower(k[2]) == 0x74u8 && ascii_lower(k[6]) == 0x65u8,
        eq_ignore_case(k, "VBR".spec_bytes()) ==> k.len() == 3 && ascii_lower(k[0]) == 0x76u8 && ascii_lower(k[2]) == 0x72u8,
        eq_ignore_case(k, "Charset".spec_bytes()) ==> k.len() == 7 && ascii_lower(k[0]) == 0x63u8 && ascii_lower(k[2]) == 0x61u8 && ascii_lower(k[6]) == 0x74u8,
        eq_ignore_case(k, "UST Version".spec_bytes()) ==> k.len() == 11 && ascii_lower(k[0]) == 0x75u8 && ascii_lower(k[2]) == 0x74u8 && ascii_lower(k[6]) == 0x72u8,
        eq_ignore_case(k, "VERSION".spec_bytes()) ==> k.len() == 7 && ascii_lower(k[0]) == 0x76u8 && ascii_lower(k[2]) == 0x72u8 && ascii_lower(k[6]) == 0x6Eu8,
        eq_ignore_case(k, "SETTING".spec_bytes()) ==> k.len() == 7 && ascii_lower(k[0]) == 0x73u8 && ascii_lower(k[2]) == 0x74u8 && ascii_lower(k[6]) == 0x67u8,
        eq_ignore_case(k, "TRACKEND".spec_bytes()) ==> k.len() == 8 && ascii_lower(k[0]) == 0x74u8 && ascii_lower(k[2]) == 0x61u8 && ascii_lower(k[6]) == 0x6Eu8,
        eq_ignore_case(k, "PREV".spec_bytes()) ==> k.len() == 4 && ascii_lower(k[0]) == 0x70u8 && ascii_lower(k[2]) == 0x65u8,
        eq_ignore_case(k, "NEXT".spec_bytes()) ==> k.len() == 4 && ascii_lower(k[0]) == 0x6Eu8 && ascii_lower(k[2]) == 0x78u8,
        eq_ignore_case(k, "INSERT".spec_bytes()) ==> k.len() == 6 && ascii_lower(k[0]) == 0x69u8 && ascii_lower(k[2]) == 0x73u8,
        eq_ignore_case(k, "DELETE".spec_bytes()) ==> k.len() == 6 && ascii_lower(k[0]) == 0x64u8 && ascii_lower(k[2]) == 0x6Cu8,
{
    lemma_keywords_lower();
    if eq_ignore_case(k, "Length".spec_bytes()) {
        lemma_eq_ignore_case_lower(k, "Length".spec_bytes());
        assert(lower_seq(k).len() == k.len());
        assert(lower_seq(k)[0] == ascii_lower(k[0]));
        assert(lower_seq(k)[2] == ascii_lower(k[2]));
    }
    if eq_ignore_case(k, "Duration".spec_bytes()) {
        lemma_eq_ignore_case_lower(k, "Duration".spec_bytes());
        assert(lower_seq(k).len() == k.len());
        assert(lower_seq(k)[0] == ascii_lower(k[0]));
        assert(lower_seq(k)[2] == ascii_lower(k[2]));
        assert(lower_seq(k)[6] == ascii_lower(k[6]));
    }
    if eq_ignore_case(k, "Delta".spec_bytes()) {
        lemma_eq_ignore_case_lower(k, "Delta".spec_bytes());
        assert(lower_seq(k).len() == k.len());
        assert(lower_seq(k)[0] == ascii_lower(k[0]));
        assert(lower_seq(k)[2] == ascii_lower(k[2]));
    }
    if eq_ignore_case(k, "Lyric".spec_bytes()) {
        lemma_eq_ignore_case_lower(k, "Lyric".spec_bytes());
        assert(lower_seq(k).len() == k.len());
        assert(lower_seq(k)[0] == ascii_lower(k[0]));
        assert(lower_seq(k)[2] == ascii_lower(k[2]));
    }
    if eq_ignore_case(k, "NoteNum".spec_bytes()) {
        lemma_eq_ignore_case_lower(k, "NoteNum".spec_bytes());
        assert(lower_seq(k).len() == k.len());
        assert(lower_seq(k)[0] == ascii_lower(k[0]));
        assert(lower_seq(k)[2] == ascii_lower(k[2]));
        assert(lower_seq(k)[6] == ascii_lower(k[6]));
    }
    if eq_ignore_case(k, "Tempo".spec_bytes()) {
        lemma_eq_ignore_case_lower(k, "Tempo".spec_bytes());
        assert(lower_seq(k).len() == k.len());
        assert(lower_seq(k)[0] == ascii_lower(k[0]));
        assert(lower_seq(k)[2] == ascii_lower(k[2]));
    }
    if eq_ignore_case(k, "Velocity".spec_bytes()) {
        lemma_eq_ignore_case_lower(k, "Velocity".spec_bytes());
        assert(lower_seq(k).len() == k.len());
        assert(lower_seq(k)[0] == ascii_lower(k[0]));
        assert(lower_seq(k)[2] == ascii_lower(k[2]));
        assert(lower_seq(k)[6] == ascii_lower(k[6]));
    }
    if eq_ignore_case(k, "Intensity".spec_bytes()) {
        lemma_eq_ignore_case_lower(k, "Intensity".spec_bytes());
        assert(lower_seq(k).len() == k.len());
        assert(lower_seq(k)[0] == ascii_lower(k[0]));
        assert(lower_seq(k)[2] == ascii_lower(k[2]));
        assert(lower_seq(k)[6] == ascii_lower(k[6]));
    }
    if eq_ignore_case(k, "Modulation".spec_bytes()) {
        lemma_eq_ignore_case_lower(k, "Modulation".spec_bytes());
        assert(lower_seq(k).len() == k.len());
        assert(lower_seq(k)[0] == ascii_lower(k[0]));
        assert(lower_seq(k)[2] == ascii_lower(k[2]));
        assert(lower_seq(k)[6] == ascii_lower(k[6]));
    }
    if eq_ignore_case(k, "Moduration".spec_bytes()) {
        lemma_eq_ignore_case_lower(k, "Moduration".spec_bytes());
        assert(lower_seq(k).len() == k.len());
        assert(lower_seq(k)[0] == ascii_lower(k[0]));
        assert(lower_seq(k)[2] == ascii_lower(k[2]));
        assert(lower_seq(k)[6] == ascii_lower(k[6]));
    }
    if eq_ignore_case(k, "Flags".spec_bytes()) {
        lemma_eq_ignore_case_lower(k, "Flags".spec_bytes());
        assert(lower_seq(k).len() == k.len());
        assert(lower_seq(k)[0] == ascii_lower(k[0]));
        assert(lower_seq(k)[2] == ascii_lower(k[2]));
    }
    if eq_ignore_case(k, "PreUtterance".spec_bytes()) {
        lemma_eq_ignore_case_lower(k, "PreUtterance".spec_bytes());
        assert(lower_seq(k).len() == k.len());
        assert(lower_seq(k)[0] == ascii_lower(k[0]));
        assert(lower_seq(k)[2] == ascii_lower(k[2]));
        assert(lower_seq(k)[6] == ascii_lower(k[6]));
    }
    if eq_ignore_case(k, "VoiceOverlap".spec_bytes()) {
        lemma_eq_ignore_case_lower(k, "VoiceOverlap".spec_bytes());
        assert(lower_seq(k).len() == k.len());
        assert(lower_seq(k)[0] == ascii_lower(k[0]));
        assert(lower_seq(k)[2] == ascii_lower(k[2]));
        assert(lower_seq(k)[6] == ascii_lower(k[6]));
    }
    if eq_ignore_case(k, "StartPoint".spec_bytes()) {
        lemma_eq_ignore_case_lower(k, "StartPoint".spec_bytes());
        assert(lower_seq(k).len() == k.len());
        assert(lower_seq(k)[0] == ascii_lower(k[0]));
        assert(lower_seq(k)[2] == ascii_lower(k[2]));
        assert(lower_seq(k)[6] == ascii_lower(k[6]));
    }
    if eq_ignore_case(k, "Envelope".spec_bytes()) {
        lemma_eq_ignore_case_lower(k, "Envelope".spec_bytes());
        assert(lower_seq(k).len() == k.len());
        assert(lower_seq(k)[0] == ascii_lower(k[0]));
        assert(lower_seq(k)[2] == ascii_lower(k[2]));
        assert(lower_seq(k)[6] == ascii_lower(k[6]));
    }
    if eq_ignore_case(k, "PBS".spec_bytes()) {
        lemma_eq_ignore_case_lower(k, "PBS".spec_bytes());
        assert(lower_seq(k).len() == k.len());
        assert(lower_seq(k)[0] == ascii_lower(k[0]));
        assert(lower_seq(k)[2] == ascii_lower(k[2]));
    }
    if eq_ignore_case(k, "PBW".spec_bytes()) {
        lemma_eq_ignore_case_lower(k, "PBW".spec_bytes());
        assert(lower_seq(k).len() == k.len());
        assert(lower_seq(k)[0] == ascii_lower(k[0]));
        assert(lower_seq(k)[2] == ascii_lower(k[2]));
    }
    if eq_ignore_case(k, "PBY".spec_bytes()) {
        lemma_eq_ignore_case_lower(k, "PBY".spec_bytes());
        assert(lower_seq(k).len() == k.len());
        assert(lower_seq(k)[0] == ascii_lower(k[0]));
        assert(lower_seq(k)[2] == ascii_lower(k[2]));
    }
    if eq_ignore_case(k, "PBM".spec_bytes()) {
        lemma_eq_ignore_case_lower(k, "PBM".spec_bytes());
        assert(lower_seq(k).len() == k.len());
        assert(lower_seq(k)[0] == ascii_lower(k[0]));
        assert(lower_seq(k)[2] == ascii_lower(k[2]));
    }
    if eq_ignore_case(k, "Pitches".spec_bytes()) {
        lemma_eq_ignore_case_lower(k, "Pitches".spec_bytes());
        assert(lower_seq(k).len() == k.len());
        assert(lower_seq(k)[0] == ascii_lower(k[0]));
        assert(lower_seq(k)[2] == ascii_lower(k[2]));
        assert(lower_seq(k)[6] == ascii_lower(k[6]));
    }
    if eq_ignore_case(k, "Piches".spec_bytes()) {
        lemma_eq_ignore_case_lower(k, "Piches".spec_bytes());
        assert(lower_seq(k).len() == k.len());
        assert(lower_seq(k)[0] == ascii_lower(k[0]));
        assert(lower_seq(k)[2] == ascii_lower(k[2]));
    }
    if eq_ignore_case(k, "PitchBend".spec_bytes()) {
        lemma_eq_ignore_case_lower(k, "PitchBend".spec_bytes());
        assert(lower_seq(k).len() == k.len());
        assert(lower_seq(k)[0] == ascii_lower(k[0]));
        assert(lower_seq(k)[2] == ascii_lower(k[2]));
        assert(lower_seq(k)[6] == ascii_lower(k[6]));
    }
    if eq_ignore_case(k, "VBR".spec_bytes()) {
        lemma_eq_ignore_case_lower(k, "VBR".spec_bytes());
        assert(lower_seq(k).len() == k.len());
        assert(lower_seq(k)[0] == ascii_lower(k[0]));
        assert(lower_seq(k)[2] == ascii_lower(k[2]));
    }
    if eq_ignore_case(k, "Charset".spec_bytes()) {
        lemma_eq_ignore_case_lower(k, "Charset".spec_bytes());
        assert(lower_seq(k).len() == k.len());
        assert(lower_seq(k)[0] == ascii_lower(k[0]));
        assert(lower_seq(k)[2] == ascii_lower(k[2]));
        assert(lower_seq(k)[6] == ascii_lower(k[6]));
    }
    if eq_ignore_case(k, "UST Version".spec_bytes()) {
        lemma_eq_ignore_case_lower(k, "UST Version".spec_bytes());
        assert(lower_seq(k).len() == k.len());
        assert(lower_seq(k)[0] == ascii_lower(k[0]));
        assert(lower_seq(k)[2] == ascii_lower(k[2]));
        assert(lower_seq(k)[6] == ascii_lower(k[6]));
    }
    if eq_ignore_case(k, "VERSION".spec_bytes()) {
        lemma_eq_ignore_case_lower(k, "VERSION".spec_bytes());
        assert(lower_seq(k).len() == k.len());
        assert(lower_seq(k)[0] == ascii_lower(k[0]));
        assert(lower_seq(k)[2] == ascii_lower(k[2]));
        assert(lower_seq(k)[6] == ascii_lower(k[6]));
    }
    if eq_ignore_case(k, "SETTING".spec_bytes()) {
        lemma_eq_ignore_case_lower(k, "SETTING".spec_bytes());
        assert(lower_seq(k).len() == k.len());
        assert(lower_seq(k)[0] == ascii_lower(k[0]));
        assert(lower_seq(k)[2] == ascii_lower(k[2]));
        assert(lower_seq(k)[6] == ascii_lower(k[6]));
    }
    if eq_ignore_case(k, "TRACKEND".spec_bytes()) {
        lemma_eq_ignore_case_lower(k, "TRACKEND".spec_bytes());
        assert(lower_seq(k).len() == k.len());
        assert(lower_seq(k)[0] == ascii_lower(k[0]));
        assert(lower_seq(k)[2] == ascii_lower(k[2]));
        assert(lower_seq(k)[6] == ascii_lower(k[6]));
    }
    if eq_ignore_case(k, "PREV".spec_bytes()) {
        lemma_eq_ignore_case_lower(k, "PREV".spec_bytes());
        assert(lower_seq(k).len() == k.len());
        assert(lower_seq(k)[0] == ascii_lower(k[0]));
        assert(lower_seq(k)[2] == ascii_lower(k[2]));
    }
    if eq_ignore_case(k, "NEXT".spec_bytes()) {
        lemma_eq_ignore_case_lower(k, "NEXT".spec_bytes());
        assert(lower_seq(k).len() == k.len());
        assert(lower_seq(k)[0] == ascii_lower(k[0]));
        assert(lower_seq(k)[2] == ascii_lower(k[2]));
    }
    if eq_ignore_case(k, "INSERT".spec_bytes()) {
        lemma_eq_ignore_case_lower(k, "INSERT".spec_bytes());
        assert(lower_seq(k).len() == k.len());
        assert(lower_seq(k)[0] == ascii_lower(k[0]));
        assert(lower_seq(k)[2] == ascii_lower(k[2]));
    }
    if eq_ignore_case(k, "DELETE".spec_bytes()) {
        lemma_eq_ignore_case_lower(k, "DELETE".spec_bytes());
        assert(lower_seq(k).len() == k.len());
        assert(lower_seq(k)[0] == ascii_lower(k[0]));
        assert(lower_seq(k)[2] == ascii_lower(k[2]));
    }
}

} // verus!
