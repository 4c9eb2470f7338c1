//! The tournament-format classifier: a total, case-insensitive,
//! whitespace-trimmed mapping from free text onto a closed token set.

use vstd::prelude::*;
use crate::text::{lower, spec_trim, trim_str, window_lower_eq};

verus! {

/// The closed set of recognized tournament formats, plus a catch-all.
#[derive(Eq, PartialEq, Structural, Copy, Clone, Debug)]
pub enum Format {
    Standard,
    Pioneer,
    Modern,
    Legacy,
    Vintage,
    Pauper,
    Historic,
    Alchemy,
    Explorer,
    Premodern,
    OldSchool,
    Unknown,
}

/// The canonical lowercase storage token of each format.
pub open spec fn spec_token(f: Format) -> Seq<char> {
    match f {
        Format::Standard => "standard"@,
        Format::Pioneer => "pioneer"@,
        Format::Modern => "modern"@,
        Format::Legacy => "legacy"@,
        Format::Vintage => "vintage"@,
        Format::Pauper => "pauper"@,
        Format::Historic => "historic"@,
        Format::Alchemy => "alchemy"@,
        Format::Explorer => "explorer"@,
        Format::Premodern => "premodern"@,
        Format::OldSchool => "oldschool"@,
        Format::Unknown => "unknown"@,
    }
}

/// Classification of free text: trim, fold case, then match the token set.
/// Anything unrecognized (including "unknown" itself) maps to `Unknown`.
pub open spec fn spec_classify(s: Seq<char>) -> Format {
    let t = lower(spec_trim(s));
    if t == spec_token(Format::Standard) {
        Format::Standard
    } else if t == spec_token(Format::Pioneer) {
        Format::Pioneer
    } else if t == spec_token(Format::Modern) {
        Format::Modern
    } else if t == spec_token(Format::Legacy) {
        Format::Legacy
    } else if t == spec_token(Format::Vintage) {
        Format::Vintage
    } else if t == spec_token(Format::Pauper) {
        Format::Pauper
    } else if t == spec_token(Format::Historic) {
        Format::Historic
    } else if t == spec_token(Format::Alchemy) {
        Format::Alchemy
    } else if t == spec_token(Format::Explorer) {
        Format::Explorer
    } else if t == spec_token(Format::Premodern) {
        Format::Premodern
    } else if t == spec_token(Format::OldSchool) {
        Format::OldSchool
    } else {
        Format::Unknown
    }
}

impl Format {
    /// Classify a free-text label.  Total: never fails, unrecognized text
    /// yields `Unknown`.
    pub fn classify(s: &str) -> (r: Format)
        ensures
            r == spec_classify(s@),
    {
        let t = trim_str(s);
        let len = t.unicode_len();
        proof {
            assert(t@.subrange(0, t@.len() as int) =~= t@);
        }
        if window_lower_eq(t, 0, len, "standard") {
            Format::Standard
        } else if window_lower_eq(t, 0, len, "pioneer") {
            Format::Pioneer
        } else if window_lower_eq(t, 0, len, "modern") {
            Format::Modern
        } else if window_lower_eq(t, 0, len, "legacy") {
            Format::Legacy
        } else if window_lower_eq(t, 0, len, "vintage") {
            Format::Vintage
        } else if window_lower_eq(t, 0, len, "pauper") {
            Format::Pauper
        } else if window_lower_eq(t, 0, len, "historic") {
            Format::Historic
        } else if window_lower_eq(t, 0, len, "alchemy") {
            Format::Alchemy
        } else if window_lower_eq(t, 0, len, "explorer") {
            Format::Explorer
        } else if window_lower_eq(t, 0, len, "premodern") {
            Format::Premodern
        } else if window_lower_eq(t, 0, len, "oldschool") {
            Format::OldSchool
        } else {
            Format::Unknown
        }
    }

    /// The canonical lowercase token under which this format is stored.
    pub fn to_token(self) -> (r: &'static str)
        ensures
            r@ == spec_token(self),
    {
        match self {
            Format::Standard => "standard",
            Format::Pioneer => "pioneer",
            Format::Modern => "modern",
            Format::Legacy => "legacy",
            Format::Vintage => "vintage",
            Format::Pauper => "pauper",
            Format::Historic => "historic",
            Format::Alchemy => "alchemy",
            Format::Explorer => "explorer",
            Format::Premodern => "premodern",
            Format::OldSchool => "oldschool",
            Format::Unknown => "unknown",
        }
    }
}

/// Tokens contain no whitespace and no uppercase letters, so trimming and
/// case folding leave them unchanged.
proof fn lemma_plain_text(s: Seq<char>)
    requires
        s.len() > 0,
        forall|i: int|
            0 <= i < s.len() ==> !crate::text::is_space(s[i]) && !('A' <= s[i] && s[i] <= 'Z'),
    ensures
        lower(spec_trim(s)) == s,
{
    assert(crate::text::rtrim(s) == s);
    assert(crate::text::ltrim(s) == s);
    assert(lower(s) =~= s);
}

/// Law: classification is the exact inverse of serialization.  For every
/// format `f`, `classify(to_token(f))` yields `f` back (for `Unknown` this
/// holds because its token is itself outside the recognized set).
pub proof fn lemma_classify_token_roundtrip(f: Format)
    ensures
        spec_classify(spec_token(f)) == f,
{
    reveal_strlit("standard");
    reveal_strlit("pioneer");
    reveal_strlit("modern");
    reveal_strlit("legacy");
    reveal_strlit("vintage");
    reveal_strlit("pauper");
    reveal_strlit("historic");
    reveal_strlit("alchemy");
    reveal_strlit("explorer");
    reveal_strlit("premodern");
    reveal_strlit("oldschool");
    reveal_strlit("unknown");
    lemma_plain_text(spec_token(f));
}

impl From<&str> for Format {
    /// Same total mapping as `classify`.
    fn from(s: &str) -> (r: Format) {
        Format::classify(s)
    }
}

impl vstd::std_specs::convert::FromSpecImpl<&str> for Format {
    open spec fn obeys_from_spec() -> bool {
        true
    }

    open spec fn from_spec(s: &str) -> Format {
        spec_classify(s@)
    }
}

} // verus!
