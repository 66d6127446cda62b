//! The alignment of a status block: one of three string-coded variants.

use vstd::prelude::*;
use vstd::string::StrSliceExecFns;
use vstd::string::StringExecFns;

use crate::errors::DecodeError;
use crate::text::str_eq;

verus! {

/// How a status block is aligned inside its slot on the bar.
#[derive(Debug, Clone, Copy, PartialEq, Eq, Structural)]
pub enum Alignment {
    Right,
    Left,
    Center,
}

/// The wire token of each alignment variant.
pub open spec fn align_token(a: Alignment) -> Seq<char> {
    match a {
        Alignment::Right => "right"@,
        Alignment::Left => "left"@,
        Alignment::Center => "center"@,
    }
}

/// What decoding an alignment token yields: the variant whose token the
/// string is, or nothing when it matches none of the three.
pub open spec fn spec_decode_align(s: Seq<char>) -> Option<Alignment> {
    if s == align_token(Alignment::Right) {
        Some(Alignment::Right)
    } else if s == align_token(Alignment::Left) {
        Some(Alignment::Left)
    } else if s == align_token(Alignment::Center) {
        Some(Alignment::Center)
    } else {
        None
    }
}

/// Decoding a variant's own token yields that variant: the three tokens are
/// pairwise distinct, so encode followed by decode is the identity.
pub proof fn lemma_alignment_round_trip(a: Alignment)
    ensures
        spec_decode_align(align_token(a)) == Some(a),
{
    reveal_strlit("right");
    reveal_strlit("left");
    reveal_strlit("center");
    assert("right"@.len() == 5);
    assert("left"@.len() == 4);
    assert("center"@.len() == 6);
    match a {
        Alignment::Right => {
        },
        Alignment::Left => {
            assert("left"@ != "right"@);
        },
        Alignment::Center => {
            assert("center"@ != "right"@);
            assert("center"@ != "left"@);
        },
    }
}

/// Decode then encode reproduces the token exactly: a string that decodes at
/// all is the encoding of what it decoded to.
pub proof fn lemma_alignment_token_exact(s: Seq<char>, a: Alignment)
    requires
        spec_decode_align(s) == Some(a),
    ensures
        align_token(a) == s,
{
}

/// Whether `s` is a JSON string literal in shape: at least two characters,
/// the first and the last a double quote.
pub open spec fn is_quoted(s: Seq<char>) -> bool {
    s.len() >= 2 && s[0] == '"' && s.last() == '"'
}

/// The text between the quotes.
pub open spec fn quoted_inner(s: Seq<char>) -> Seq<char> {
    s.subrange(1, s.len() - 1)
}

impl Alignment {
    /// The wire token of this variant.
    pub fn encode(&self) -> (r: &'static str)
        ensures
            r@ == align_token(*self),
    {
        match self {
            Alignment::Right => "right",
            Alignment::Left => "left",
            Alignment::Center => "center",
        }
    }

    /// Decodes a bare token; any other string is rejected with an error that
    /// names it.
    pub fn decode(s: &str) -> (r: Result<Alignment, DecodeError>)
        ensures
            match r {
                Ok(a) => spec_decode_align(s@) == Some(a),
                Err(e) => spec_decode_align(s@) is None && (e matches DecodeError::InvalidAlignment(t)
                    && t@ == s@),
            },
    {
        if str_eq(s, "right") {
            Ok(Alignment::Right)
        } else if str_eq(s, "left") {
            Ok(Alignment::Left)
        } else if str_eq(s, "center") {
            Ok(Alignment::Center)
        } else {
            Err(DecodeError::InvalidAlignment(s.to_owned()))
        }
    }

    /// The token of this variant as a JSON string literal, quotes included.
    pub fn encode_json(&self) -> (r: String)
        ensures
            r@ == "\""@ + align_token(*self) + "\""@,
    {
        let mut out = String::from_str("\"");
        out.append(self.encode());
        out.append("\"");
        out
    }

    /// Decodes a JSON string literal holding a token. A line that is not a
    /// quoted string at all is malformed; a quoted string whose content is no
    /// token is rejected with an error naming that content.
    pub fn decode_json(s: &str) -> (r: Result<Alignment, DecodeError>)
        ensures
            match r {
                Ok(a) => is_quoted(s@) && spec_decode_align(quoted_inner(s@)) == Some(a),
                Err(e) => match e {
                    DecodeError::InvalidAlignment(t) => is_quoted(s@) && t@ == quoted_inner(s@)
                        && spec_decode_align(quoted_inner(s@)) is None,
                    DecodeError::Malformed(t) => !is_quoted(s@) && t@ == s@,
                    _ => false,
                },
            },
    {
        let n = s.unicode_len();
        if n >= 2 && s.get_char(0) == '"' && s.get_char(n - 1) == '"' {
            let inner = s.substring_char(1, n - 1);
            Self::decode(inner)
        } else {
            Err(DecodeError::Malformed(s.to_owned()))
        }
    }
}

} // verus!
