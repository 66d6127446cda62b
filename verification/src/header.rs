//! The protocol header: the opening JSON object of the stream, its decoder,
//! its encoder, and the relay's one mutation of it.
//!
//! The accepted shape is a single JSON object whose keys are `"version"`,
//! `"stop_signal"`, `"cont_signal"` and `"click_events"`, in any order, with
//! unsigned decimal integers for the first three and `true` or `false` for
//! the last, with optional blanks between tokens and after the closing brace.

use vstd::prelude::*;
use vstd::string::StrSliceExecFns;
use vstd::string::StringExecFns;

use crate::digits::digit_val_exec;
use crate::digits::encode_usize;
use crate::digits::fold_digits;
use crate::digits::is_digit;
use crate::digits::lemma_fold_digits_bounds;
use crate::digits::num_cap;
use crate::digits::spec_digits;
use crate::errors::DecodeError;

verus! {

/// The typed protocol header.
#[derive(Debug, Clone, Copy, PartialEq, Eq)]
pub struct Header {
    /// Protocol version the consumer must understand; always present.
    pub version: usize,
    /// Signal number that pauses the generator, when given.
    pub stop_signal: Option<usize>,
    /// Signal number that resumes the generator, when given.
    pub cont_signal: Option<usize>,
    /// Whether the consumer may send click events, when given.
    pub click_events: Option<bool>,
}

/// The four keys a header object may carry.
#[derive(Debug, Clone, Copy, PartialEq, Eq, Structural)]
pub enum HeaderKey {
    Version,
    StopSignal,
    ContSignal,
    ClickEvents,
}

/// The fields gathered while reading a header object. Integer values are held
/// in `u128`, saturated at `num_cap()`, so a written number too large for
/// `usize` is still remembered exactly as "too large".
#[derive(Debug, Clone, Copy, PartialEq, Eq)]
pub struct HeaderAcc {
    pub version: Option<u128>,
    pub stop_signal: Option<u128>,
    pub cont_signal: Option<u128>,
    pub click_events: Option<bool>,
}

pub open spec fn empty_acc() -> HeaderAcc {
    HeaderAcc { version: None, stop_signal: None, cont_signal: None, click_events: None }
}

/// `f` with the numeric field named by `k` set to `v`.
pub open spec fn acc_with_num(f: HeaderAcc, k: HeaderKey, v: u128) -> HeaderAcc {
    match k {
        HeaderKey::Version => HeaderAcc { version: Some(v), ..f },
        HeaderKey::StopSignal => HeaderAcc { stop_signal: Some(v), ..f },
        HeaderKey::ContSignal => HeaderAcc { cont_signal: Some(v), ..f },
        HeaderKey::ClickEvents => f,
    }
}

/// `f` with the click-events field set to `b`.
pub open spec fn acc_with_click(f: HeaderAcc, b: bool) -> HeaderAcc {
    HeaderAcc { click_events: Some(b), ..f }
}

pub open spec fn is_ws(c: char) -> bool {
    c == ' ' || c == '\t' || c == '\r' || c == '\n'
}

/// The remaining input once leading blanks are dropped.
pub open spec fn skip_ws_s(s: Seq<char>) -> Seq<char>
    decreases s.len(),
{
    if s.len() > 0 && is_ws(s[0]) {
        skip_ws_s(s.drop_first())
    } else {
        s
    }
}

pub open spec fn starts_with(s: Seq<char>, p: Seq<char>) -> bool {
    p.len() <= s.len() && s.subrange(0, p.len() as int) == p
}

/// The quoted text of each header key on the wire.
pub open spec fn key_text(k: HeaderKey) -> Seq<char> {
    match k {
        HeaderKey::Version => "\"version\""@,
        HeaderKey::StopSignal => "\"stop_signal\""@,
        HeaderKey::ContSignal => "\"cont_signal\""@,
        HeaderKey::ClickEvents => "\"click_events\""@,
    }
}

/// Reads one quoted key, returning it with the input that follows it.
pub open spec fn parse_key_s(s: Seq<char>) -> Option<(HeaderKey, Seq<char>)> {
    if starts_with(s, key_text(HeaderKey::Version)) {
        Some((HeaderKey::Version, s.skip(key_text(HeaderKey::Version).len() as int)))
    } else if starts_with(s, key_text(HeaderKey::StopSignal)) {
        Some((HeaderKey::StopSignal, s.skip(key_text(HeaderKey::StopSignal).len() as int)))
    } else if starts_with(s, key_text(HeaderKey::ContSignal)) {
        Some((HeaderKey::ContSignal, s.skip(key_text(HeaderKey::ContSignal).len() as int)))
    } else if starts_with(s, key_text(HeaderKey::ClickEvents)) {
        Some((HeaderKey::ClickEvents, s.skip(key_text(HeaderKey::ClickEvents).len() as int)))
    } else {
        None
    }
}

/// The length of the leading run of decimal digits.
pub open spec fn digit_run_len(s: Seq<char>) -> int
    decreases s.len(),
{
    if s.len() > 0 && is_digit(s[0]) {
        1 + digit_run_len(s.drop_first())
    } else {
        0
    }
}

/// Reads one value for key `k` and stores it in `f`: a nonempty digit run for
/// the numeric keys, `true` or `false` for the click-events key.
pub open spec fn parse_value_s(s: Seq<char>, k: HeaderKey, f: HeaderAcc) -> Option<
    (HeaderAcc, Seq<char>),
> {
    match k {
        HeaderKey::ClickEvents => {
            if starts_with(s, "true"@) {
                Some((acc_with_click(f, true), s.skip("true"@.len() as int)))
            } else if starts_with(s, "false"@) {
                Some((acc_with_click(f, false), s.skip("false"@.len() as int)))
            } else {
                None
            }
        },
        _ => {
            let m = digit_run_len(s);
            if m > 0 {
                Some((acc_with_num(f, k, fold_digits(s.take(m)) as u128), s.skip(m)))
            } else {
                None
            }
        },
    }
}

/// Reads `key:value` pairs separated by commas, up to and including the
/// closing brace; a later binding of a key replaces an earlier one.
pub open spec fn parse_pairs_s(s: Seq<char>, f: HeaderAcc) -> Option<(HeaderAcc, Seq<char>)>
    decreases s.len(),
{
    let s1 = skip_ws_s(s);
    match parse_key_s(s1) {
        None => None,
        Some((k, s2)) => {
            let s3 = skip_ws_s(s2);
            if s3.len() > 0 && s3[0] == ':' {
                match parse_value_s(skip_ws_s(s3.drop_first()), k, f) {
                    None => None,
                    Some((f2, s5)) => {
                        let s6 = skip_ws_s(s5);
                        if s6.len() > 0 && s6[0] == '}' {
                            Some((f2, s6.drop_first()))
                        } else if s6.len() > 0 && s6[0] == ',' && s6.len() <= s.len() {
                            parse_pairs_s(s6.drop_first(), f2)
                        } else {
                            None
                        }
                    },
                }
            } else {
                None
            }
        },
    }
}

/// Reads a whole header line: one object, then nothing but blanks.
pub open spec fn parse_header_s(s: Seq<char>) -> Option<HeaderAcc> {
    let s0 = skip_ws_s(s);
    if s0.len() > 0 && s0[0] == '{' {
        let s1 = skip_ws_s(s0.drop_first());
        if s1.len() > 0 && s1[0] == '}' {
            if skip_ws_s(s1.drop_first()).len() == 0 {
                Some(empty_acc())
            } else {
                None
            }
        } else {
            match parse_pairs_s(s0.drop_first(), empty_acc()) {
                None => None,
                Some((f, r)) => if skip_ws_s(r).len() == 0 {
                    Some(f)
                } else {
                    None
                },
            }
        }
    } else {
        None
    }
}

/// Some gathered integer does not fit in `usize`.
pub open spec fn acc_too_large(f: HeaderAcc) -> bool {
    ||| (f.version matches Some(v) && v as int > usize::MAX)
    ||| (f.stop_signal matches Some(v) && v as int > usize::MAX)
    ||| (f.cont_signal matches Some(v) && v as int > usize::MAX)
}

/// The header the gathered fields denote, once they are known to fit.
pub open spec fn acc_to_header(f: HeaderAcc) -> Header {
    Header {
        version: match f.version {
            Some(v) => v as usize,
            None => 0,
        },
        stop_signal: match f.stop_signal {
            Some(v) => Some(v as usize),
            None => None,
        },
        cont_signal: match f.cont_signal {
            Some(v) => Some(v as usize),
            None => None,
        },
        click_events: f.click_events,
    }
}

impl Default for Header {
    /// Version 1, no signals, no click-events flag.
    fn default() -> (r: Header)
        ensures
            r == (Header { version: 1, stop_signal: None, cont_signal: None, click_events: None }),
    {
        Header { version: 1, stop_signal: None, cont_signal: None, click_events: None }
    }
}

fn skip_ws_exec(s: &str, i: usize, n: usize) -> (r: usize)
    requires
        n == s@.len(),
        i <= n,
    ensures
        i <= r <= n,
        s@.skip(r as int) == skip_ws_s(s@.skip(i as int)),
    decreases n - i,
{
    if i < n {
        let c = s.get_char(i);
        if c == ' ' || c == '\t' || c == '\r' || c == '\n' {
            proof {
                assert(s@.skip(i as int).len() > 0);
                assert(s@.skip(i as int)[0] == s@[i as int]);
                assert(s@.skip(i as int).drop_first() =~= s@.skip(i as int + 1));
            }
            return skip_ws_exec(s, i + 1, n);
        }
        proof {
            assert(s@.skip(i as int)[0] == s@[i as int]);
        }
    } else {
        proof {
            assert(s@.skip(i as int).len() == 0);
        }
    }
    i
}

/// True exactly when `lit` stands in `s` at position `i`.
fn lit_at_exec(s: &str, i: usize, n: usize, lit: &str) -> (r: bool)
    requires
        n == s@.len(),
        i <= n,
    ensures
        r == starts_with(s@.skip(i as int), lit@),
{
    let m = lit.unicode_len();
    if m > n - i {
        proof {
            assert(s@.skip(i as int).len() == n - i);
        }
        return false;
    }
    let mut j: usize = 0;
    while j < m
        invariant
            j <= m,
            m <= n - i,
            i <= n,
            n == s@.len(),
            m == lit@.len(),
            forall|k: int| 0 <= k < j ==> s@[i + k] == lit@[k],
        decreases m - j,
    {
        if s.get_char(i + j) != lit.get_char(j) {
            proof {
                let suf = s@.skip(i as int);
                assert(suf.subrange(0, m as int)[j as int] == s@[i + j]);
                assert(!starts_with(suf, lit@));
            }
            return false;
        }
        j += 1;
    }
    proof {
        assert(s@.skip(i as int).subrange(0, m as int) =~= lit@);
    }
    true
}

fn parse_key_exec(s: &str, i: usize, n: usize) -> (r: Option<(HeaderKey, usize)>)
    requires
        n == s@.len(),
        i <= n,
    ensures
        match r {
            Some((k, j)) => i <= j <= n && parse_key_s(s@.skip(i as int)) == Some(
                (k, s@.skip(j as int)),
            ),
            None => parse_key_s(s@.skip(i as int)) is None,
        },
{
    if lit_at_exec(s, i, n, "\"version\"") {
        let m = "\"version\"".unicode_len();
        proof {
            assert(s@.skip(i as int).skip(m as int) =~= s@.skip(i as int + m as int));
        }
        Some((HeaderKey::Version, i + m))
    } else if lit_at_exec(s, i, n, "\"stop_signal\"") {
        let m = "\"stop_signal\"".unicode_len();
        proof {
            assert(s@.skip(i as int).skip(m as int) =~= s@.skip(i as int + m as int));
        }
        Some((HeaderKey::StopSignal, i + m))
    } else if lit_at_exec(s, i, n, "\"cont_signal\"") {
        let m = "\"cont_signal\"".unicode_len();
        proof {
            assert(s@.skip(i as int).skip(m as int) =~= s@.skip(i as int + m as int));
        }
        Some((HeaderKey::ContSignal, i + m))
    } else if lit_at_exec(s, i, n, "\"click_events\"") {
        let m = "\"click_events\"".unicode_len();
        proof {
            assert(s@.skip(i as int).skip(m as int) =~= s@.skip(i as int + m as int));
        }
        Some((HeaderKey::ClickEvents, i + m))
    } else {
        None
    }
}

/// Reads the digit run starting at `j`, extending the value gathered so far.
fn num_exec(s: &str, i: usize, j: usize, n: usize, acc: u128) -> (r: (u128, usize))
    requires
        n == s@.len(),
        i <= j <= n,
        forall|k: int| i <= k < j ==> is_digit(#[trigger] s@[k]),
        acc as int == fold_digits(s@.subrange(i as int, j as int)),
        acc as int <= num_cap(),
    ensures
        j <= r.1 <= n,
        forall|k: int| i <= k < r.1 ==> is_digit(#[trigger] s@[k]),
        r.1 == n || !is_digit(s@[r.1 as int]),
        r.0 as int == fold_digits(s@.subrange(i as int, r.1 as int)),
    decreases n - j,
{
    if j < n {
        let c = s.get_char(j);
        let d = digit_val_exec(c);
        if d < 10 {
            let cap: u128 = (usize::MAX as u128) + 1;
            let v = acc * 10 + (d as u128);
            let acc2 = if v >= cap {
                cap
            } else {
                v
            };
            proof {
                assert(s@.subrange(i as int, j as int + 1).drop_last() =~= s@.subrange(
                    i as int,
                    j as int,
                ));
                assert(s@.subrange(i as int, j as int + 1).last() == s@[j as int]);
            }
            return num_exec(s, i, j + 1, n, acc2);
        }
    }
    (acc, j)
}

/// `digit_run_len` is the length of the maximal leading digit run.
proof fn lemma_digit_run_characterize(s: Seq<char>, m: int)
    requires
        0 <= m <= s.len(),
        forall|k: int| 0 <= k < m ==> is_digit(#[trigger] s[k]),
        m == s.len() || !is_digit(s[m]),
    ensures
        digit_run_len(s) == m,
    decreases m,
{
    if m == 0 {
    } else {
        assert(is_digit(s[0]));
        lemma_digit_run_characterize(s.drop_first(), m - 1);
    }
}

fn set_num_field(f: HeaderAcc, k: HeaderKey, v: u128) -> (r: HeaderAcc)
    ensures
        r == acc_with_num(f, k, v),
{
    match k {
        HeaderKey::Version => HeaderAcc { version: Some(v), ..f },
        HeaderKey::StopSignal => HeaderAcc { stop_signal: Some(v), ..f },
        HeaderKey::ContSignal => HeaderAcc { cont_signal: Some(v), ..f },
        HeaderKey::ClickEvents => f,
    }
}

fn parse_pairs_exec(s: &str, i: usize, n: usize, f: HeaderAcc) -> (r: Option<(HeaderAcc, usize)>)
    requires
        n == s@.len(),
        i <= n,
    ensures
        match r {
            Some((f2, j)) => i <= j <= n && parse_pairs_s(s@.skip(i as int), f) == Some(
                (f2, s@.skip(j as int)),
            ),
            None => parse_pairs_s(s@.skip(i as int), f) is None,
        },
    decreases n - i,
{
    let ghost whole = s@.skip(i as int);
    let i1 = skip_ws_exec(s, i, n);
    match parse_key_exec(s, i1, n) {
        None => None,
        Some((k, i2)) => {
            let i3 = skip_ws_exec(s, i2, n);
            if i3 < n && s.get_char(i3) == ':' {
                proof {
                    assert(s@.skip(i3 as int)[0] == s@[i3 as int]);
                    assert(s@.skip(i3 as int).drop_first() =~= s@.skip(i3 as int + 1));
                }
                let i4 = skip_ws_exec(s, i3 + 1, n);
                let value_step: Option<(HeaderAcc, usize)> = match k {
                    HeaderKey::ClickEvents => {
                        if lit_at_exec(s, i4, n, "true") {
                            let m = "true".unicode_len();
                            proof {
                                assert(s@.skip(i4 as int).skip(m as int) =~= s@.skip(
                                    i4 as int + m as int,
                                ));
                            }
                            Some((HeaderAcc { click_events: Some(true), ..f }, i4 + m))
                        } else if lit_at_exec(s, i4, n, "false") {
                            let m = "false".unicode_len();
                            proof {
                                assert(s@.skip(i4 as int).skip(m as int) =~= s@.skip(
                                    i4 as int + m as int,
                                ));
                            }
                            Some((HeaderAcc { click_events: Some(false), ..f }, i4 + m))
                        } else {
                            None
                        }
                    },
                    _ => {
                        proof {
                            assert(s@.subrange(i4 as int, i4 as int) =~= Seq::<char>::empty());
                        }
                        let (v, end) = num_exec(s, i4, i4, n, 0);
                        proof {
                            let suf = s@.skip(i4 as int);
                            assert(forall|k2: int|
                                0 <= k2 < end - i4 ==> #[trigger] suf[k2] == s@[i4 + k2]);
                            if end < n {
                                assert(suf[end - i4] == s@[end as int]);
                            }
                            lemma_digit_run_characterize(suf, end - i4);
                            assert(suf.take(end - i4) =~= s@.subrange(i4 as int, end as int));
                            assert(suf.skip(end - i4) =~= s@.skip(end as int));
                            lemma_fold_digits_bounds(s@.subrange(i4 as int, end as int));
                        }
                        if end == i4 {
                            None
                        } else {
                            Some((set_num_field(f, k, v), end))
                        }
                    },
                };
                match value_step {
                    None => None,
                    Some((f2, i5)) => {
                        let i6 = skip_ws_exec(s, i5, n);
                        if i6 < n && s.get_char(i6) == '}' {
                            proof {
                                assert(s@.skip(i6 as int)[0] == s@[i6 as int]);
                                assert(s@.skip(i6 as int).drop_first() =~= s@.skip(i6 as int + 1));
                            }
                            Some((f2, i6 + 1))
                        } else if i6 < n && s.get_char(i6) == ',' {
                            proof {
                                assert(s@.skip(i6 as int)[0] == s@[i6 as int]);
                                assert(s@.skip(i6 as int).drop_first() =~= s@.skip(i6 as int + 1));
                            }
                            parse_pairs_exec(s, i6 + 1, n, f2)
                        } else {
                            proof {
                                if i6 < n {
                                    assert(s@.skip(i6 as int)[0] == s@[i6 as int]);
                                } else {
                                    assert(s@.skip(i6 as int).len() == 0);
                                }
                            }
                            None
                        }
                    },
                }
            } else {
                proof {
                    if i3 < n {
                        assert(s@.skip(i3 as int)[0] == s@[i3 as int]);
                    } else {
                        assert(s@.skip(i3 as int).len() == 0);
                    }
                }
                None
            }
        },
    }
}

/// `h` with the click-events flag set.
pub open spec fn spec_with_click(h: Header, value: bool) -> Header {
    Header { click_events: Some(value), ..h }
}

/// The canonical encoding of a header: fields in declaration order, absent
/// optional fields omitted, no blanks.
pub open spec fn spec_encode_header(h: Header) -> Seq<char> {
    "{"@ + key_text(HeaderKey::Version) + ":"@ + spec_digits(h.version as nat) + encode_tail_stop(
        h,
    )
}

pub open spec fn encode_tail_stop(h: Header) -> Seq<char> {
    match h.stop_signal {
        Some(v) => ","@ + key_text(HeaderKey::StopSignal) + ":"@ + spec_digits(v as nat)
            + encode_tail_cont(h),
        None => encode_tail_cont(h),
    }
}

pub open spec fn encode_tail_cont(h: Header) -> Seq<char> {
    match h.cont_signal {
        Some(v) => ","@ + key_text(HeaderKey::ContSignal) + ":"@ + spec_digits(v as nat)
            + encode_tail_click(h),
        None => encode_tail_click(h),
    }
}

pub open spec fn encode_tail_click(h: Header) -> Seq<char> {
    match h.click_events {
        Some(true) => ","@ + key_text(HeaderKey::ClickEvents) + ":"@ + "true"@ + "}"@,
        Some(false) => ","@ + key_text(HeaderKey::ClickEvents) + ":"@ + "false"@ + "}"@,
        None => "}"@,
    }
}

/// The fields gathered by the click-events pair of the canonical encoding.
pub open spec fn acc_after_click(h: Header, f: HeaderAcc) -> HeaderAcc {
    match h.click_events {
        Some(b) => acc_with_click(f, b),
        None => f,
    }
}

/// The fields gathered from the cont-signal pair of the canonical encoding on.
pub open spec fn acc_after_cont(h: Header, f: HeaderAcc) -> HeaderAcc {
    acc_after_click(
        h,
        match h.cont_signal {
            Some(v) => acc_with_num(f, HeaderKey::ContSignal, v as u128),
            None => f,
        },
    )
}

/// The fields gathered from the stop-signal pair of the canonical encoding on.
pub open spec fn acc_after_stop(h: Header, f: HeaderAcc) -> HeaderAcc {
    acc_after_cont(
        h,
        match h.stop_signal {
            Some(v) => acc_with_num(f, HeaderKey::StopSignal, v as u128),
            None => f,
        },
    )
}

/// The fields the parser gathers from the canonical encoding of `h`.
pub open spec fn header_acc_of(h: Header) -> HeaderAcc {
    acc_after_stop(h, acc_with_num(empty_acc(), HeaderKey::Version, h.version as u128))
}

/// What the pair reader does once a pair's value has been consumed and the
/// next character is the separator `,` or the closing `}`.
pub open spec fn step_result(rest: Seq<char>, f: HeaderAcc) -> Option<(HeaderAcc, Seq<char>)> {
    if rest.len() > 0 && rest[0] == '}' {
        Some((f, rest.drop_first()))
    } else if rest.len() > 0 && rest[0] == ',' {
        parse_pairs_s(rest.drop_first(), f)
    } else {
        None
    }
}

proof fn lemma_starts_with_prefix(p: Seq<char>, rest: Seq<char>)
    ensures
        starts_with(p + rest, p),
        (p + rest).skip(p.len() as int) == rest,
{
    assert((p + rest).subrange(0, p.len() as int) =~= p);
    assert((p + rest).skip(p.len() as int) =~= rest);
}

/// Reading a key off the input consumes exactly its quoted text: the four
/// key texts are pairwise distinguishable by their first three characters.
proof fn lemma_parse_key_canon(k: HeaderKey, rest: Seq<char>)
    ensures
        parse_key_s(key_text(k) + rest) == Some((k, rest)),
{
    reveal_strlit("\"version\"");
    reveal_strlit("\"stop_signal\"");
    reveal_strlit("\"cont_signal\"");
    reveal_strlit("\"click_events\"");
    let s = key_text(k) + rest;
    lemma_starts_with_prefix(key_text(k), rest);
    match k {
        HeaderKey::Version => {},
        HeaderKey::StopSignal => {
            assert(s[1] == 's');
            assert(!starts_with(s, key_text(HeaderKey::Version))) by {
                if starts_with(s, key_text(HeaderKey::Version)) {
                    assert(s.subrange(0, 9)[1] == s[1]);
                }
            }
        },
        HeaderKey::ContSignal => {
            assert(s[1] == 'c');
            assert(!starts_with(s, key_text(HeaderKey::Version))) by {
                if starts_with(s, key_text(HeaderKey::Version)) {
                    assert(s.subrange(0, 9)[1] == s[1]);
                }
            }
            assert(!starts_with(s, key_text(HeaderKey::StopSignal))) by {
                if starts_with(s, key_text(HeaderKey::StopSignal)) {
                    assert(s.subrange(0, 13)[1] == s[1]);
                }
            }
        },
        HeaderKey::ClickEvents => {
            assert(s[1] == 'c');
            assert(s[2] == 'l');
            assert(!starts_with(s, key_text(HeaderKey::Version))) by {
                if starts_with(s, key_text(HeaderKey::Version)) {
                    assert(s.subrange(0, 9)[1] == s[1]);
                }
            }
            assert(!starts_with(s, key_text(HeaderKey::StopSignal))) by {
                if starts_with(s, key_text(HeaderKey::StopSignal)) {
                    assert(s.subrange(0, 13)[1] == s[1]);
                }
            }
            assert(!starts_with(s, key_text(HeaderKey::ContSignal))) by {
                if starts_with(s, key_text(HeaderKey::ContSignal)) {
                    assert(s.subrange(0, 13)[2] == s[2]);
                }
            }
        },
    }
}

/// A run of digits followed by a non-digit parses as exactly that run.
proof fn lemma_digit_run_concat(d: Seq<char>, rest: Seq<char>)
    requires
        forall|i: int| 0 <= i < d.len() ==> is_digit(#[trigger] d[i]),
        rest.len() == 0 || !is_digit(rest[0]),
    ensures
        digit_run_len(d + rest) == d.len(),
        (d + rest).take(d.len() as int) == d,
        (d + rest).skip(d.len() as int) == rest,
    decreases d.len(),
{
    assert((d + rest).take(d.len() as int) =~= d);
    assert((d + rest).skip(d.len() as int) =~= rest);
    if d.len() == 0 {
        assert(d + rest =~= rest);
    } else {
        assert((d + rest)[0] == d[0]);
        assert((d + rest).drop_first() =~= d.drop_first() + rest);
        lemma_digit_run_concat(d.drop_first(), rest);
    }
}

/// Reading one canonically written numeric pair stores its value and leaves
/// the reader at the separator that follows it.
proof fn lemma_parse_pair_num(k: HeaderKey, v: usize, f: HeaderAcc, rest: Seq<char>)
    requires
        k != HeaderKey::ClickEvents,
        rest.len() > 0,
        rest[0] == ',' || rest[0] == '}',
    ensures
        parse_pairs_s(key_text(k) + ":"@ + spec_digits(v as nat) + rest, f) == step_result(
            rest,
            acc_with_num(f, k, v as u128),
        ),
{
    reveal_strlit("\"version\"");
    reveal_strlit("\"stop_signal\"");
    reveal_strlit("\"cont_signal\"");
    reveal_strlit("\"click_events\"");
    reveal_strlit(":");
    let colon = ":"@;
    let digits = spec_digits(v as nat);
    let s = key_text(k) + colon + digits + rest;
    let rest1 = colon + digits + rest;
    assert(s =~= key_text(k) + rest1);
    assert(s[0] == '"');
    assert(skip_ws_s(s) == s);
    lemma_parse_key_canon(k, rest1);
    assert(rest1[0] == ':');
    assert(skip_ws_s(rest1) == rest1);
    assert(rest1.drop_first() =~= digits + rest);
    crate::digits::lemma_spec_digits_are_digits(v as nat);
    assert((digits + rest)[0] == digits[0]);
    assert(is_digit(digits[0]));
    assert(!is_ws(digits[0]));
    assert(skip_ws_s(digits + rest) == digits + rest);
    assert(!is_digit(rest[0]));
    lemma_digit_run_concat(digits, rest);
    crate::digits::lemma_fold_spec_digits(v as nat);
    assert(skip_ws_s(rest) == rest);
    assert(parse_pairs_s(s, f) == step_result(rest, acc_with_num(f, k, v as u128)));
}

/// Reading the canonically written click-events pair stores its flag and
/// leaves the reader at the separator that follows it.
proof fn lemma_parse_pair_click(b: bool, f: HeaderAcc, rest: Seq<char>)
    requires
        rest.len() > 0,
        rest[0] == ',' || rest[0] == '}',
    ensures
        parse_pairs_s(
            key_text(HeaderKey::ClickEvents) + ":"@ + (if b {
                "true"@
            } else {
                "false"@
            }) + rest,
            f,
        ) == step_result(rest, acc_with_click(f, b)),
{
    reveal_strlit("\"version\"");
    reveal_strlit("\"stop_signal\"");
    reveal_strlit("\"cont_signal\"");
    reveal_strlit("\"click_events\"");
    reveal_strlit(":");
    reveal_strlit("true");
    reveal_strlit("false");
    let colon = ":"@;
    let tf = if b {
        "true"@
    } else {
        "false"@
    };
    let s = key_text(HeaderKey::ClickEvents) + colon + tf + rest;
    let rest1 = colon + tf + rest;
    assert(s =~= key_text(HeaderKey::ClickEvents) + rest1);
    assert(s[0] == '"');
    assert(skip_ws_s(s) == s);
    lemma_parse_key_canon(HeaderKey::ClickEvents, rest1);
    assert(rest1[0] == ':');
    assert(skip_ws_s(rest1) == rest1);
    assert(rest1.drop_first() =~= tf + rest);
    lemma_starts_with_prefix(tf, rest);
    if b {
        assert((tf + rest)[0] == 't');
    } else {
        assert((tf + rest)[0] == 'f');
        assert(!starts_with(tf + rest, "true"@)) by {
            if starts_with(tf + rest, "true"@) {
                assert((tf + rest).subrange(0, 4)[0] == (tf + rest)[0]);
            }
        }
    }
    assert(skip_ws_s(tf + rest) == tf + rest);
    assert(skip_ws_s(rest) == rest);
    assert(parse_pairs_s(s, f) == step_result(rest, acc_with_click(f, b)));
}

proof fn lemma_tail_click_first(h: Header)
    ensures
        encode_tail_click(h).len() > 0,
        encode_tail_click(h)[0] == ',' || encode_tail_click(h)[0] == '}',
{
    reveal_strlit(",");
    reveal_strlit("}");
    match h.click_events {
        Some(b) => {
            assert(encode_tail_click(h)[0] == ',');
        },
        None => {
            assert(encode_tail_click(h)[0] == '}');
        },
    }
}

proof fn lemma_tail_cont_first(h: Header)
    ensures
        encode_tail_cont(h).len() > 0,
        encode_tail_cont(h)[0] == ',' || encode_tail_cont(h)[0] == '}',
{
    reveal_strlit(",");
    lemma_tail_click_first(h);
    match h.cont_signal {
        Some(v) => {
            assert(encode_tail_cont(h)[0] == ',');
        },
        None => {},
    }
}

proof fn lemma_tail_stop_first(h: Header)
    ensures
        encode_tail_stop(h).len() > 0,
        encode_tail_stop(h)[0] == ',' || encode_tail_stop(h)[0] == '}',
{
    reveal_strlit(",");
    lemma_tail_cont_first(h);
    match h.stop_signal {
        Some(v) => {
            assert(encode_tail_stop(h)[0] == ',');
        },
        None => {},
    }
}

proof fn lemma_step_click(h: Header, f: HeaderAcc)
    ensures
        step_result(encode_tail_click(h), f) == Some(
            (acc_after_click(h, f), Seq::<char>::empty()),
        ),
{
    reveal_strlit(",");
    reveal_strlit("}");
    match h.click_events {
        None => {
            assert(encode_tail_click(h)[0] == '}');
            assert("}"@.drop_first() =~= Seq::<char>::empty());
        },
        Some(b) => {
            let tail = encode_tail_click(h);
            assert(tail[0] == ',');
            let inner = key_text(HeaderKey::ClickEvents) + ":"@ + (if b {
                "true"@
            } else {
                "false"@
            }) + "}"@;
            assert(tail.drop_first() =~= inner);
            assert("}"@.len() > 0 && "}"@[0] == '}');
            lemma_parse_pair_click(b, f, "}"@);
            assert("}"@.drop_first() =~= Seq::<char>::empty());
        },
    }
}

proof fn lemma_step_cont(h: Header, f: HeaderAcc)
    ensures
        step_result(encode_tail_cont(h), f) == Some((acc_after_cont(h, f), Seq::<char>::empty())),
{
    reveal_strlit(",");
    match h.cont_signal {
        None => {
            lemma_step_click(h, f);
        },
        Some(v) => {
            let tail = encode_tail_cont(h);
            assert(tail[0] == ',');
            let inner = key_text(HeaderKey::ContSignal) + ":"@ + spec_digits(v as nat)
                + encode_tail_click(h);
            assert(tail.drop_first() =~= inner);
            lemma_tail_click_first(h);
            lemma_parse_pair_num(HeaderKey::ContSignal, v, f, encode_tail_click(h));
            lemma_step_click(h, acc_with_num(f, HeaderKey::ContSignal, v as u128));
        },
    }
}

proof fn lemma_step_stop(h: Header, f: HeaderAcc)
    ensures
        step_result(encode_tail_stop(h), f) == Some((acc_after_stop(h, f), Seq::<char>::empty())),
{
    reveal_strlit(",");
    match h.stop_signal {
        None => {
            lemma_step_cont(h, f);
        },
        Some(v) => {
            let tail = encode_tail_stop(h);
            assert(tail[0] == ',');
            let inner = key_text(HeaderKey::StopSignal) + ":"@ + spec_digits(v as nat)
                + encode_tail_cont(h);
            assert(tail.drop_first() =~= inner);
            lemma_tail_cont_first(h);
            lemma_parse_pair_num(HeaderKey::StopSignal, v, f, encode_tail_cont(h));
            lemma_step_cont(h, acc_with_num(f, HeaderKey::StopSignal, v as u128));
        },
    }
}

/// Decoding the canonical encoding of any header yields that header again,
/// equal in every field.
pub proof fn lemma_header_round_trip(h: Header)
    ensures
        parse_header_s(spec_encode_header(h)) == Some(header_acc_of(h)),
        header_acc_of(h).version is Some,
        !acc_too_large(header_acc_of(h)),
        acc_to_header(header_acc_of(h)) == h,
{
    reveal_strlit("{");
    reveal_strlit("\"version\"");
    let e = spec_encode_header(h);
    assert(e[0] == '{');
    assert(skip_ws_s(e) == e);
    let f0 = acc_with_num(empty_acc(), HeaderKey::Version, h.version as u128);
    let inner = key_text(HeaderKey::Version) + ":"@ + spec_digits(h.version as nat)
        + encode_tail_stop(h);
    assert(e.drop_first() =~= inner);
    assert(inner[0] == '"');
    assert(skip_ws_s(inner) == inner);
    lemma_tail_stop_first(h);
    lemma_parse_pair_num(HeaderKey::Version, h.version, empty_acc(), encode_tail_stop(h));
    lemma_step_stop(h, f0);
    assert(parse_pairs_s(inner, empty_acc()) == Some(
        (header_acc_of(h), Seq::<char>::empty()),
    ));
    assert(skip_ws_s(Seq::<char>::empty()).len() == 0);
    assert(parse_header_s(e) == Some(header_acc_of(h)));
    assert(header_acc_of(h).version == Some(h.version as u128));
    assert(!acc_too_large(header_acc_of(h)));
    assert(acc_to_header(header_acc_of(h)) == h);
}

/// Decoding the encoding of a header whose click-events flag was forced on
/// yields that header again, equal in every field.
pub proof fn lemma_click_round_trip(h: Header)
    ensures
        parse_header_s(spec_encode_header(spec_with_click(h, true))) == Some(
            header_acc_of(spec_with_click(h, true)),
        ),
        header_acc_of(spec_with_click(h, true)).version is Some,
        !acc_too_large(header_acc_of(spec_with_click(h, true))),
        acc_to_header(header_acc_of(spec_with_click(h, true))) == spec_with_click(h, true),
{
    lemma_header_round_trip(spec_with_click(h, true));
}

/// Forcing the click-events flag changes nothing but that flag, and the
/// forwarded header line then carries the text `"click_events":true`.
pub proof fn lemma_click_events_forced(h: Header)
    ensures
        spec_with_click(h, true).version == h.version,
        spec_with_click(h, true).stop_signal == h.stop_signal,
        spec_with_click(h, true).cont_signal == h.cont_signal,
        spec_with_click(h, true).click_events == Some(true),
        exists|a: Seq<char>, b: Seq<char>|
            spec_encode_header(spec_with_click(h, true)) == a + ",\"click_events\":true"@ + b,
{
    reveal_strlit(",\"click_events\":true");
    reveal_strlit("\"click_events\"");
    reveal_strlit(",");
    reveal_strlit(":");
    reveal_strlit("true");
    reveal_strlit("}");
    let h2 = spec_with_click(h, true);
    let seg = ",\"click_events\":true"@;
    let e = spec_encode_header(h2);
    let head = "{"@ + key_text(HeaderKey::Version) + ":"@ + spec_digits(h2.version as nat);
    assert(encode_tail_click(h2) =~= seg + "}"@);
    match h.stop_signal {
        Some(sv) => {
            let stop_part = ","@ + key_text(HeaderKey::StopSignal) + ":"@ + spec_digits(
                sv as nat,
            );
            match h.cont_signal {
                Some(cv) => {
                    let cont_part = ","@ + key_text(HeaderKey::ContSignal) + ":"@ + spec_digits(
                        cv as nat,
                    );
                    let a = head + stop_part + cont_part;
                    assert(e =~= a + seg + "}"@);
                    assert(e == a + seg + "}"@);
                },
                None => {
                    let a = head + stop_part;
                    assert(e =~= a + seg + "}"@);
                    assert(e == a + seg + "}"@);
                },
            }
        },
        None => {
            match h.cont_signal {
                Some(cv) => {
                    let cont_part = ","@ + key_text(HeaderKey::ContSignal) + ":"@ + spec_digits(
                        cv as nat,
                    );
                    let a = head + cont_part;
                    assert(e =~= a + seg + "}"@);
                    assert(e == a + seg + "}"@);
                },
                None => {
                    let a = head;
                    assert(e =~= a + seg + "}"@);
                    assert(e == a + seg + "}"@);
                },
            }
        },
    }
}

impl Header {
    /// A copy of this header with the click-events flag forced to `value`;
    /// every other field is left untouched.
    pub fn with_click_events(&self, value: bool) -> (r: Header)
        ensures
            r == spec_with_click(*self, value),
    {
        Header {
            version: self.version,
            stop_signal: self.stop_signal,
            cont_signal: self.cont_signal,
            click_events: Some(value),
        }
    }

    /// Serializes this header back to a single-line JSON object.
    #[verifier::rlimit(80)]
    pub fn encode(&self) -> (r: String)
        ensures
            r@ == spec_encode_header(*self),
    {
        let ghost head = "{"@ + key_text(HeaderKey::Version) + ":"@ + spec_digits(
            self.version as nat,
        );
        let mut out = String::from_str("{");
        out.append("\"version\"");
        out.append(":");
        let d = encode_usize(self.version);
        out.append(d.as_str());
        proof {
            assert(out@ =~= head);
        }
        match self.stop_signal {
            Some(v) => {
                out.append(",");
                out.append("\"stop_signal\"");
                out.append(":");
                let d2 = encode_usize(v);
                out.append(d2.as_str());
                proof {
                    assert(out@ =~= head + (","@ + key_text(HeaderKey::StopSignal) + ":"@
                        + spec_digits(v as nat)));
                }
            },
            None => {},
        }
        let ghost mid = out@;
        match self.cont_signal {
            Some(v) => {
                out.append(",");
                out.append("\"cont_signal\"");
                out.append(":");
                let d2 = encode_usize(v);
                out.append(d2.as_str());
                proof {
                    assert(out@ =~= mid + (","@ + key_text(HeaderKey::ContSignal) + ":"@
                        + spec_digits(v as nat)));
                }
            },
            None => {},
        }
        let ghost mid2 = out@;
        match self.click_events {
            Some(true) => {
                out.append(",");
                out.append("\"click_events\"");
                out.append(":");
                out.append("true");
                proof {
                    assert(out@ =~= mid2 + (","@ + key_text(HeaderKey::ClickEvents) + ":"@
                        + "true"@));
                }
            },
            Some(false) => {
                out.append(",");
                out.append("\"click_events\"");
                out.append(":");
                out.append("false");
                proof {
                    assert(out@ =~= mid2 + (","@ + key_text(HeaderKey::ClickEvents) + ":"@
                        + "false"@));
                }
            },
            None => {},
        }
        out.append("}");
        proof {
            assert(out@ =~= mid2 + encode_tail_click(*self));
            assert(mid2 + encode_tail_click(*self) =~= mid + encode_tail_cont(*self));
            assert(mid + encode_tail_cont(*self) =~= head + encode_tail_stop(*self));
            assert(out@ == spec_encode_header(*self));
        }
        out
    }

    /// Decodes one header line. Returns the header exactly when the line is a
    /// well-formed object with a `version` field whose integers fit in
    /// `usize`; otherwise says which of the three ways it failed, carrying
    /// the line itself.
    pub fn decode(line: &str) -> (r: Result<Header, DecodeError>)
        ensures
            match r {
                Ok(h) => (parse_header_s(line@) matches Some(f) && f.version is Some
                    && !acc_too_large(f) && h == acc_to_header(f)),
                Err(e) => match e {
                    DecodeError::Malformed(t) => t@ == line@ && parse_header_s(line@) is None,
                    DecodeError::MissingVersion(t) => t@ == line@ && (parse_header_s(line@)
                        matches Some(f) && f.version is None),
                    DecodeError::NumberTooLarge(t) => t@ == line@ && (parse_header_s(line@)
                        matches Some(f) && f.version is Some && acc_too_large(f)),
                    _ => false,
                },
            },
    {
        let n = line.unicode_len();
        proof {
            assert(line@.skip(0) =~= line@);
        }
        let i0 = skip_ws_exec(line, 0, n);
        let acc_opt: Option<HeaderAcc> = if i0 < n && line.get_char(i0) == '{' {
            proof {
                assert(line@.skip(i0 as int)[0] == line@[i0 as int]);
                assert(line@.skip(i0 as int).drop_first() =~= line@.skip(i0 as int + 1));
            }
            let i1 = skip_ws_exec(line, i0 + 1, n);
            if i1 < n && line.get_char(i1) == '}' {
                proof {
                    assert(line@.skip(i1 as int)[0] == line@[i1 as int]);
                    assert(line@.skip(i1 as int).drop_first() =~= line@.skip(i1 as int + 1));
                }
                let i2 = skip_ws_exec(line, i1 + 1, n);
                if i2 == n {
                    proof {
                        assert(line@.skip(i2 as int).len() == 0);
                    }
                    Some(
                        HeaderAcc {
                            version: None,
                            stop_signal: None,
                            cont_signal: None,
                            click_events: None,
                        },
                    )
                } else {
                    proof {
                        assert(line@.skip(i2 as int).len() > 0);
                    }
                    None
                }
            } else {
                proof {
                    if i1 < n {
                        assert(line@.skip(i1 as int)[0] == line@[i1 as int]);
                    } else {
                        assert(line@.skip(i1 as int).len() == 0);
                    }
                }
                match parse_pairs_exec(
                    line,
                    i0 + 1,
                    n,
                    HeaderAcc {
                        version: None,
                        stop_signal: None,
                        cont_signal: None,
                        click_events: None,
                    },
                ) {
                    None => None,
                    Some((f, j)) => {
                        let i2 = skip_ws_exec(line, j, n);
                        if i2 == n {
                            proof {
                                assert(line@.skip(i2 as int).len() == 0);
                            }
                            Some(f)
                        } else {
                            proof {
                                assert(line@.skip(i2 as int).len() > 0);
                            }
                            None
                        }
                    },
                }
            }
        } else {
            proof {
                if i0 < n {
                    assert(line@.skip(i0 as int)[0] == line@[i0 as int]);
                } else {
                    assert(line@.skip(i0 as int).len() == 0);
                }
            }
            None
        };
        match acc_opt {
            None => Err(DecodeError::Malformed(line.to_owned())),
            Some(f) => {
                let version = match f.version {
                    None => {
                        return Err(DecodeError::MissingVersion(line.to_owned()));
                    },
                    Some(v) => v,
                };
                let limit: u128 = usize::MAX as u128;
                if version > limit {
                    return Err(DecodeError::NumberTooLarge(line.to_owned()));
                }
                let stop_signal = match f.stop_signal {
                    None => None,
                    Some(v) => {
                        if v > limit {
                            return Err(DecodeError::NumberTooLarge(line.to_owned()));
                        }
                        Some(v as usize)
                    },
                };
                let cont_signal = match f.cont_signal {
                    None => None,
                    Some(v) => {
                        if v > limit {
                            return Err(DecodeError::NumberTooLarge(line.to_owned()));
                        }
                        Some(v as usize)
                    },
                };
                Ok(
                    Header {
                        version: version as usize,
                        stop_signal,
                        cont_signal,
                        click_events: f.click_events,
                    },
                )
            },
        }
    }
}

} // verus!
