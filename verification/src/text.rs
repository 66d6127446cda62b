//! Small text helpers: appending a character to a `String`, comparing string
//! slices, and the newline discipline every forwarded record obeys.

use vstd::prelude::*;
use vstd::string::StrSliceExecFns;

verus! {

/// Relies on `String::push`: appends the given character to the end of the string.
#[verifier::external_body]
pub(crate) fn push_char(s: &mut String, c: char)
    ensures
        final(s)@ == old(s)@.push(c),
{
    s.push(c);
}

/// True exactly when the two slices hold the same characters.
pub fn str_eq(a: &str, b: &str) -> (r: bool)
    ensures
        r == (a@ == b@),
{
    let alen = a.unicode_len();
    let blen = b.unicode_len();
    if alen != blen {
        return false;
    }
    let mut i: usize = 0;
    while i < alen
        invariant
            i <= alen,
            alen == a@.len(),
            blen == b@.len(),
            alen == blen,
            forall|j: int| 0 <= j < i ==> a@[j] == b@[j],
        decreases alen - i,
    {
        if a.get_char(i) != b.get_char(i) {
            return false;
        }
        i += 1;
    }
    proof {
        assert(a@ =~= b@);
    }
    true
}

/// The record as the relay writes it: unchanged when it already ends in a
/// newline, otherwise with exactly one newline appended.
pub open spec fn with_newline(s: Seq<char>) -> Seq<char> {
    if s.len() > 0 && s.last() == '\n' {
        s
    } else {
        s.push('\n')
    }
}

/// The write discipline of the relay: every record it emits ends in exactly
/// one newline, and none of the record's own text is dropped.
pub proof fn lemma_write_discipline(s: Seq<char>)
    ensures
        with_newline(s).len() > 0,
        with_newline(s).last() == '\n',
        with_newline(s).drop_last() == if s.len() > 0 && s.last() == '\n' {
            s.drop_last()
        } else {
            s
        },
{
    if s.len() > 0 && s.last() == '\n' {
    } else {
        assert(s.push('\n').drop_last() =~= s);
    }
}

/// Returns `s` if it already ends in a newline, else `s` with one appended.
pub fn terminate_record(s: String) -> (r: String)
    ensures
        r@ == with_newline(s@),
{
    let n = s.unicode_len();
    if n > 0 && s.as_str().get_char(n - 1) == '\n' {
        s
    } else {
        let mut t = s;
        push_char(&mut t, '\n');
        t
    }
}

} // verus!
