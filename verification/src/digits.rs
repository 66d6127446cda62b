//! Decimal rendering and evaluation of the protocol's unsigned integers.

use vstd::prelude::*;

use crate::text::push_char;

verus! {

/// The character of one decimal digit.
pub open spec fn digit_char(d: int) -> char {
    if d == 0 {
        '0'
    } else if d == 1 {
        '1'
    } else if d == 2 {
        '2'
    } else if d == 3 {
        '3'
    } else if d == 4 {
        '4'
    } else if d == 5 {
        '5'
    } else if d == 6 {
        '6'
    } else if d == 7 {
        '7'
    } else if d == 8 {
        '8'
    } else {
        '9'
    }
}

/// The value of one decimal digit character, or 10 for any other character.
pub open spec fn digit_val(c: char) -> int {
    if c == '0' {
        0
    } else if c == '1' {
        1
    } else if c == '2' {
        2
    } else if c == '3' {
        3
    } else if c == '4' {
        4
    } else if c == '5' {
        5
    } else if c == '6' {
        6
    } else if c == '7' {
        7
    } else if c == '8' {
        8
    } else if c == '9' {
        9
    } else {
        10
    }
}

pub open spec fn is_digit(c: char) -> bool {
    digit_val(c) < 10
}

/// One more than the largest value a `usize` field may hold; the evaluator
/// saturates here, so reaching it means the written number was too large.
pub open spec fn num_cap() -> int {
    usize::MAX + 1
}

/// The decimal digits of `n`, most significant first, with no sign and no
/// leading zero (a single `'0'` for zero).
pub open spec fn spec_digits(n: nat) -> Seq<char>
    decreases n,
{
    if n < 10 {
        seq![digit_char(n as int)]
    } else {
        spec_digits(n / 10).push(digit_char((n % 10) as int))
    }
}

/// The value of a digit string read left to right, saturated at `num_cap()`.
pub open spec fn fold_digits(s: Seq<char>) -> int
    decreases s.len(),
{
    if s.len() == 0 {
        0
    } else {
        let v = fold_digits(s.drop_last()) * 10 + digit_val(s.last());
        if v >= num_cap() {
            num_cap()
        } else {
            v
        }
    }
}

pub proof fn lemma_fold_digits_bounds(s: Seq<char>)
    ensures
        0 <= fold_digits(s) <= num_cap(),
    decreases s.len(),
{
    if s.len() > 0 {
        lemma_fold_digits_bounds(s.drop_last());
    }
}

/// Every character of a rendered number is a decimal digit.
pub proof fn lemma_spec_digits_are_digits(n: nat)
    ensures
        spec_digits(n).len() >= 1,
        forall|i: int| 0 <= i < spec_digits(n).len() ==> is_digit(#[trigger] spec_digits(n)[i]),
    decreases n,
{
    if n < 10 {
    } else {
        lemma_spec_digits_are_digits(n / 10);
    }
}

/// Reading back the decimal rendering of `n` yields `n` again.
pub proof fn lemma_fold_spec_digits(n: nat)
    requires
        n <= usize::MAX,
    ensures
        fold_digits(spec_digits(n)) == n,
    decreases n,
{
    if n < 10 {
        let s = spec_digits(n);
        assert(s =~= seq![digit_char(n as int)]);
        assert(s.len() == 1);
        assert(s.drop_last() =~= Seq::<char>::empty());
        assert(fold_digits(s.drop_last()) == 0);
        assert(s.last() == digit_char(n as int));
        assert(digit_val(digit_char(n as int)) == n);
        assert(0 * 10 + digit_val(s.last()) == n);
        assert(n < num_cap());
        assert(fold_digits(s) == n);
    } else {
        lemma_fold_spec_digits(n / 10);
        let s = spec_digits(n);
        assert(s =~= spec_digits(n / 10).push(digit_char((n % 10) as int)));
        assert(s.drop_last() =~= spec_digits(n / 10));
        assert(s.last() == digit_char((n % 10) as int));
        assert(digit_val(digit_char((n % 10) as int)) == n % 10);
        assert(fold_digits(s.drop_last()) * 10 + digit_val(s.last()) == (n / 10) * 10 + n % 10);
        assert((n / 10) * 10 + n % 10 == n);
        assert(fold_digits(s) == n);
    }
}

/// The character of one digit.
fn digit_char_exec(d: usize) -> (c: char)
    requires
        d < 10,
    ensures
        c == digit_char(d as int),
{
    if d == 0 {
        '0'
    } else if d == 1 {
        '1'
    } else if d == 2 {
        '2'
    } else if d == 3 {
        '3'
    } else if d == 4 {
        '4'
    } else if d == 5 {
        '5'
    } else if d == 6 {
        '6'
    } else if d == 7 {
        '7'
    } else if d == 8 {
        '8'
    } else {
        '9'
    }
}

/// The value of one digit character, or 10 for any other character.
pub(crate) fn digit_val_exec(c: char) -> (d: u32)
    ensures
        d as int == digit_val(c),
{
    if c == '0' {
        0
    } else if c == '1' {
        1
    } else if c == '2' {
        2
    } else if c == '3' {
        3
    } else if c == '4' {
        4
    } else if c == '5' {
        5
    } else if c == '6' {
        6
    } else if c == '7' {
        7
    } else if c == '8' {
        8
    } else if c == '9' {
        9
    } else {
        10
    }
}

/// Renders `n` in decimal.
pub fn encode_usize(n: usize) -> (s: String)
    ensures
        s@ == spec_digits(n as nat),
    decreases n,
{
    if n < 10 {
        let mut s = String::new();
        push_char(&mut s, digit_char_exec(n));
        proof {
            assert(s@ =~= seq![digit_char(n as int)]);
        }
        s
    } else {
        let mut s = encode_usize(n / 10);
        push_char(&mut s, digit_char_exec(n % 10));
        s
    }
}

} // verus!
