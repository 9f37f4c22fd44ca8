use vstd::prelude::*;
use vstd::string::StrSliceExecFns;

verus! {

/// The text with leading and trailing whitespace removed.
pub uninterp spec fn trimmed(s: Seq<char>) -> Seq<char>;

/// Relies on `str::trim`: the text without leading and trailing whitespace,
/// which depends on the characters alone.
#[verifier::external_body]
fn trim_text(s: &str) -> (r: &str)
    ensures
        r@ == trimmed(s@),
{
    s.trim()
}

/// One greater than the largest amount.
const AMOUNT_LIMIT: u64 = 0x1_0000_0000;

/// An ASCII decimal digit.
pub open spec fn is_digit(c: char) -> bool {
    48 <= (c as u32) <= 57
}

/// The number that a string of decimal digits denotes.
pub open spec fn digits_value(d: Seq<char>) -> nat
    decreases d.len(),
{
    if d.len() == 0 {
        0
    } else {
        digits_value(d.drop_last()) * 10 + ((d.last() as u32) - 48) as nat
    }
}

/// The digits of an amount, after an optional leading plus sign.
pub open spec fn unsigned_digits(t: Seq<char>) -> Seq<char> {
    if t.len() > 0 && t[0] == '+' {
        t.drop_first()
    } else {
        t
    }
}

/// The amount that `t` denotes: an optional plus sign, then at least one
/// decimal digit and nothing else, for a value that fits in a `u32`.
pub open spec fn amount_of(t: Seq<char>) -> Option<u32> {
    let d = unsigned_digits(t);
    if d.len() > 0 && (forall|i: int| 0 <= i < d.len() ==> #[trigger] is_digit(d[i]))
        && digits_value(d) <= u32::MAX {
        Some(digits_value(d) as u32)
    } else {
        None
    }
}

proof fn lemma_capped_step(v: nat, d: nat)
    requires
        d <= 9,
    ensures
        (if v * 10 + d >= AMOUNT_LIMIT { AMOUNT_LIMIT as nat } else { v * 10 + d }) == ({
            let c: nat = if v >= AMOUNT_LIMIT { AMOUNT_LIMIT as nat } else { v };
            if c * 10 + d >= AMOUNT_LIMIT { AMOUNT_LIMIT as nat } else { c * 10 + d }
        }),
{
}

/// Reads an amount from text that has already been trimmed.
pub fn parse_trimmed_amount(t: &str) -> (r: Option<u32>)
    ensures
        r == amount_of(t@),
{
    let n = t.unicode_len();
    let mut start: usize = 0;
    if n > 0 && t.get_char(0) == '+' {
        start = 1;
    }
    let ghost d = unsigned_digits(t@);
    assert(d =~= t@.subrange(start as int, n as int));
    if start == n {
        return None;
    }
    let mut acc: u64 = 0;
    let mut i: usize = start;
    assert(d.subrange(0, 0) =~= Seq::<char>::empty());
    while i < n
        invariant
            start <= i <= n,
            n == t@.len(),
            d == t@.subrange(start as int, n as int),
            d == unsigned_digits(t@),
            forall|j: int| 0 <= j < i - start ==> #[trigger] is_digit(d[j]),
            acc == (if digits_value(d.subrange(0, i - start)) >= AMOUNT_LIMIT { AMOUNT_LIMIT as nat } else {
                digits_value(d.subrange(0, i - start))
            }),
        decreases n - i,
    {
        let code = t.get_char(i) as u32;
        assert(code == d[i - start] as u32);
        if code < 48 || code > 57 {
            assert(!is_digit(d[i - start]));
            assert(!(forall|j: int| 0 <= j < d.len() ==> #[trigger] is_digit(d[j])));
            return None;
        }
        let digit = (code - 48) as u64;
        let next = acc * 10 + digit;
        proof {
            let k: int = i - start;
            assert(d.subrange(0, k + 1).drop_last() =~= d.subrange(0, k));
            assert(d.subrange(0, k + 1).last() == d[k]);
            lemma_capped_step(digits_value(d.subrange(0, k)), digit as nat);
        }
        acc = if next >= AMOUNT_LIMIT { AMOUNT_LIMIT } else { next };
        i = i + 1;
    }
    assert(d.subrange(0, n - start) =~= d);
    if acc < AMOUNT_LIMIT {
        Some(acc as u32)
    } else {
        None
    }
}

/// Reads an amount as a participant typed it: surrounding whitespace is
/// ignored.
pub fn parse_amount(text: &str) -> (r: Option<u32>)
    ensures
        r == amount_of(trimmed(text@)),
{
    parse_trimmed_amount(trim_text(text))
}

} // verus!
