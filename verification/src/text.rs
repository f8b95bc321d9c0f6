use vstd::prelude::*;
use vstd::string::StrSliceExecFns;

verus! {

/// The character that writes the decimal digit `d`.
pub open spec fn digit_char(d: nat) -> char
    recommends
        d < 10,
{
    (('0' as u8) + d) as char
}

/// The decimal numeral of `n`, most significant digit first and without
/// leading zeros; the numeral of zero is `"0"`.
pub open spec fn decimal(n: nat) -> Seq<char>
    decreases n,
{
    if n < 10 {
        seq![digit_char(n)]
    } else {
        decimal(n / 10).push(digit_char(n % 10))
    }
}

/// `String::push`: appends one character to the end of the string.
#[verifier::external_body]
pub(crate) fn push_char(s: &mut String, c: char)
    ensures
        final(s)@ == old(s)@.push(c),
{
    s.push(c)
}

/// `str::eq`: two string slices are equal exactly when they hold the same
/// characters.
#[verifier::external_body]
pub(crate) fn str_eq(a: &str, b: &str) -> (same: bool)
    ensures
        same == (a@ == b@),
{
    a == b
}

/// The lower-case form of `text`, as `str::to_lowercase` gives it.
pub uninterp spec fn lowercased(text: Seq<char>) -> Seq<char>;

/// `str::to_lowercase`: the lower-case equivalent of `text` as a new string.
#[verifier::external_body]
pub(crate) fn to_lowercase(text: &str) -> (lower: String)
    ensures
        lower@ == lowercased(text@),
{
    text.to_lowercase()
}

/// Whether `c` is white space: one of the characters that Unicode gives the
/// property White_Space.
pub open spec fn is_white_space(c: char) -> bool {
    let n = c as u32;
    (0x09 <= n <= 0x0d) || n == 0x20 || n == 0x85 || n == 0xa0 || n == 0x1680 || (0x2000 <= n
        <= 0x200a) || n == 0x2028 || n == 0x2029 || n == 0x202f || n == 0x205f || n == 0x3000
}

/// Whether `c` is white space.
pub fn is_white_space_char(c: char) -> (white: bool)
    ensures
        white == is_white_space(c),
{
    let n = c as u32;
    (0x09 <= n && n <= 0x0d) || n == 0x20 || n == 0x85 || n == 0xa0 || n == 0x1680 || (0x2000 <= n
        && n <= 0x200a) || n == 0x2028 || n == 0x2029 || n == 0x202f || n == 0x205f || n == 0x3000
}

/// Whether `text` without the white space at its ends is what stands from
/// `from` up to `to`: all before and all behind is white space, and what is
/// left, if anything, begins and ends with a character that is not. A text
/// of white space only is left with nothing, at its end.
pub open spec fn trims_to(text: Seq<char>, from: int, to: int) -> bool {
    &&& 0 <= from <= to <= text.len()
    &&& forall|j: int| 0 <= j < from ==> is_white_space(#[trigger] text[j])
    &&& forall|j: int| to <= j < text.len() ==> is_white_space(#[trigger] text[j])
    &&& from < to ==> !is_white_space(text[from]) && !is_white_space(text[to - 1])
    &&& from == to ==> from == text.len()
}

/// `text` without the white space at its ends.
pub open spec fn trimmed(text: Seq<char>) -> Seq<char> {
    let span = choose|span: (int, int)| trims_to(text, span.0, span.1);
    text.subrange(span.0, span.1)
}

/// There is one way only to take the white space off the ends of a text.
pub proof fn trimming_is_unique(text: Seq<char>, from: int, to: int)
    requires
        trims_to(text, from, to),
    ensures
        trimmed(text) == text.subrange(from, to),
{
    assert(trims_to(text, (from, to).0, (from, to).1));
    let span = choose|span: (int, int)| trims_to(text, span.0, span.1);
    if span.0 < from {
        assert(is_white_space(text[span.0]));
    } else if from < span.0 {
        assert(is_white_space(text[from]));
    }
    if span.1 < to {
        assert(is_white_space(text[to - 1]));
    } else if to < span.1 {
        assert(is_white_space(text[span.1 - 1]));
    }
}

/// Takes the white space off both ends of `text`.
pub fn trim_white_space(text: &str) -> (inner: &str)
    ensures
        inner@ == trimmed(text@),
{
    let total = text.unicode_len();
    let mut from: usize = total;
    let mut to: usize = total;
    let mut found = false;
    let mut index: usize = 0;
    for c in iter: text.chars()
        invariant
            iter.seq() == text@,
            total == text@.len(),
            index == iter.index(),
            index <= total,
            forall|j: int|
                0 <= j < (if found {
                    from
                } else {
                    index
                }) ==> is_white_space(#[trigger] text@[j]),
            found ==> from < to <= index && !is_white_space(text@[from as int]) && !is_white_space(
                text@[to - 1],
            ),
            found ==> forall|j: int| to <= j < index ==> is_white_space(#[trigger] text@[j]),
            !found ==> from == total && to == total,
    {
        if !is_white_space_char(c) {
            if !found {
                found = true;
                from = index;
            }
            to = index + 1;
        }
        index += 1;
    }
    proof {
        trimming_is_unique(text@, from as int, to as int);
    }
    text.substring_char(from, to)
}

/// Appends the decimal numeral of `n` to `out`.
pub fn push_decimal(out: &mut String, n: u64)
    ensures
        final(out)@ == old(out)@ + decimal(n as nat),
{
    let mut digits: Vec<char> = Vec::new();
    let mut rest: u64 = n;
    // Collect the digits least significant first.
    loop
        invariant_except_break
            decimal(n as nat) == decimal(rest as nat) + digits@.reverse(),
            rest <= n,
        ensures
            decimal(n as nat) == digits@.reverse(),
            digits@.len() >= 1,
        decreases rest,
    {
        let d: u8 = (rest % 10) as u8;
        let c: char = (48u8 + d) as char;
        let ghost before = digits@;
        digits.push(c);
        proof {
            assert(c == digit_char((rest % 10) as nat));
            assert(digits@.reverse() =~= seq![c] + before.reverse());
        }
        if rest < 10 {
            proof {
                assert(decimal(rest as nat) =~= seq![c]);
                assert(decimal(n as nat) =~= digits@.reverse());
            }
            break;
        }
        proof {
            assert(decimal(rest as nat) == decimal((rest / 10) as nat).push(c));
            assert(decimal((rest / 10) as nat).push(c) + before.reverse() =~= decimal(
                (rest / 10) as nat,
            ) + (seq![c] + before.reverse()));
        }
        rest = rest / 10;
    }
    let mut i: usize = digits.len();
    while i > 0
        invariant
            i <= digits.len(),
            out@ == old(out)@ + digits@.reverse().subrange(0, digits.len() - i),
        decreases i,
    {
        i = i - 1;
        let ghost before = out@;
        push_char(out, digits[i]);
        proof {
            let r = digits@.reverse();
            let k = digits.len() - i - 1;
            assert(r[k] == digits@[i as int]);
            assert(r.subrange(0, k + 1) =~= r.subrange(0, k).push(r[k]));
            assert(out@ =~= old(out)@ + r.subrange(0, k + 1));
        }
    }
    proof {
        assert(digits@.reverse().subrange(0, digits.len() as int) =~= digits@.reverse());
    }
}

/// Whether `c` is one of the ten decimal digits.
pub open spec fn is_decimal_digit(c: char) -> bool {
    '0' <= c <= '9'
}

/// The number that a sequence of decimal digits writes.
pub open spec fn decimal_value(digits: Seq<char>) -> nat
    decreases digits.len(),
{
    if digits.len() == 0 {
        0
    } else {
        (decimal_value(digits.drop_last()) * 10 + (digits.last() as u8 - '0' as u8)) as nat
    }
}

/// A decimal numeral is at least one character long and holds decimal
/// digits only.
pub proof fn decimal_holds_digits(n: nat)
    ensures
        decimal(n).len() >= 1,
        forall|i: int| 0 <= i < decimal(n).len() ==> is_decimal_digit(#[trigger] decimal(n)[i]),
    decreases n,
{
    if n >= 10 {
        decimal_holds_digits(n / 10);
    }
}

/// A decimal numeral writes the number that it was made from.
pub proof fn decimal_value_of_decimal(n: nat)
    ensures
        decimal_value(decimal(n)) == n,
    decreases n,
{
    if n < 10 {
        assert(decimal(n).drop_last() =~= Seq::<char>::empty());
        assert(decimal_value(decimal(n).drop_last()) == 0);
    } else {
        decimal_value_of_decimal(n / 10);
        assert(decimal(n).drop_last() =~= decimal(n / 10));
    }
}

/// Two numbers with the same decimal numeral are the same number.
pub proof fn decimal_is_injective(a: nat, b: nat)
    requires
        decimal(a) == decimal(b),
    ensures
        a == b,
{
    decimal_value_of_decimal(a);
    decimal_value_of_decimal(b);
}

} // verus!
