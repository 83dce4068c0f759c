//! Small text utilities shared by the scrapers: whitespace normalisation for
//! scraped menu text, and parsing of price strings into minor currency units.

use vstd::prelude::*;

verus! {

/// True exactly for the characters that have the Unicode `White_Space`
/// property, the set `char::is_whitespace` accepts.
pub uninterp spec fn unicode_whitespace(c: char) -> bool;

/// Relies on `char::is_whitespace`: whether the character has the Unicode
/// `White_Space` property, a function of the character alone.
#[verifier::external_body]
fn is_space(c: char) -> (r: bool)
    ensures
        r == unicode_whitespace(c),
{
    c.is_whitespace()
}

/// Relies on `String`'s `FromIterator<char>` impl: the string holds exactly
/// the characters of the vector, in order.
#[verifier::external_body]
fn chars_to_string(v: Vec<char>) -> (r: String)
    ensures
        r@ == v@,
{
    v.into_iter().collect()
}

/// One left-to-right collapse step: the accumulator is the output so far and
/// whether a space is owed before the next word character.
pub open spec fn collapse_ws(s: Seq<char>) -> (Seq<char>, bool)
    decreases s.len(),
{
    if s.len() == 0 {
        (Seq::empty(), false)
    } else {
        let prev = collapse_ws(s.drop_last());
        let c = s.last();
        if unicode_whitespace(c) {
            (prev.0, true)
        } else if prev.1 && prev.0.len() > 0 {
            (prev.0 + seq![' ', c], false)
        } else {
            (prev.0.push(c), false)
        }
    }
}

/// The text with every run of whitespace between words replaced by a single
/// space, and leading and trailing whitespace removed.
pub open spec fn spec_reduce_whitespace(s: Seq<char>) -> Seq<char> {
    collapse_ws(s).0
}

/// Whether the character is an ASCII decimal digit.
pub open spec fn is_digit(c: char) -> bool {
    ('0' as u32) <= (c as u32) && (c as u32) <= ('9' as u32)
}

/// The digit's value.
pub open spec fn digit_val(c: char) -> int {
    (c as u32) - ('0' as u32)
}

/// The index just past the run of digits that starts at `from`.
pub open spec fn digits_end(s: Seq<char>, from: int) -> int
    decreases s.len() - from,
{
    if from < 0 || from >= s.len() || !is_digit(s[from]) {
        from
    } else {
        digits_end(s, from + 1)
    }
}

/// The value of the digits in `[from, to)`, most significant first.
pub open spec fn int_value(s: Seq<char>, from: int, to: int) -> int
    decreases to - from,
{
    if from >= to {
        0
    } else {
        int_value(s, from, to - 1) * 10 + digit_val(s[to - 1])
    }
}

/// A digit run's value is never negative.
proof fn lemma_int_value_nonneg(s: Seq<char>, from: int, to: int)
    requires
        forall|j: int| from <= j < to ==> is_digit(#[trigger] s[j]),
    ensures
        int_value(s, from, to) >= 0,
    decreases to - from,
{
    if from < to {
        lemma_int_value_nonneg(s, from, to - 1);
    }
}

/// Reading more digits never shrinks the value.
proof fn lemma_int_value_mono(s: Seq<char>, from: int, mid: int, to: int)
    requires
        from <= mid <= to,
        forall|j: int| from <= j < to ==> is_digit(#[trigger] s[j]),
    ensures
        int_value(s, from, to) >= int_value(s, from, mid),
    decreases to - mid,
{
    if mid < to {
        lemma_int_value_nonneg(s, from, to - 1);
        lemma_int_value_mono(s, from, mid, to - 1);
    }
}

/// A digit run never ends before it starts.
proof fn lemma_digits_end_ge(s: Seq<char>, from: int)
    requires
        0 <= from,
    ensures
        digits_end(s, from) >= from,
    decreases s.len() - from,
{
    if from < s.len() && is_digit(s[from]) {
        lemma_digits_end_ge(s, from + 1);
    }
}

/// An index with digits before it and a non-digit (or the end) at it is
/// where the leading digit run ends.
proof fn lemma_digits_end_at(s: Seq<char>, from: int, i: int)
    requires
        0 <= from <= i <= s.len(),
        forall|j: int| from <= j < i ==> is_digit(#[trigger] s[j]),
        i == s.len() || !is_digit(s[i]),
    ensures
        digits_end(s, from) == i,
    decreases i - from,
{
    if from < i {
        lemma_digits_end_at(s, from + 1, i);
    }
}

/// The price a menu string names, in minor currency units (hundredths):
/// the value of its leading digits, plus up to two fraction digits after a
/// dot; any further fraction digits are ignored. Text with no leading
/// digit, and a value too large for 64 bits, both give zero — an
/// unparseable price.
pub open spec fn spec_parse_price(s: Seq<char>) -> u64 {
    let d0 = digits_end(s, 0);
    if d0 == 0 {
        0
    } else {
        let whole = int_value(s, 0, d0);
        let frac = if d0 < s.len() && s[d0] == '.' {
            let d1 = digits_end(s, d0 + 1);
            if d1 == d0 + 1 {
                0
            } else if d1 == d0 + 2 {
                digit_val(s[d0 + 1]) * 10
            } else {
                digit_val(s[d0 + 1]) * 10 + digit_val(s[d0 + 2])
            }
        } else {
            0
        };
        let total = whole * 100 + frac;
        if total <= u64::MAX {
            total as u64
        } else {
            0
        }
    }
}

/// Whether the character is an ASCII decimal digit.
fn digit(c: char) -> (r: bool)
    ensures
        r == is_digit(c),
{
    let u = c as u32;
    48 <= u && u <= 57
}

/// Parse a price string into minor currency units, as
/// [`spec_parse_price`] describes; anything unparseable gives zero.
pub fn parse_price(s: &str) -> (p: u64)
    ensures
        p == spec_parse_price(s@),
{
    let n = s.unicode_len();
    let mut i: usize = 0;
    let mut acc: u128 = 0;
    let mut big = false;
    while i < n && digit(s.get_char(i))
        invariant
            n == s@.len(),
            i <= n,
            forall|j: int| 0 <= j < i ==> is_digit(#[trigger] s@[j]),
            !big ==> acc == int_value(s@, 0, i as int) && acc <= u64::MAX,
            big ==> int_value(s@, 0, i as int) > u64::MAX,
        decreases n - i,
    {
        let c = s.get_char(i);
        proof {
            lemma_int_value_nonneg(s@, 0, i as int);
        }
        if !big {
            acc = acc * 10 + (c as u32 - 48) as u128;
            if acc > u64::MAX as u128 {
                big = true;
            }
        } else {
            proof {
                assert(int_value(s@, 0, i + 1) == int_value(s@, 0, i as int) * 10 + digit_val(
                    s@[i as int],
                ));
            }
        }
        i = i + 1;
    }
    let d0 = i;
    proof {
        lemma_digits_end_at(s@, 0, d0 as int);
    }
    if d0 == 0 {
        return 0;
    }
    // fraction: up to two digits after a dot
    let mut frac: u64 = 0;
    if d0 < n && s.get_char(d0) == '.' {
        if d0 + 1 < n && digit(s.get_char(d0 + 1)) {
            frac = (s.get_char(d0 + 1) as u32 - 48) as u64 * 10;
            if d0 + 2 < n && digit(s.get_char(d0 + 2)) {
                frac = frac + (s.get_char(d0 + 2) as u32 - 48) as u64;
                proof {
                    assert(digits_end(s@, d0 + 1) == digits_end(s@, d0 + 2));
                    assert(digits_end(s@, d0 + 2) == digits_end(s@, d0 + 3));
                    lemma_digits_end_ge(s@, d0 + 3);
                }
            } else {
                proof {
                    assert(digits_end(s@, d0 + 1) == digits_end(s@, d0 + 2));
                    lemma_digits_end_at(s@, d0 + 2, d0 + 2);
                }
            }
        } else {
            proof {
                lemma_digits_end_at(s@, d0 + 1, d0 + 1);
            }
        }
    }
    if big {
        proof {
            lemma_int_value_nonneg(s@, 0, d0 as int);
        }
        return 0;
    }
    let total: u128 = acc * 100 + frac as u128;
    if total > u64::MAX as u128 {
        return 0;
    }
    total as u64
}

/// Collapse all whitespace runs in `s` to single spaces and trim the ends.
pub fn reduce_whitespace(s: &str) -> (r: String)
    ensures
        r@ == spec_reduce_whitespace(s@),
{
    let n = s.unicode_len();
    let mut out: Vec<char> = Vec::new();
    let mut pending = false;
    let mut i: usize = 0;
    while i < n
        invariant
            n == s@.len(),
            i <= n,
            out@ == collapse_ws(s@.take(i as int)).0,
            pending == collapse_ws(s@.take(i as int)).1,
        decreases n - i,
    {
        let c = s.get_char(i);
        proof {
            assert(s@.take(i + 1).drop_last() =~= s@.take(i as int));
            assert(s@.take(i + 1).last() == s@[i as int]);
        }
        if is_space(c) {
            pending = true;
        } else {
            if pending && out.len() > 0 {
                out.push(' ');
            }
            out.push(c);
            pending = false;
            assert(out@ =~= collapse_ws(s@.take(i + 1)).0);
        }
        i = i + 1;
    }
    proof {
        assert(s@.take(n as int) =~= s@);
    }
    chars_to_string(out)
}

} // verus!
