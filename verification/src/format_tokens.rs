//! Human-readable token counts: `1500000` becomes `1.5m`, `60000` becomes
//! `60.0k`, counts below a thousand stay as they are.

use vstd::prelude::*;

use crate::rounding::{
    displayed_tenths, displayed_tenths_exec, lemma_displayed_millions_close_large, lemma_displayed_tenths_close,
    lemma_two_pow_add,
    lemma_two_pow_values, two_pow,
};

verus! {

/// The decimal digit `d` (for `d < 10`).
pub open spec fn digit_char(d: nat) -> char {
    seq!['0', '1', '2', '3', '4', '5', '6', '7', '8', '9'][d as int]
}

/// `n` written in decimal, without leading zeros.
pub open spec fn decimal(n: nat) -> Seq<char>
    decreases n,
{
    if n < 10 {
        seq![digit_char(n)]
    } else {
        decimal(n / 10).push(digit_char(n % 10))
    }
}

/// A number given in tenths, written with exactly one fractional digit.
pub open spec fn one_decimal(tenths: nat) -> Seq<char> {
    decimal(tenths / 10) + seq!['.', digit_char(tenths % 10)]
}

/// What `format_tokens(count)` returns.
pub open spec fn formatted_tokens(count: nat) -> Seq<char> {
    if count >= 1_000_000 {
        one_decimal(displayed_tenths(count, 1_000_000)).push('m')
    } else if count >= 1_000 {
        one_decimal(displayed_tenths(count, 1_000)).push('k')
    } else {
        decimal(count)
    }
}

/// The one-character string for the digit `d`.
fn digit_str(d: u128) -> (s: &'static str)
    requires
        d < 10,
    ensures
        s@ == seq![digit_char(d as nat)],
{
    if d == 0 {
        proof {
            reveal_strlit("0");
        }
        "0"
    } else if d == 1 {
        proof {
            reveal_strlit("1");
        }
        "1"
    } else if d == 2 {
        proof {
            reveal_strlit("2");
        }
        "2"
    } else if d == 3 {
        proof {
            reveal_strlit("3");
        }
        "3"
    } else if d == 4 {
        proof {
            reveal_strlit("4");
        }
        "4"
    } else if d == 5 {
        proof {
            reveal_strlit("5");
        }
        "5"
    } else if d == 6 {
        proof {
            reveal_strlit("6");
        }
        "6"
    } else if d == 7 {
        proof {
            reveal_strlit("7");
        }
        "7"
    } else if d == 8 {
        proof {
            reveal_strlit("8");
        }
        "8"
    } else {
        proof {
            reveal_strlit("9");
        }
        "9"
    }
}

/// Appends the decimal digits of `n` to `s`.
pub fn push_decimal(s: &mut String, n: u128)
    ensures
        final(s)@ == old(s)@ + decimal(n as nat),
    decreases n,
{
    if n >= 10 {
        push_decimal(s, n / 10);
    }
    s.append(digit_str(n % 10));
    proof {
        if n >= 10 {
            assert(old(s)@ + decimal((n / 10) as nat) + seq![digit_char((n % 10) as nat)]
                =~= old(s)@ + decimal(n as nat));
        } else {
            assert(decimal(n as nat) == seq![digit_char(n as nat)]);
        }
    }
}

/// Appends `tenths / 10` with one fractional digit to `s`.
fn push_one_decimal(s: &mut String, tenths: u128)
    ensures
        final(s)@ == old(s)@ + one_decimal(tenths as nat),
{
    push_decimal(s, tenths / 10);
    proof {
        reveal_strlit(".");
    }
    s.append(".");
    s.append(digit_str(tenths % 10));
    assert(final(s)@ =~= old(s)@ + one_decimal(tenths as nat));
}

/// Format a token count into a human-readable string.
///
/// - >= 1,000,000: format as `{n/1000000:.1}m`
/// - >= 1,000 and < 1,000,000: format as `{n/1000:.1}k`
/// - < 1,000: format as the plain decimal integer
pub fn format_tokens(count: u64) -> (r: String)
    ensures
        r@ == formatted_tokens(count as nat),
{
    let mut r: String = String::new();
    if count >= 1_000_000 {
        let t: u128 = displayed_tenths_exec(count, 1_000_000);
        push_one_decimal(&mut r, t);
        proof {
            reveal_strlit("m");
        }
        r.append("m");
    } else if count >= 1_000 {
        let t: u128 = displayed_tenths_exec(count, 1_000);
        push_one_decimal(&mut r, t);
        proof {
            reveal_strlit("k");
        }
        r.append("k");
    } else {
        push_decimal(&mut r, count as u128);
    }
    proof {
        assert(r@ =~= formatted_tokens(count as nat));
    }
    r
}

/// The number that a string of decimal digits spells.
pub open spec fn digits_value(s: Seq<char>) -> int
    decreases s.len(),
{
    if s.len() == 0 {
        0
    } else {
        10 * digits_value(s.drop_last()) + (s.last() as int - '0' as int)
    }
}

/// Whether every character of `s` is a decimal digit.
pub open spec fn all_digits(s: Seq<char>) -> bool {
    forall|i: int| 0 <= i < s.len() ==> '0' <= #[trigger] s[i] <= '9'
}

proof fn lemma_digit_char(d: nat)
    requires
        d < 10,
    ensures
        digit_char(d) as int - '0' as int == d,
        '0' <= digit_char(d) <= '9',
{
    assert(seq!['0', '1', '2', '3', '4', '5', '6', '7', '8', '9'][d as int] == digit_char(d));
}

/// `decimal(n)` spells `n` in digits, with no leading zero.
pub proof fn law_decimal_spells_number(n: nat)
    ensures
        all_digits(decimal(n)),
        digits_value(decimal(n)) == n,
        decimal(n).len() >= 1,
        n >= 10 ==> decimal(n)[0] != '0',
    decreases n,
{
    if n < 10 {
        lemma_digit_char(n);
        assert(decimal(n).drop_last() =~= Seq::<char>::empty());
        assert(decimal(n).last() == digit_char(n));
        assert(digits_value(Seq::<char>::empty()) == 0);
        assert(digits_value(decimal(n)) == 10 * digits_value(decimal(n).drop_last()) + (
        decimal(n).last() as int - '0' as int));
    } else {
        law_decimal_spells_number(n / 10);
        lemma_digit_char(n % 10);
        let d = decimal(n);
        assert(d.drop_last() =~= decimal(n / 10));
        assert(d.last() == digit_char(n % 10));
        assert(digits_value(d) == 10 * digits_value(d.drop_last()) + (d.last() as int - '0' as int));
        assert(n == 10 * (n / 10) + n % 10);
        assert forall|i: int| 0 <= i < d.len() implies '0' <= #[trigger] d[i] <= '9' by {
            if i < d.len() - 1 {
                assert(d[i] == decimal(n / 10)[i]);
            }
        }
        if n / 10 >= 10 {
            assert(d[0] == decimal(n / 10)[0]);
        } else {
            lemma_digit_char(n / 10);
            assert(d[0] == digit_char(n / 10));
        }
    }
}

/// A number of tenths is written as its whole part in digits, a point, and
/// the digit of tenths: reading the text back gives the number.
pub proof fn law_one_decimal_reads_back(tenths: nat)
    ensures
        ({
            let text = one_decimal(tenths);
            &&& text.len() >= 3
            &&& text[text.len() - 2] == '.'
            &&& all_digits(text.take(text.len() - 2))
            &&& '0' <= text.last() <= '9'
            &&& 10 * digits_value(text.take(text.len() - 2)) + (text.last() as int - '0' as int)
                == tenths
        }),
{
    law_decimal_spells_number(tenths / 10);
    lemma_digit_char(tenths % 10);
    let text = one_decimal(tenths);
    assert(text.take(text.len() - 2) =~= decimal(tenths / 10));
}

/// What `format_tokens` shows, read back: a count below a thousand as its
/// digits; from a thousand on, tenths of thousands with a `k`, and from a
/// million on, tenths of millions with an `m`, the tenths being
/// `displayed_tenths` of the count.
pub proof fn law_format_tokens_reads_back(count: nat)
    ensures
        count < 1_000 ==> all_digits(formatted_tokens(count)) && digits_value(
            formatted_tokens(count),
        ) == count,
        count >= 1_000 ==> formatted_tokens(count).last() == (if count >= 1_000_000 {
            'm'
        } else {
            'k'
        }),
        count >= 1_000 ==> formatted_tokens(count).drop_last() == one_decimal(
            displayed_tenths(count, unit_of(count)),
        ),
{
    if count < 1_000 {
        law_decimal_spells_number(count);
    } else {
        let text = formatted_tokens(count);
        assert(text.drop_last() =~= one_decimal(displayed_tenths(count, unit_of(count))));
    }
}

/// The unit that `format_tokens` divides a count of at least a thousand by.
pub open spec fn unit_of(count: nat) -> nat {
    if count >= 1_000_000 {
        1_000_000
    } else {
        1_000
    }
}

proof fn lemma_quotient_small(count: nat)
    requires
        1_000 <= count < two_pow(53),
    ensures
        count / unit_of(count) < two_pow(44),
{
    lemma_two_pow_values();
    lemma_two_pow_add(44, 9);
    assert(two_pow(9) == 512) by {
        reveal_with_fuel(two_pow, 10);
    }
    assert(two_pow(44) == 0x1000_0000_0000);
    assert(count / unit_of(count) <= count / 1000) by {
        vstd::arithmetic::div_mod::lemma_div_is_ordered_by_denominator(
            count as int,
            1000,
            unit_of(count) as int,
        );
    }
}

/// A shown count is its exact quotient by the unit (thousands or millions)
/// to within 0.53 of the last digit shown, and to within 0.51 for every count
/// that binary64 holds exactly (below `2^53`): one decimal place of
/// precision.
pub proof fn law_shown_value_is_accurate(count: nat)
    requires
        1_000 <= count < two_pow(64),
    ensures
        100 * (10 * count - displayed_tenths(count, unit_of(count)) * unit_of(count)) <= 53
            * unit_of(count),
        100 * (displayed_tenths(count, unit_of(count)) * unit_of(count) - 10 * count) <= 53
            * unit_of(count),
        count < two_pow(53) ==> 100 * (10 * count - displayed_tenths(count, unit_of(count))
            * unit_of(count)) <= 51 * unit_of(count),
        count < two_pow(53) ==> 100 * (displayed_tenths(count, unit_of(count)) * unit_of(count)
            - 10 * count) <= 51 * unit_of(count),
{
    if count < two_pow(53) {
        lemma_quotient_small(count);
        lemma_displayed_tenths_close(count, unit_of(count));
    } else {
        lemma_two_pow_values();
        lemma_displayed_millions_close_large(count);
    }
}

/// A count that is a whole number of tenths of its unit is shown exactly:
/// `123400` as `123.4k`, `7700000` as `7.7m`.
pub proof fn law_round_counts_shown_exactly(count: nat)
    requires
        1_000 <= count < two_pow(64),
    ensures
        count < 1_000_000 && count % 100 == 0 ==> formatted_tokens(count) == one_decimal(
            count / 100,
        ).push('k'),
        count >= 1_000_000 && count % 100_000 == 0 ==> formatted_tokens(count) == one_decimal(
            count / 100_000,
        ).push('m'),
{
    law_shown_value_is_accurate(count);
    let unit = unit_of(count);
    let tenth = unit / 10;
    let shown = displayed_tenths(count, unit);
    if count % tenth == 0 {
        vstd::arithmetic::div_mod::lemma_fundamental_div_mod(count as int, tenth as int);
        let t = count / tenth;
        assert(shown == t) by (nonlinear_arith)
            requires
                count == tenth * t,
                unit == 10 * tenth,
                tenth > 0,
                100 * (10 * count - shown * unit) <= 53 * unit,
                100 * (shown * unit - 10 * count) <= 53 * unit,
        ;
    }
}

} // verus!
