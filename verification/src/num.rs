//! The mathematical model of decimal numerals: what the standard textual
//! form of an integer is, and that it denotes the integer it was made from.

use vstd::prelude::*;

verus! {

/// The character for a single decimal digit value.
pub open spec fn digit_char(d: nat) -> char {
    ((48 + (d % 10)) as u8) as char
}

/// Whether a character is one of the ten decimal digit characters.
pub open spec fn is_digit_char(c: char) -> bool {
    '0' <= c && c <= '9'
}

/// The standard decimal numeral of a nonnegative integer, most significant
/// digit first, with no sign, no leading zero (except for zero itself).
pub open spec fn dec_rep(n: nat) -> Seq<char>
    decreases n,
{
    if n < 10 {
        seq![digit_char(n)]
    } else {
        dec_rep(n / 10) + seq![digit_char(n % 10)]
    }
}

/// The standard decimal numeral of an integer: a leading '-' when negative.
pub open spec fn dec_rep_signed(n: int) -> Seq<char> {
    if n >= 0 {
        dec_rep(n as nat)
    } else {
        seq!['-'] + dec_rep((-n) as nat)
    }
}

/// The integer denoted by a sequence of decimal digit characters.
pub open spec fn dec_val(s: Seq<char>) -> int
    decreases s.len(),
{
    if s.len() == 0 {
        0
    } else {
        dec_val(s.drop_last()) * 10 + (s.last() as int - 48)
    }
}

/// A decimal numeral is never empty, holds only digit characters, and has no
/// leading zero unless it denotes zero itself.
pub proof fn lemma_dec_rep_digits(n: nat)
    ensures
        dec_rep(n).len() > 0,
        forall|i: int| 0 <= i < dec_rep(n).len() ==> is_digit_char(#[trigger] dec_rep(n)[i]),
        n > 0 ==> dec_rep(n)[0] != '0',
    decreases n,
{
    if n < 10 {
        assert(dec_rep(n) == seq![digit_char(n)]);
    } else {
        lemma_dec_rep_digits(n / 10);
        assert forall|i: int| 0 <= i < dec_rep(n).len() implies is_digit_char(
            #[trigger] dec_rep(n)[i],
        ) by {
            if i < dec_rep(n / 10).len() {
                assert(dec_rep(n)[i] == dec_rep(n / 10)[i]);
            } else {
                assert(dec_rep(n)[i] == digit_char(n % 10));
            }
        }
        assert(dec_rep(n)[0] == dec_rep(n / 10)[0]);
    }
}

/// The decimal numeral of `n` denotes `n`: rendering an integer and reading
/// the digits back are inverse, so the numeral pins the integer down.
pub proof fn lemma_dec_rep_denotes(n: nat)
    ensures
        dec_val(dec_rep(n)) == n,
    decreases n,
{
    if n < 10 {
        let s = seq![digit_char(n)];
        assert(s.drop_last() =~= Seq::<char>::empty());
        assert(dec_val(Seq::<char>::empty()) == 0);
        assert(dec_val(s) == digit_char(n) as int - 48);
    } else {
        lemma_dec_rep_denotes(n / 10);
        let s = dec_rep(n);
        assert(s.drop_last() =~= dec_rep(n / 10));
        assert(s.last() == digit_char(n % 10));
        vstd::arithmetic::div_mod::lemma_fundamental_div_mod(n as int, 10);
    }
}

/// A digit string that does not start with '0' denotes at least 1.
proof fn lemma_dec_val_lower_bound(s: Seq<char>)
    requires
        s.len() > 0,
        forall|i: int| 0 <= i < s.len() ==> is_digit_char(#[trigger] s[i]),
        s[0] != '0',
    ensures
        dec_val(s) >= 1,
    decreases s.len(),
{
    if s.len() == 1 {
        assert(s.last() == s[0]);
        assert(dec_val(s.drop_last()) == 0) by {
            assert(s.drop_last() =~= Seq::<char>::empty());
        }
    } else {
        let t = s.drop_last();
        assert(t[0] == s[0]);
        assert(forall|i: int| 0 <= i < t.len() ==> is_digit_char(#[trigger] t[i]));
        lemma_dec_val_lower_bound(t);
        assert(dec_val(s) == dec_val(t) * 10 + (s.last() as int - 48));
    }
}

/// The decimal numeral is unique: every digit string without a superfluous
/// leading zero is exactly the numeral of the integer it denotes.
pub proof fn lemma_dec_rep_unique(s: Seq<char>)
    requires
        s.len() > 0,
        forall|i: int| 0 <= i < s.len() ==> is_digit_char(#[trigger] s[i]),
        s.len() > 1 ==> s[0] != '0',
    ensures
        dec_val(s) >= 0,
        dec_rep(dec_val(s) as nat) == s,
    decreases s.len(),
{
    if s.len() == 1 {
        let d = s[0] as int - 48;
        assert(s.last() == s[0]);
        assert(dec_val(s.drop_last()) == 0) by {
            assert(s.drop_last() =~= Seq::<char>::empty());
        }
        assert(dec_val(s) == d);
        assert(digit_char(d as nat) == s[0]);
        assert(dec_rep(d as nat) =~= s);
    } else {
        let t = s.drop_last();
        let d = s.last() as int - 48;
        assert(forall|i: int| 0 <= i < t.len() ==> is_digit_char(#[trigger] t[i]));
        assert(t[0] == s[0]);
        lemma_dec_rep_unique(t);
        lemma_dec_val_lower_bound(t);
        let m = dec_val(t);
        let n = dec_val(s);
        assert(n == m * 10 + d);
        vstd::arithmetic::div_mod::lemma_fundamental_div_mod_converse(n, 10, m, d);
        assert(n >= 10);
        assert(digit_char((n % 10) as nat) == s.last());
        assert(dec_rep(n as nat) =~= s);
    }
}

} // verus!
