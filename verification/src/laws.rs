//! Resolution laws: what `resolve_spec` yields on every well-formed single
//! token and on every well-formed range, stated over all ports rather than
//! sampled values.

use crate::ports::{
    all_digits, digit_val, digits_val, is_digit, is_port_token, is_range_token,
    lemma_range_dash_unique, range_dash, range_hi, range_lo, range_seq, resolve_spec,
    splits_as_range,
};
use crate::report::{dec_digit, dec_str};
use vstd::prelude::*;

verus! {

/// Reading a decimal rendering back yields the rendered number: the
/// rendering is non-empty, consists of digits alone, and has value `n`.
pub proof fn lemma_dec_str_digits(n: nat)
    ensures
        dec_str(n).len() >= 1,
        all_digits(dec_str(n)),
        digits_val(dec_str(n)) == n,
    decreases n,
{
    if n < 10 {
        assert(dec_str(n) == seq![dec_digit(n)]);
        assert(seq![dec_digit(n)].drop_last() =~= Seq::<char>::empty());
        assert(seq![dec_digit(n)].last() == dec_digit(n));
        assert(digits_val(Seq::<char>::empty()) == 0);
        assert(digits_val(dec_str(n)) == digit_val(dec_digit(n)));
        assert(digit_val(dec_digit(n)) == n);
    } else {
        lemma_dec_str_digits(n / 10);
        let s0 = dec_str(n / 10);
        let d = dec_digit(n % 10);
        assert(s0.push(d).drop_last() =~= s0);
        assert(s0.push(d).last() == d);
        assert(digit_val(d) == n % 10);
        assert(digits_val(dec_str(n)) == (n / 10) * 10 + n % 10);
        assert forall|i: int| 0 <= i < s0.push(d).len() implies is_digit(#[trigger] s0.push(d)[i]) by {
            if i < s0.len() {
                assert(s0.push(d)[i] == s0[i]);
            } else {
                assert(s0.push(d)[i] == d);
            }
        }
    }
}

/// A string of digits holds neither a comma nor a dash.
proof fn lemma_digits_not_sep(s: Seq<char>)
    requires
        all_digits(s),
    ensures
        !s.contains(','),
        !s.contains('-'),
{
    assert forall|i: int| 0 <= i < s.len() implies #[trigger] s[i] != ',' && s[i] != '-' by {
        assert(is_digit(s[i]));
    }
}

/// Law: a spec that is the decimal numeral of one port `p` resolves to
/// exactly the one-element sequence holding `p`.
pub proof fn lemma_resolve_single_port(p: u16)
    ensures
        resolve_spec(dec_str(p as nat)) == seq![p],
{
    lemma_dec_str_digits(p as nat);
    let s = dec_str(p as nat);
    lemma_digits_not_sep(s);
    assert(is_port_token(s));
    assert(resolve_spec(s) == seq![digits_val(s) as u16]);
}

/// Law: a spec `a-b` built from the decimal numerals of two ports with
/// `a <= b` resolves to the ascending inclusive sequence `a, a+1, ..., b`.
pub proof fn lemma_resolve_range(a: u16, b: u16)
    requires
        a <= b,
    ensures
        resolve_spec(dec_str(a as nat) + seq!['-'] + dec_str(b as nat)) == range_seq(a, b),
        range_seq(a, b).len() == b - a + 1,
        forall|k: int| 0 <= k <= b - a ==> range_seq(a, b)[k] == a + k,
{
    lemma_dec_str_digits(a as nat);
    lemma_dec_str_digits(b as nat);
    let sa = dec_str(a as nat);
    let sb = dec_str(b as nat);
    let t = sa + seq!['-'] + sb;
    let i = sa.len() as int;
    assert(t[i] == '-');
    assert(t.take(i) =~= sa);
    assert(t.skip(i + 1) =~= sb);
    assert(is_port_token(sa));
    assert(is_port_token(sb));
    assert(splits_as_range(t, i));
    assert(is_range_token(t));
    assert forall|k: int| 0 <= k < t.len() implies #[trigger] t[k] != ',' by {
        if k < i {
            assert(t[k] == sa[k]);
            assert(is_digit(sa[k]));
        } else if k > i {
            assert(t[k] == sb[k - i - 1]);
            assert(is_digit(sb[k - i - 1]));
        }
    }
    assert(!t.contains(','));
    assert(t.contains('-'));
    assert(splits_as_range(t, range_dash(t)));
    lemma_range_dash_unique(t, i, range_dash(t));
    assert(range_lo(t) == a);
    assert(range_hi(t) == b);
}

} // verus!
