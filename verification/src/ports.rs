//! Resolution of a port specification string into a sequence of ports.
//!
//! Grammar and policy:
//! - A spec containing a comma is a list of tokens; each token contributes
//!   its ports independently and a malformed token contributes nothing.
//! - A token containing a dash is a two-sided inclusive numeric range
//!   `low-high`, expanded in ascending order. A reversed range (`low > high`)
//!   is rejected and contributes nothing; a token whose bounds are not both
//!   ports (or that has more than one dash) is malformed.
//! - Any other token is a single decimal port number in 0-65535.
//! - A spec without a comma that cannot be read as a range or a single port
//!   (this includes the empty spec) falls back to the default range 1-1024.

use vstd::prelude::*;

verus! {

/// Largest valid port number.
pub const MAX_PORT: u16 = 65535;

/// A decimal digit character.
pub open spec fn is_digit(c: char) -> bool {
    '0' <= c && c <= '9'
}

/// Numeric value of a decimal digit character.
pub open spec fn digit_val(c: char) -> nat {
    (c as u32 - '0' as u32) as nat
}

/// Value of a string of decimal digits, most significant first.
pub open spec fn digits_val(s: Seq<char>) -> nat
    decreases s.len(),
{
    if s.len() == 0 {
        0
    } else {
        digits_val(s.drop_last()) * 10 + digit_val(s.last())
    }
}

/// Every character of `s` is a decimal digit.
pub open spec fn all_digits(s: Seq<char>) -> bool {
    forall|i: int| 0 <= i < s.len() ==> is_digit(#[trigger] s[i])
}

/// `s` is a well-formed single-port token: non-empty, all digits
/// (leading zeros permitted), and within the 16-bit port domain.
pub open spec fn is_port_token(s: Seq<char>) -> bool {
    &&& s.len() > 0
    &&& all_digits(s)
    &&& digits_val(s) <= MAX_PORT
}

/// Appending one digit multiplies the prefix value by ten and adds the digit.
proof fn lemma_digits_val_step(s: Seq<char>, i: int)
    requires
        0 <= i < s.len(),
    ensures
        digits_val(s.take(i + 1)) == digits_val(s.take(i)) * 10 + digit_val(s[i]),
{
    assert(s.take(i + 1).drop_last() =~= s.take(i));
    assert(s.take(i + 1).last() == s[i]);
}

/// The value of a digit string never drops as the string grows.
proof fn lemma_digits_val_monotone(s: Seq<char>, i: int, j: int)
    requires
        0 <= i <= j <= s.len(),
    ensures
        digits_val(s.take(i)) <= digits_val(s.take(j)),
    decreases j - i,
{
    if i < j {
        lemma_digits_val_monotone(s, i, j - 1);
        lemma_digits_val_step(s, j - 1);
    }
}

/// Parses `s[from..to]` as a single-port token.
///
/// Returns the port exactly when the token is well formed, and `None`
/// otherwise (empty, a non-digit character, or a value above `MAX_PORT`).
pub(crate) fn parse_port_token(s: &Vec<char>, from: usize, to: usize) -> (r: Option<u16>)
    requires
        from <= to <= s@.len(),
    ensures
        ({
            let t = s@.subrange(from as int, to as int);
            match r {
                Some(p) => is_port_token(t) && p == digits_val(t),
                None => !is_port_token(t),
            }
        }),
{
    let ghost t = s@.subrange(from as int, to as int);
    if from == to {
        return None;
    }
    let mut i: usize = from;
    let mut acc: u32 = 0;
    while i < to
        invariant
            from <= i <= to <= s@.len(),
            t == s@.subrange(from as int, to as int),
            forall|k: int| 0 <= k < i - from ==> is_digit(#[trigger] t[k]),
            acc == digits_val(t.take(i - from)),
            acc <= MAX_PORT,
        decreases to - i,
    {
        let c = s[i];
        assert(c == t[i - from]);
        if c < '0' || c > '9' {
            assert(!is_digit(t[i - from]));
            return None;
        }
        let d: u32 = c as u32 - 48;
        proof {
            assert('0' as u32 == 48);
            lemma_digits_val_step(t, i - from);
        }
        acc = acc * 10 + d;
        if acc > MAX_PORT as u32 {
            proof {
                lemma_digits_val_monotone(t, i + 1 - from, t.len() as int);
                assert(t.take(t.len() as int) =~= t);
            }
            return None;
        }
        i += 1;
    }
    proof {
        assert(t.take(t.len() as int) =~= t);
    }
    Some(acc as u16)
}

/// Splits `s` on `sep`. Adjacent separators and separators at either end
/// produce empty tokens; a string without `sep` is a single token.
pub open spec fn split_on(s: Seq<char>, sep: char) -> Seq<Seq<char>>
    decreases s.len(),
{
    if s.len() == 0 {
        seq![Seq::<char>::empty()]
    } else if s[0] == sep {
        seq![Seq::<char>::empty()] + split_on(s.drop_first(), sep)
    } else {
        let rest = split_on(s.drop_first(), sep);
        seq![seq![s[0]] + rest[0]] + rest.drop_first()
    }
}

/// A split has at least one token.
proof fn lemma_split_nonempty(s: Seq<char>, sep: char)
    ensures
        split_on(s, sep).len() >= 1,
    decreases s.len(),
{
    if s.len() != 0 {
        lemma_split_nonempty(s.drop_first(), sep);
    }
}

/// Where `j` is the index of the first separator (or the length when there
/// is none), the split is the token before `j` followed by the split of
/// what comes after `j`.
proof fn lemma_split_step(s: Seq<char>, sep: char, j: int)
    requires
        0 <= j <= s.len(),
        forall|k: int| 0 <= k < j ==> s[k] != sep,
        j < s.len() ==> s[j] == sep,
    ensures
        j == s.len() ==> split_on(s, sep) == seq![s],
        j < s.len() ==> split_on(s, sep) == seq![s.take(j)] + split_on(s.skip(j + 1), sep),
    decreases j,
{
    if s.len() == 0 {
        assert(split_on(s, sep) =~~= seq![s]);
    } else if j == 0 {
        if j < s.len() {
            assert(s[0] == sep);
            assert(s.take(0) =~= Seq::<char>::empty());
            assert(s.skip(1) =~= s.drop_first());
            assert(split_on(s, sep) =~~= seq![s.take(0)] + split_on(s.skip(1), sep));
        }
    } else {
        let s1 = s.drop_first();
        assert(forall|k: int| 0 <= k < j - 1 ==> s1[k] == s[k + 1] && s[k + 1] != sep);
        lemma_split_step(s1, sep, j - 1);
        lemma_split_nonempty(s1, sep);
        let rest = split_on(s1, sep);
        if j == s.len() {
            assert(rest == seq![s1]);
            assert(seq![s[0]] + rest[0] =~= s);
            assert(rest.drop_first() =~= Seq::<Seq<char>>::empty());
            assert(split_on(s, sep) =~~= seq![s]);
        } else {
            assert(s1[j - 1] == s[j]);
            assert(rest == seq![s1.take(j - 1)] + split_on(s1.skip(j), sep));
            assert(rest[0] == s1.take(j - 1));
            assert(seq![s[0]] + s1.take(j - 1) =~= s.take(j));
            assert(rest.drop_first() =~= split_on(s1.skip(j), sep));
            assert(s1.skip(j) =~= s.skip(j + 1));
            assert(split_on(s, sep) =~~= seq![s.take(j)] + split_on(s.skip(j + 1), sep));
        }
    }
}

/// `t` splits into a well-formed range at dash position `i`: a port token
/// on each side of a dash. Both sides being all digits, at most one such
/// position can exist.
pub open spec fn splits_as_range(t: Seq<char>, i: int) -> bool {
    &&& 0 <= i < t.len()
    &&& t[i] == '-'
    &&& is_port_token(t.take(i))
    &&& is_port_token(t.skip(i + 1))
}

/// `t` is a well-formed range token `low-high`.
pub open spec fn is_range_token(t: Seq<char>) -> bool {
    exists|i: int| splits_as_range(t, i)
}

/// The dash position of a well-formed range token.
pub open spec fn range_dash(t: Seq<char>) -> int {
    choose|i: int| splits_as_range(t, i)
}

/// Lower bound of a well-formed range token.
pub open spec fn range_lo(t: Seq<char>) -> u16 {
    digits_val(t.take(range_dash(t))) as u16
}

/// Upper bound of a well-formed range token.
pub open spec fn range_hi(t: Seq<char>) -> u16 {
    digits_val(t.skip(range_dash(t) + 1)) as u16
}

/// A range token splits at exactly one position.
pub(crate) proof fn lemma_range_dash_unique(t: Seq<char>, i: int, j: int)
    requires
        splits_as_range(t, i),
        splits_as_range(t, j),
    ensures
        i == j,
{
    if i < j {
        assert(t.skip(i + 1)[j - i - 1] == t[j]);
        assert(is_digit(t.skip(i + 1)[j - i - 1]));
    } else if j < i {
        assert(t.skip(j + 1)[i - j - 1] == t[i]);
        assert(is_digit(t.skip(j + 1)[i - j - 1]));
    }
}

/// The ascending inclusive sequence `lo, lo+1, ..., hi`; empty when `lo > hi`.
pub open spec fn range_seq(lo: u16, hi: u16) -> Seq<u16> {
    if lo <= hi {
        Seq::new((hi - lo + 1) as nat, |k: int| (lo + k) as u16)
    } else {
        Seq::empty()
    }
}

/// Ports contributed by a token containing a dash: the expanded range when
/// the token is well formed (reversed bounds expand to nothing), nothing
/// otherwise.
pub open spec fn range_ports(t: Seq<char>) -> Seq<u16> {
    if is_range_token(t) {
        range_seq(range_lo(t), range_hi(t))
    } else {
        Seq::empty()
    }
}

/// Ports contributed by one comma-separated token.
pub open spec fn token_ports(t: Seq<char>) -> Seq<u16> {
    if t.contains('-') {
        range_ports(t)
    } else if is_port_token(t) {
        seq![digits_val(t) as u16]
    } else {
        Seq::empty()
    }
}

/// Concatenation of the contributions of a sequence of tokens, in order.
pub open spec fn tokens_ports(tokens: Seq<Seq<char>>) -> Seq<u16>
    decreases tokens.len(),
{
    if tokens.len() == 0 {
        Seq::empty()
    } else {
        token_ports(tokens.first()) + tokens_ports(tokens.drop_first())
    }
}

/// The default port range, scanned when the spec is unparseable: 1-1024.
pub open spec fn spec_default_ports() -> Seq<u16> {
    range_seq(1, 1024)
}

/// The ports a specification string resolves to.
///
/// A spec with a comma is a token list; each token contributes
/// independently and a malformed token contributes nothing. A spec without
/// a comma is one range (when it has a dash) or one port, and falls back to
/// the default range 1-1024 when it cannot be read as either.
pub open spec fn resolve_spec(s: Seq<char>) -> Seq<u16> {
    if s.contains(',') {
        tokens_ports(split_on(s, ','))
    } else if s.contains('-') {
        if is_range_token(s) {
            range_seq(range_lo(s), range_hi(s))
        } else {
            spec_default_ports()
        }
    } else if is_port_token(s) {
        seq![digits_val(s) as u16]
    } else {
        spec_default_ports()
    }
}

/// Resolution is a pure function of the specification string: equal inputs
/// resolve to equal port sequences.
pub proof fn lemma_resolve_deterministic(a: Seq<char>, b: Seq<char>)
    requires
        a == b,
    ensures
        resolve_spec(a) == resolve_spec(b),
{
}

/// Index of the first `sep` in `s[from..to]`, or `to` when there is none.
fn find_in(s: &Vec<char>, from: usize, to: usize, sep: char) -> (r: usize)
    requires
        from <= to <= s@.len(),
    ensures
        from <= r <= to,
        forall|k: int| from <= k < r ==> s@[k] != sep,
        r < to ==> s@[r as int] == sep,
{
    let mut i: usize = from;
    while i < to
        invariant
            from <= i <= to <= s@.len(),
            forall|k: int| from <= k < i ==> s@[k] != sep,
        decreases to - i,
    {
        if s[i] == sep {
            return i;
        }
        i += 1;
    }
    i
}

/// Parses `s[from..to]` as a range token `low-high`.
///
/// Returns the bounds exactly when the token is well formed, and `None`
/// otherwise (no dash, more than one dash, or a side that is not a port).
pub(crate) fn parse_range_token(s: &Vec<char>, from: usize, to: usize) -> (r: Option<(u16, u16)>)
    requires
        from <= to <= s@.len(),
    ensures
        ({
            let t = s@.subrange(from as int, to as int);
            match r {
                Some(b) => is_range_token(t) && b.0 == range_lo(t) && b.1 == range_hi(t),
                None => !is_range_token(t),
            }
        }),
{
    let ghost t = s@.subrange(from as int, to as int);
    let d = find_in(s, from, to, '-');
    if d == to {
        proof {
            assert forall|i: int| !splits_as_range(t, i) by {
                if 0 <= i < t.len() {
                    assert(t[i] == s@[from + i]);
                }
            }
        }
        return None;
    }
    let a = parse_port_token(s, from, d);
    let b = parse_port_token(s, d + 1, to);
    proof {
        assert(t.take(d - from) =~= s@.subrange(from as int, d as int));
        assert(t.skip(d - from + 1) =~= s@.subrange(d + 1 as int, to as int));
        assert(t[d - from] == s@[d as int]);
    }
    match (a, b) {
        (Some(lo), Some(hi)) => {
            proof {
                assert(splits_as_range(t, d - from));
                lemma_range_dash_unique(t, d - from, range_dash(t));
            }
            Some((lo, hi))
        },
        _ => {
            proof {
                assert forall|i: int| !splits_as_range(t, i) by {
                    if splits_as_range(t, i) {
                        if i < d - from {
                            assert(t[i] == s@[from + i]);
                        } else if i > d - from {
                            assert(t.take(i)[d - from] == t[d - from]);
                            assert(is_digit(t.take(i)[d - from]));
                        }
                    }
                }
            }
            None
        },
    }
}

/// Appends the ascending inclusive range `lo..=hi` to `out`
/// (nothing when `lo > hi`).
pub(crate) fn push_range(out: &mut Vec<u16>, lo: u16, hi: u16)
    ensures
        final(out)@ == old(out)@ + range_seq(lo, hi),
{
    if lo > hi {
        proof {
            assert(out@ + range_seq(lo, hi) =~= out@);
        }
        return;
    }
    let ghost base = out@;
    let mut p: u32 = lo as u32;
    while p <= hi as u32
        invariant
            lo as u32 <= p <= hi as u32 + 1,
            lo <= hi,
            out@ == base + range_seq(lo, hi).take(p - lo),
        decreases hi as u32 + 1 - p,
    {
        out.push(p as u16);
        proof {
            assert(range_seq(lo, hi).take(p + 1 - lo) =~= range_seq(lo, hi).take(p - lo).push(
                (p as u16),
            ));
        }
        p += 1;
    }
    proof {
        assert(range_seq(lo, hi).take(p - lo) =~= range_seq(lo, hi));
    }
}

/// Appends the ports contributed by the token `s[from..to]`.
fn append_token_ports(out: &mut Vec<u16>, s: &Vec<char>, from: usize, to: usize)
    requires
        from <= to <= s@.len(),
    ensures
        final(out)@ == old(out)@ + token_ports(s@.subrange(from as int, to as int)),
{
    let ghost t = s@.subrange(from as int, to as int);
    let d = find_in(s, from, to, '-');
    if d < to {
        proof {
            assert(t[d - from] == s@[d as int]);
            assert(t.contains('-'));
        }
        match parse_range_token(s, from, to) {
            Some((lo, hi)) => {
                push_range(out, lo, hi);
            },
            None => {
                proof {
                    assert(out@ + token_ports(t) =~= out@);
                }
            },
        }
    } else {
        proof {
            assert forall|k: int| 0 <= k < t.len() implies t[k] != '-' by {
                assert(t[k] == s@[from + k]);
            }
            assert(!t.contains('-'));
        }
        match parse_port_token(s, from, to) {
            Some(p) => {
                out.push(p);
                proof {
                    assert(old(out)@ + token_ports(t) =~= out@);
                }
            },
            None => {
                proof {
                    assert(out@ + token_ports(t) =~= out@);
                }
            },
        }
    }
}

/// Collects the characters of `s` into a vector.
fn str_to_chars(s: &str) -> (v: Vec<char>)
    ensures
        v@ == s@,
{
    let n = s.unicode_len();
    let mut v: Vec<char> = Vec::new();
    let mut i: usize = 0;
    while i < n
        invariant
            i <= n == s@.len(),
            v@ == s@.take(i as int),
        decreases n - i,
    {
        let c = s.get_char(i);
        v.push(c);
        proof {
            assert(s@.take(i + 1) =~= s@.take(i as int).push(s@[i as int]));
        }
        i += 1;
    }
    proof {
        assert(s@.take(n as int) =~= s@);
    }
    v
}

/// Resolves a user-supplied port specification into the sequence of ports
/// to probe, per `resolve_spec`: a comma list of tokens, a single range, or
/// a single port, with the default range 1-1024 as the fallback for a spec
/// that cannot be read at all.
pub fn parse_ports(ports_arg: String) -> (ports: Vec<u16>)
    ensures
        ports@ == resolve_spec(ports_arg@),
{
    let chars = str_to_chars(ports_arg.as_str());
    let n = chars.len();
    let mut out: Vec<u16> = Vec::new();
    let comma = find_in(&chars, 0, n, ',');
    if comma < n {
        proof {
            assert(chars@.contains(','));
        }
        let mut start: usize = 0;
        proof {
            assert(chars@.skip(0) =~= chars@);
            assert(out@ + tokens_ports(split_on(chars@, ',')) =~= tokens_ports(
                split_on(chars@, ','),
            ));
        }
        loop
            invariant_except_break
                out@ + tokens_ports(split_on(chars@.skip(start as int), ',')) == tokens_ports(
                    split_on(chars@, ','),
                ),
            invariant
                start <= n == chars@.len(),
            ensures
                out@ == tokens_ports(split_on(chars@, ',')),
            decreases n - start,
        {
            let j = find_in(&chars, start, n, ',');
            let ghost rem = chars@.skip(start as int);
            let ghost tok = chars@.subrange(start as int, j as int);
            proof {
                assert(forall|k: int|
                    0 <= k < j - start ==> rem[k] == chars@[start + k] && chars@[start + k] != ',');
                if j < n {
                    assert(rem[j - start] == chars@[j as int]);
                }
                lemma_split_step(rem, ',', j - start);
                assert(rem.take(j - start) =~= tok);
            }
            append_token_ports(&mut out, &chars, start, j);
            if j == n {
                proof {
                    assert(rem =~= tok);
                    assert(split_on(rem, ',') == seq![tok]);
                    assert(seq![tok].first() == tok);
                    assert(seq![tok].drop_first() =~= Seq::<Seq<char>>::empty());
                    assert(token_ports(tok) + tokens_ports(Seq::<Seq<char>>::empty()) =~= token_ports(
                        tok,
                    ));
                }
                break ;
            }
            proof {
                let rest = split_on(rem.skip(j - start + 1), ',');
                assert(split_on(rem, ',') == seq![tok] + rest);
                assert((seq![tok] + rest).first() == tok);
                assert((seq![tok] + rest).drop_first() =~= rest);
                assert(rem.skip(j - start + 1) =~= chars@.skip(j + 1));
            }
            start = j + 1;
        }
    } else {
        proof {
            assert(!chars@.contains(','));
            assert(chars@.subrange(0, n as int) =~= chars@);
        }
        let dash = find_in(&chars, 0, n, '-');
        if dash < n {
            proof {
                assert(chars@.contains('-'));
            }
            match parse_range_token(&chars, 0, n) {
                Some((lo, hi)) => {
                    push_range(&mut out, lo, hi);
                },
                None => {
                    push_range(&mut out, 1, 1024);
                },
            }
        } else {
            proof {
                assert forall|k: int| 0 <= k < chars@.len() implies chars@[k] != '-' by {}
                assert(!chars@.contains('-'));
            }
            match parse_port_token(&chars, 0, n) {
                Some(p) => {
                    out.push(p);
                    proof {
                        assert(out@ =~= seq![digits_val(chars@) as u16]);
                    }
                },
                None => {
                    push_range(&mut out, 1, 1024);
                },
            }
        }
        proof {
            assert(Seq::<u16>::empty() + range_seq(1, 1024) =~= range_seq(1, 1024));
        }
    }
    out
}

} // verus!
