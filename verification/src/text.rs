//! Byte-level text processing for the line-oriented geometry format:
//! ASCII whitespace classification, trimming, whitespace tokenization,
//! and the decimal value of a digit string.
//!
//! Everything works on byte sequences; the format is ASCII by
//! definition, and non-ASCII bytes simply never match any keyword or
//! digit.

use vstd::prelude::*;

verus! {

use vstd::arithmetic::power::{lemma_pow0, lemma_pow1, lemma_pow_adds, lemma_pow_positive, pow};

/// ASCII whitespace: space, tab, line feed, form feed, carriage return.
pub open spec fn is_ws(b: u8) -> bool {
    b == 32 || b == 9 || b == 10 || b == 12 || b == 13
}

/// An ASCII decimal digit.
pub open spec fn is_digit(b: u8) -> bool {
    48 <= b <= 57
}

/// Every byte of `s` is a decimal digit.
pub open spec fn all_digits(s: Seq<u8>) -> bool {
    forall|k: int| 0 <= k < s.len() ==> is_digit(#[trigger] s[k])
}

/// Ten to the `n`.
pub open spec fn pow10(n: nat) -> int {
    pow(10, n)
}

/// The value of a digit string read in base ten, most significant first.
pub open spec fn dec_value(s: Seq<u8>) -> int
    decreases s.len(),
{
    if s.len() == 0 {
        0
    } else {
        dec_value(s.drop_last()) * 10 + (s.last() - 48)
    }
}

/// Exec mirror of `is_ws`.
pub fn is_ws_byte(b: u8) -> (r: bool)
    ensures
        r == is_ws(b),
{
    b == 32 || b == 9 || b == 10 || b == 12 || b == 13
}

/// Exec mirror of `is_digit`.
pub fn is_digit_byte(b: u8) -> (r: bool)
    ensures
        r == is_digit(b),
{
    48 <= b && b <= 57
}

// ---------------------------------------------------------------------
// Trimming

/// `s` without leading whitespace.
pub open spec fn trim_front(s: Seq<u8>) -> Seq<u8>
    decreases s.len(),
{
    if s.len() == 0 {
        s
    } else if is_ws(s[0]) {
        trim_front(s.skip(1))
    } else {
        s
    }
}

/// `s` without trailing whitespace.
pub open spec fn trim_back(s: Seq<u8>) -> Seq<u8>
    decreases s.len(),
{
    if s.len() == 0 {
        s
    } else if is_ws(s.last()) {
        trim_back(s.drop_last())
    } else {
        s
    }
}

/// `s` without leading and trailing whitespace.
pub open spec fn trimmed(s: Seq<u8>) -> Seq<u8> {
    trim_back(trim_front(s))
}

proof fn lemma_trim_front_at(s: Seq<u8>, i: int)
    requires
        0 <= i <= s.len(),
        forall|k: int| 0 <= k < i ==> is_ws(#[trigger] s[k]),
        i == s.len() || !is_ws(s[i]),
    ensures
        trim_front(s) == s.skip(i),
    decreases i,
{
    if i == 0 {
        assert(s.skip(0) =~= s);
        if s.len() > 0 && is_ws(s[0]) {
        } else {
        }
    } else {
        assert(is_ws(s[0]));
        let t = s.skip(1);
        assert(forall|k: int| 0 <= k < i - 1 ==> is_ws(#[trigger] t[k]));
        lemma_trim_front_at(t, i - 1);
        assert(t.skip(i - 1) =~= s.skip(i));
    }
}

proof fn lemma_trim_back_at(s: Seq<u8>, e: int)
    requires
        0 <= e <= s.len(),
        forall|k: int| e <= k < s.len() ==> is_ws(#[trigger] s[k]),
        e == 0 || !is_ws(s[e - 1]),
    ensures
        trim_back(s) == s.take(e),
    decreases s.len() - e,
{
    if e == s.len() {
        assert(s.take(e) =~= s);
        if s.len() > 0 && is_ws(s.last()) {
        } else {
        }
    } else {
        assert(is_ws(s.last()));
        let t = s.drop_last();
        assert(t =~= s.take(s.len() - 1));
        lemma_trim_back_at(t, e);
        assert(t.take(e) =~= s.take(e));
    }
}

/// The line without leading and trailing ASCII whitespace.
pub fn trim_bytes(line: &Vec<u8>) -> (t: Vec<u8>)
    ensures
        t@ == trimmed(line@),
{
    let n = line.len();
    let mut start: usize = 0;
    while start < n && is_ws_byte(line[start])
        invariant
            0 <= start <= n,
            n == line@.len(),
            forall|k: int| 0 <= k < start ==> is_ws(#[trigger] line@[k]),
        decreases n - start,
    {
        start = start + 1;
    }
    let mut end: usize = n;
    while end > start && is_ws_byte(line[end - 1])
        invariant
            start <= end <= n,
            n == line@.len(),
            forall|k: int| end <= k < n ==> is_ws(#[trigger] line@[k]),
        decreases end,
    {
        end = end - 1;
    }
    let mut t: Vec<u8> = Vec::new();
    let mut i: usize = start;
    while i < end
        invariant
            start <= i <= end <= n,
            n == line@.len(),
            t@ == line@.subrange(start as int, i as int),
        decreases end - i,
    {
        t.push(line[i]);
        proof {
            assert(t@ =~= line@.subrange(start as int, i + 1 as int));
        }
        i = i + 1;
    }
    proof {
        lemma_trim_front_at(line@, start as int);
        let f = line@.skip(start as int);
        assert(forall|k: int|
            end - start <= k < f.len() ==> is_ws(#[trigger] f[k]) == is_ws(
                line@[k + start],
            ) && is_ws(line@[k + start]));
        lemma_trim_back_at(f, end - start);
        assert(f.take(end - start) =~= line@.subrange(start as int, end as int));
        assert(t@ =~= line@.subrange(start as int, end as int));
    }
    t
}

// ---------------------------------------------------------------------
// Tokenization

/// The end of the whitespace-free token starting at `i`: the first
/// position at or after `i` holding whitespace, or the end of `s`.
pub open spec fn tok_end(s: Seq<u8>, i: int) -> int
    decreases s.len() - i,
{
    if !(0 <= i < s.len()) {
        if i < 0 {
            0
        } else {
            s.len() as int
        }
    } else if is_ws(s[i]) {
        i
    } else {
        tok_end(s, i + 1)
    }
}

pub proof fn lemma_tok_end_bounds(s: Seq<u8>, i: int)
    requires
        0 <= i <= s.len(),
    ensures
        i <= tok_end(s, i) <= s.len(),
    decreases s.len() - i,
{
    if 0 <= i < s.len() && !is_ws(s[i]) {
        lemma_tok_end_bounds(s, i + 1);
    }
}

/// The whitespace-separated tokens of `s` from position `i` on.
pub open spec fn tokens_from(s: Seq<u8>, i: int) -> Seq<Seq<u8>>
    decreases s.len() - i,
    when true
    via tokens_from_decreases
{
    if !(0 <= i < s.len()) {
        Seq::empty()
    } else if is_ws(s[i]) {
        tokens_from(s, i + 1)
    } else {
        seq![s.subrange(i, tok_end(s, i))] + tokens_from(s, tok_end(s, i))
    }
}

#[via_fn]
proof fn tokens_from_decreases(s: Seq<u8>, i: int) {
    if 0 <= i < s.len() && !is_ws(s[i]) {
        lemma_tok_end_bounds(s, i + 1);
    }
}

/// The whitespace-separated tokens of `s`, in order. A token is a
/// maximal run of non-whitespace bytes.
pub open spec fn tokens(s: Seq<u8>) -> Seq<Seq<u8>> {
    tokens_from(s, 0)
}

/// Split a line into its whitespace-separated tokens.
pub fn split_ws(line: &Vec<u8>) -> (toks: Vec<Vec<u8>>)
    ensures
        toks.deep_view() == tokens(line@),
{
    let n = line.len();
    let mut toks: Vec<Vec<u8>> = Vec::new();
    let mut i: usize = 0;
    while i < n
        invariant
            0 <= i <= n,
            n == line@.len(),
            tokens(line@) == toks.deep_view() + tokens_from(line@, i as int),
        decreases n - i,
    {
        if is_ws_byte(line[i]) {
            proof {
                assert(tokens_from(line@, i as int) == tokens_from(line@, i + 1 as int));
            }
            i = i + 1;
        } else {
            let start = i;
            let mut j = i;
            while j < n && !is_ws_byte(line[j])
                invariant
                    start <= j <= n,
                    n == line@.len(),
                    tok_end(line@, start as int) == tok_end(line@, j as int),
                decreases n - j,
            {
                proof {
                    assert(tok_end(line@, j as int) == tok_end(line@, j + 1 as int));
                }
                j = j + 1;
            }
            proof {
                assert(tok_end(line@, j as int) == j);
            }
            let mut sub: Vec<u8> = Vec::new();
            let mut k = start;
            while k < j
                invariant
                    start <= k <= j <= n,
                    n == line@.len(),
                    sub@ == line@.subrange(start as int, k as int),
                decreases j - k,
            {
                sub.push(line[k]);
                proof {
                    assert(sub@ =~= line@.subrange(start as int, k + 1 as int));
                }
                k = k + 1;
            }
            let ghost old_deep = toks.deep_view();
            toks.push(sub);
            proof {
                assert(toks.deep_view() =~~= old_deep + seq![line@.subrange(start as int, j as int)]);
                assert(tokens_from(line@, start as int) == seq![
                    line@.subrange(start as int, j as int),
                ] + tokens_from(line@, j as int));
                assert(toks.deep_view() + tokens_from(line@, j as int) =~~= old_deep + tokens_from(
                    line@,
                    start as int,
                ));
            }
            i = j;
        }
    }
    proof {
        assert(tokens(line@) =~~= toks.deep_view());
    }
    toks
}

// ---------------------------------------------------------------------
// Decimal values

pub proof fn lemma_dec_value_bounds(s: Seq<u8>)
    requires
        all_digits(s),
    ensures
        0 <= dec_value(s) < pow10(s.len()),
    decreases s.len(),
{
    reveal(pow);
    if s.len() == 0 {
    } else {
        let t = s.drop_last();
        assert(all_digits(t));
        lemma_dec_value_bounds(t);
        lemma_pow_adds(10, (s.len() - 1) as nat, 1);
        lemma_pow1(10);
        assert(dec_value(s) == dec_value(t) * 10 + (s.last() - 48));
        assert(dec_value(t) * 10 <= (pow10((s.len() - 1) as nat) - 1) * 10) by (nonlinear_arith)
            requires
                dec_value(t) <= pow10((s.len() - 1) as nat) - 1,
        ;
        assert(pow10(s.len()) == pow10((s.len() - 1) as nat) * 10);
        assert(dec_value(t) * 10 >= 0) by (nonlinear_arith)
            requires
                dec_value(t) >= 0,
        ;
    }
}

pub proof fn lemma_dec_value_leading(s: Seq<u8>)
    requires
        all_digits(s),
        s.len() > 0,
        s[0] != 48,
    ensures
        dec_value(s) >= pow10((s.len() - 1) as nat),
    decreases s.len(),
{
    reveal(pow);
    if s.len() == 1 {
        lemma_pow0(10);
        assert(dec_value(s) == dec_value(s.drop_last()) * 10 + (s.last() - 48));
        assert(dec_value(s.drop_last()) == 0);
    } else {
        let t = s.drop_last();
        assert(t[0] == s[0]);
        assert(all_digits(t));
        lemma_dec_value_leading(t);
        lemma_pow_adds(10, (s.len() - 2) as nat, 1);
        lemma_pow1(10);
        assert(dec_value(t) * 10 >= pow10((s.len() - 2) as nat) * 10) by (nonlinear_arith)
            requires
                dec_value(t) >= pow10((s.len() - 2) as nat),
        ;
        assert(pow10((s.len() - 1) as nat) == pow10((s.len() - 2) as nat) * 10);
        assert(is_digit(s.last()));
    }
}

/// Splitting a digit string: the whole value is the prefix value shifted
/// past the suffix, plus the suffix value.
pub proof fn lemma_dec_value_split(s: Seq<u8>, k: int)
    requires
        0 <= k <= s.len(),
    ensures
        dec_value(s) == dec_value(s.take(k)) * pow10((s.len() - k) as nat) + dec_value(s.skip(k)),
    decreases s.len() - k,
{
    reveal(pow);
    if k == s.len() {
        assert(s.take(k) =~= s);
        assert(s.skip(k) =~= Seq::<u8>::empty());
        lemma_pow0(10);
    } else {
        let t = s.drop_last();
        lemma_dec_value_split(t, k);
        assert(t.take(k) =~= s.take(k));
        assert(t.skip(k) =~= s.skip(k).drop_last());
        lemma_pow_adds(10, (s.len() - 1 - k) as nat, 1);
        lemma_pow1(10);
        assert(pow10((s.len() - k) as nat) == pow10((s.len() - 1 - k) as nat) * 10);
        assert(dec_value(s) == dec_value(t) * 10 + (s.last() - 48));
        assert(dec_value(s.skip(k)) == dec_value(s.skip(k).drop_last()) * 10 + (s.skip(
            k,
        ).last() - 48));
        assert(s.skip(k).last() == s.last());
        assert((dec_value(s.take(k)) * pow10((s.len() - 1 - k) as nat) + dec_value(
            s.skip(k).drop_last(),
        )) * 10 == dec_value(s.take(k)) * (pow10((s.len() - 1 - k) as nat) * 10) + dec_value(
            s.skip(k).drop_last(),
        ) * 10) by (nonlinear_arith);
    }
}

/// Leading zeros do not change the value.
pub proof fn lemma_dec_value_strip_zeros(s: Seq<u8>, z: int)
    requires
        0 <= z <= s.len(),
        forall|k: int| 0 <= k < z ==> s[k] == 48,
    ensures
        dec_value(s) == dec_value(s.skip(z)),
{
    lemma_dec_value_split(s, z);
    lemma_dec_zeros(s.take(z));
    assert(dec_value(s.take(z)) * pow10((s.len() - z) as nat) == 0) by (nonlinear_arith)
        requires
            dec_value(s.take(z)) == 0,
    ;
}

proof fn lemma_dec_zeros(s: Seq<u8>)
    requires
        forall|k: int| 0 <= k < s.len() ==> s[k] == 48,
    ensures
        dec_value(s) == 0,
    decreases s.len(),
{
    if s.len() > 0 {
        lemma_dec_zeros(s.drop_last());
    }
}

/// Extending a digit string to the right can only grow its value.
pub proof fn lemma_dec_value_prefix_le(s: Seq<u8>, k: int)
    requires
        0 <= k <= s.len(),
        all_digits(s),
    ensures
        dec_value(s.take(k)) <= dec_value(s),
{
    lemma_dec_value_split(s, k);
    assert(all_digits(s.skip(k)));
    assert(all_digits(s.take(k)));
    lemma_dec_value_bounds(s.skip(k));
    lemma_dec_value_bounds(s.take(k));
    lemma_pow_positive(10, (s.len() - k) as nat);
    assert(dec_value(s.take(k)) * pow10((s.len() - k) as nat) >= dec_value(s.take(k)))
        by (nonlinear_arith)
        requires
            dec_value(s.take(k)) >= 0,
            pow10((s.len() - k) as nat) >= 1,
    ;
}

// ---------------------------------------------------------------------
// Comparison helpers

/// `s` begins with `p`.
pub open spec fn starts_with(s: Seq<u8>, p: Seq<u8>) -> bool {
    p.len() <= s.len() && s.take(p.len() as int) == p
}

/// Exact equality of two byte vectors.
pub fn bytes_eq(a: &Vec<u8>, b: &Vec<u8>) -> (r: bool)
    ensures
        r <==> a@ == b@,
{
    let n = a.len();
    if n != b.len() {
        return false;
    }
    let mut i: usize = 0;
    while i < n
        invariant
            0 <= i <= n,
            n == a@.len() == b@.len(),
            forall|k: int| 0 <= k < i ==> a@[k] == #[trigger] b@[k],
        decreases n - i,
    {
        if a[i] != b[i] {
            return false;
        }
        i = i + 1;
    }
    proof {
        assert(a@ =~= b@);
    }
    true
}

/// Whether `a` begins with `p`.
pub fn bytes_start_with(a: &Vec<u8>, p: &Vec<u8>) -> (r: bool)
    ensures
        r <==> starts_with(a@, p@),
{
    let n = p.len();
    if a.len() < n {
        return false;
    }
    let mut i: usize = 0;
    while i < n
        invariant
            0 <= i <= n,
            n == p@.len() <= a@.len(),
            forall|k: int| 0 <= k < i ==> a@[k] == #[trigger] p@[k],
        decreases n - i,
    {
        if a[i] != p[i] {
            proof {
                assert(a@.take(n as int)[i as int] == a@[i as int]);
            }
            return false;
        }
        i = i + 1;
    }
    proof {
        assert(a@.take(n as int) =~= p@);
    }
    true
}

/// Position `i` of `s` starts the bytes of "red".
pub open spec fn red_at(s: Seq<u8>, i: int) -> bool {
    0 <= i && i + 3 <= s.len() && s[i] == 114 && s[i + 1] == 101 && s[i + 2] == 100
}

/// `s` mentions a red channel: the bytes of "red" occur somewhere in it.
pub open spec fn mentions_red(s: Seq<u8>) -> bool {
    exists|i: int| red_at(s, i)
}

/// Whether the line mentions "red" anywhere.
pub fn contains_red(a: &Vec<u8>) -> (r: bool)
    ensures
        r <==> mentions_red(a@),
{
    let n = a.len();
    if n < 3 {
        return false;
    }
    let mut i: usize = 0;
    while i <= n - 3
        invariant
            3 <= n,
            0 <= i <= n - 2,
            n == a@.len(),
            forall|k: int| 0 <= k < i ==> !red_at(a@, k),
        decreases n - i,
    {
        if a[i] == 114 && a[i + 1] == 101 && a[i + 2] == 100 {
            proof {
                assert(red_at(a@, i as int));
            }
            return true;
        }
        i = i + 1;
    }
    proof {
        assert forall|k: int| !red_at(a@, k) by {
            if 0 <= k && k + 3 <= a@.len() {
                assert(k < i);
            }
        }
    }
    false
}

} // verus!
