//! Numeric tokens of the geometry format: unsigned integers (vertex
//! counts, color channels) and decimal coordinates quantized straight to
//! fixed point.

use vstd::prelude::*;

use crate::text::{all_digits, bytes_eq, dec_value, is_digit, is_digit_byte, pow10};

verus! {

use vstd::arithmetic::div_mod::{
    lemma_div_by_multiple,
    lemma_div_is_ordered,
    lemma_fundamental_div_mod_converse_div,
    lemma_basic_div,
};
use vstd::arithmetic::power::{
    lemma_pow1,
    lemma_pow_adds,
    lemma_pow_increases,
    lemma_pow_positive,
    pow,
};

// ---------------------------------------------------------------------
// Unsigned integer tokens

/// The token body of an unsigned number: an optional leading plus sign
/// is dropped.
pub open spec fn uint_body(tok: Seq<u8>) -> Seq<u8> {
    if tok.len() > 0 && tok[0] == 43 {
        tok.skip(1)
    } else {
        tok
    }
}

/// The token is a well-formed unsigned decimal integer: an optional
/// plus sign, then at least one digit.
pub open spec fn uint_token_ok(tok: Seq<u8>) -> bool {
    uint_body(tok).len() > 0 && all_digits(uint_body(tok))
}

/// The value of a well-formed unsigned decimal token.
pub open spec fn uint_token_value(tok: Seq<u8>) -> int {
    dec_value(uint_body(tok))
}

/// Parse an unsigned decimal token no larger than `max`. Returns the
/// value exactly when the token is well formed and its value fits;
/// rejects exactly the malformed and the too-large.
pub fn parse_uint_bounded(tok: &Vec<u8>, max: u64) -> (r: Option<u64>)
    ensures
        match r {
            Some(v) => uint_token_ok(tok@) && v as int == uint_token_value(tok@) && v <= max,
            None => !uint_token_ok(tok@) || uint_token_value(tok@) > max,
        },
{
    let n = tok.len();
    let start: usize = if n > 0 && tok[0] == 43 {
        1
    } else {
        0
    };
    proof {
        assert(uint_body(tok@) =~= tok@.skip(start as int));
    }
    if n == start {
        return None;
    }
    let ghost body = tok@.skip(start as int);
    let mut acc: u64 = 0;
    let mut i: usize = start;
    while i < n
        invariant
            start <= i <= n,
            n == tok@.len(),
            body == tok@.skip(start as int),
            uint_body(tok@) == body,
            all_digits(body.take(i - start)),
            acc as int == dec_value(body.take(i - start)),
            acc <= max,
        decreases n - i,
    {
        let b = tok[i];
        if !is_digit_byte(b) {
            proof {
                assert(body[i - start] == tok@[i as int]);
                assert(!is_digit(body[i - start]));
            }
            return None;
        }
        let d: u64 = (b - 48) as u64;
        proof {
            let pre = body.take(i - start);
            let pre1 = body.take(i + 1 - start);
            assert(pre1.drop_last() =~= pre);
            assert(pre1.last() == body[i - start] == tok@[i as int]);
            assert(dec_value(pre1) == dec_value(pre) * 10 + (b - 48));
        }
        if acc > max / 10 || (acc == max / 10 && d > max % 10) {
            proof {
                let pre1 = body.take(i + 1 - start);
                vstd::arithmetic::div_mod::lemma_fundamental_div_mod(max as int, 10);
                assert(dec_value(pre1) > max);
                if all_digits(body) {
                    crate::text::lemma_dec_value_prefix_le(body, i + 1 - start);
                    assert(uint_token_value(tok@) > max);
                } else {
                    assert(!uint_token_ok(tok@));
                }
            }
            return None;
        }
        proof {
            vstd::arithmetic::div_mod::lemma_fundamental_div_mod(max as int, 10);
            assert(acc * 10 + d <= max);
        }
        acc = acc * 10 + d;
        i = i + 1;
        proof {
            assert(all_digits(body.take(i - start)));
        }
    }
    proof {
        assert(body.take(n - start) =~= body);
    }
    Some(acc)
}

// ---------------------------------------------------------------------
// Coordinate tokens

/// Exponent-magnitude saturation point. Exponents at least this large
/// put the value out of quantization range whatever the mantissa, so
/// the parser need not track them exactly.
pub const EXP_SAT: i128 = 1_000_000_000_000_000_000_000;

/// ASCII lowercasing of one byte.
pub open spec fn lower1(b: u8) -> u8 {
    if 65 <= b <= 90 {
        (b + 32) as u8
    } else {
        b
    }
}

/// ASCII lowercasing of a byte string.
pub open spec fn lower_seq(s: Seq<u8>) -> Seq<u8> {
    Seq::new(s.len(), |i: int| lower1(s[i]))
}

/// The bytes of "inf".
pub open spec fn inf_bytes() -> Seq<u8> {
    seq![105u8, 110u8, 102u8]
}

/// The bytes of "infinity".
pub open spec fn infinity_bytes() -> Seq<u8> {
    seq![105u8, 110u8, 102u8, 105u8, 110u8, 105u8, 116u8, 121u8]
}

/// The bytes of "nan".
pub open spec fn nan_bytes() -> Seq<u8> {
    seq![110u8, 97u8, 110u8]
}

/// The token's sign is minus.
pub open spec fn coord_neg(tok: Seq<u8>) -> bool {
    tok.len() > 0 && tok[0] == 45
}

/// The token without its optional leading sign.
pub open spec fn coord_body(tok: Seq<u8>) -> Seq<u8> {
    if tok.len() > 0 && (tok[0] == 43 || tok[0] == 45) {
        tok.skip(1)
    } else {
        tok
    }
}

/// First position in `s` at or after `i` holding `a` or `c`, or the
/// length of `s` if neither occurs.
pub open spec fn find2(s: Seq<u8>, a: u8, c: u8, i: int) -> int
    decreases s.len() - i,
{
    if !(0 <= i < s.len()) {
        if i < 0 {
            0
        } else {
            s.len() as int
        }
    } else if s[i] == a || s[i] == c {
        i
    } else {
        find2(s, a, c, i + 1)
    }
}

/// The mantissa of an unsigned numeric body: everything before the
/// first exponent marker.
pub open spec fn mant_of(b: Seq<u8>) -> Seq<u8> {
    b.take(find2(b, 101, 69, 0))
}

/// The body carries an exponent marker.
pub open spec fn has_exp(b: Seq<u8>) -> bool {
    find2(b, 101, 69, 0) < b.len()
}

/// What follows the first exponent marker, sign included.
pub open spec fn exp_src(b: Seq<u8>) -> Seq<u8> {
    b.skip(find2(b, 101, 69, 0) + 1)
}

/// The integer-part digits of a mantissa: everything before the first
/// decimal point.
pub open spec fn int_of(m: Seq<u8>) -> Seq<u8> {
    m.take(find2(m, 46, 46, 0))
}

/// The mantissa carries a decimal point.
pub open spec fn has_dot(m: Seq<u8>) -> bool {
    find2(m, 46, 46, 0) < m.len()
}

/// The fraction digits of a mantissa: everything after the first
/// decimal point, or nothing.
pub open spec fn frac_of(m: Seq<u8>) -> Seq<u8> {
    if has_dot(m) {
        m.skip(find2(m, 46, 46, 0) + 1)
    } else {
        Seq::empty()
    }
}

/// The token is one of the special floating-point words, case blind:
/// "inf", "infinity" or "nan", optionally signed.
pub open spec fn coord_is_special(tok: Seq<u8>) -> bool {
    ||| lower_seq(coord_body(tok)) == inf_bytes()
    ||| lower_seq(coord_body(tok)) == infinity_bytes()
    ||| lower_seq(coord_body(tok)) == nan_bytes()
}

/// The token matches the numeric grammar: optional sign; digits with at
/// most one decimal point among them, at least one digit in all; then
/// optionally an exponent marker, an optional sign and at least one
/// exponent digit.
pub open spec fn coord_grammar_ok(tok: Seq<u8>) -> bool {
    let b = coord_body(tok);
    let m = mant_of(b);
    &&& all_digits(int_of(m))
    &&& all_digits(frac_of(m))
    &&& int_of(m).len() + frac_of(m).len() > 0
    &&& (has_exp(b) ==> coord_body(exp_src(b)).len() > 0 && all_digits(coord_body(exp_src(b))))
}

/// The token is an acceptable coordinate.
pub open spec fn coord_token_ok(tok: Seq<u8>) -> bool {
    coord_is_special(tok) || coord_grammar_ok(tok)
}

/// The signed exponent value of a numeric body (zero when there is
/// none).
pub open spec fn exp_value(b: Seq<u8>) -> int {
    if has_exp(b) {
        let e = exp_src(b);
        let v = dec_value(coord_body(e));
        if e.len() > 0 && e[0] == 45 {
            -v
        } else {
            v
        }
    } else {
        0
    }
}

/// Saturation of a mathematical value into the `i32` range.
pub open spec fn clamp_i32(v: int) -> int {
    if v > i32::MAX {
        i32::MAX as int
    } else if v < i32::MIN {
        i32::MIN as int
    } else {
        v
    }
}

/// The quantized milli-unit value of a coordinate token: its decimal
/// value scaled by 1000, truncated toward zero, saturated to the `i32`
/// range. "inf" saturates, "nan" quantizes to zero, both as a
/// float-to-integer conversion would.
pub open spec fn coord_quant(tok: Seq<u8>) -> int {
    let b = coord_body(tok);
    if lower_seq(b) == nan_bytes() {
        0
    } else if lower_seq(b) == inf_bytes() || lower_seq(b) == infinity_bytes() {
        if coord_neg(tok) {
            i32::MIN as int
        } else {
            i32::MAX as int
        }
    } else {
        let m = mant_of(b);
        let dval = dec_value(int_of(m) + frac_of(m));
        let shift = exp_value(b) + 3 - frac_of(m).len();
        let mag = if shift >= 0 {
            dval * pow10(shift as nat)
        } else {
            dval / pow10((-shift) as nat)
        };
        if coord_neg(tok) {
            clamp_i32(-mag)
        } else {
            clamp_i32(mag)
        }
    }
}

/// The values of the small powers of ten the parser reasons with.
pub proof fn lemma_pow10_small()
    ensures
        pow10(0) == 1,
        pow10(1) == 10,
        pow10(2) == 100,
        pow10(3) == 1000,
        pow10(4) == 10000,
        pow10(5) == 100000,
        pow10(6) == 1000000,
        pow10(7) == 10000000,
        pow10(8) == 100000000,
        pow10(9) == 1000000000,
        pow10(10) == 10000000000,
        pow10(11) == 100000000000,
{
    reveal_with_fuel(pow, 13);
}

/// Exec mirror of `lower1`.
fn lower_byte(b: u8) -> (r: u8)
    ensures
        r == lower1(b),
{
    if 65 <= b && b <= 90 {
        b + 32
    } else {
        b
    }
}

/// The decimal value of a short all-digit range of `v`.
fn dec_of_digits(v: &Vec<u8>, from: usize, to: usize) -> (r: u64)
    requires
        from <= to <= v@.len(),
        to - from <= 10,
        all_digits(v@.subrange(from as int, to as int)),
    ensures
        r as int == dec_value(v@.subrange(from as int, to as int)),
{
    let mut acc: u64 = 0;
    let mut i: usize = from;
    while i < to
        invariant
            from <= i <= to <= v@.len(),
            to - from <= 10,
            all_digits(v@.subrange(from as int, to as int)),
            acc as int == dec_value(v@.subrange(from as int, i as int)),
        decreases to - i,
    {
        proof {
            let whole = v@.subrange(from as int, to as int);
            let pre = v@.subrange(from as int, i as int);
            let pre1 = v@.subrange(from as int, i + 1 as int);
            assert(pre =~= whole.take(i - from));
            assert(pre1.drop_last() =~= pre);
            assert(pre1.last() == v@[i as int] == whole[i - from]);
            assert(all_digits(pre));
            crate::text::lemma_dec_value_bounds(pre);
            lemma_pow_increases(10, (i - from) as nat, 9);
            lemma_pow10_small();
            assert(acc < 1000000000);
        }
        let d = (v[i] - 48) as u64;
        acc = acc * 10 + d;
        i = i + 1;
    }
    acc
}

/// The bytes of "inf".
fn inf_vec() -> (v: Vec<u8>)
    ensures
        v@ == inf_bytes(),
{
    let mut v: Vec<u8> = Vec::new();
    v.push(105);
    v.push(110);
    v.push(102);
    proof {
        assert(v@ =~= inf_bytes());
    }
    v
}

/// The bytes of "infinity".
fn infinity_vec() -> (v: Vec<u8>)
    ensures
        v@ == infinity_bytes(),
{
    let mut v: Vec<u8> = Vec::new();
    v.push(105);
    v.push(110);
    v.push(102);
    v.push(105);
    v.push(110);
    v.push(105);
    v.push(116);
    v.push(121);
    proof {
        assert(v@ =~= infinity_bytes());
    }
    v
}

/// The bytes of "nan".
fn nan_vec() -> (v: Vec<u8>)
    ensures
        v@ == nan_bytes(),
{
    let mut v: Vec<u8> = Vec::new();
    v.push(110);
    v.push(97);
    v.push(110);
    proof {
        assert(v@ =~= nan_bytes());
    }
    v
}

/// ASCII-lowercased copy of a byte vector.
fn lower_vec(v: &Vec<u8>) -> (r: Vec<u8>)
    ensures
        r@ == lower_seq(v@),
{
    let n = v.len();
    let mut r: Vec<u8> = Vec::new();
    let mut i: usize = 0;
    while i < n
        invariant
            0 <= i <= n,
            n == v@.len(),
            r@.len() == i,
            forall|k: int| 0 <= k < i ==> r@[k] == lower1(#[trigger] v@[k]),
        decreases n - i,
    {
        r.push(lower_byte(v[i]));
        i = i + 1;
    }
    proof {
        assert(r@ =~= lower_seq(v@));
    }
    r
}

/// A magnitude and a sign, saturated into `i32`.
fn clamp_mag(mag: u64, neg: bool) -> (r: i32)
    ensures
        r as int == clamp_i32(
            if neg {
                -(mag as int)
            } else {
                mag as int
            },
        ),
{
    if neg {
        if mag >= 2_147_483_648 {
            i32::MIN
        } else {
            -(mag as i32)
        }
    } else {
        if mag >= 2_147_483_647 {
            i32::MAX
        } else {
            mag as i32
        }
    }
}

/// A significant-digit count and shift summing to at least 11 puts the
/// magnitude beyond 10^10, outside the i32 range.
proof fn lemma_mag_big(dval: int, nsig: int, xshift: int)
    requires
        nsig >= 1,
        pow10((nsig - 1) as nat) <= dval < pow10(nsig as nat),
        nsig + xshift >= 11,
    ensures
        (if xshift >= 0 {
            dval * pow10(xshift as nat)
        } else {
            dval / pow10((-xshift) as nat)
        }) >= 10000000000,
{
    if xshift >= 0 {
        lemma_pow_adds(10, (nsig - 1) as nat, xshift as nat);
        lemma_pow_positive(10, xshift as nat);
        assert(dval * pow10(xshift as nat) >= pow10((nsig - 1) as nat) * pow10(xshift as nat))
            by (nonlinear_arith)
            requires
                dval >= pow10((nsig - 1) as nat),
                pow10(xshift as nat) > 0,
        ;
        lemma_pow_increases(10, 10, (nsig - 1 + xshift) as nat);
        lemma_pow10_small();
    } else {
        let s = (-xshift) as nat;
        lemma_pow_adds(10, s, (nsig - 1 - s) as nat);
        lemma_pow_positive(10, s);
        lemma_pow_positive(10, (nsig - 1 - s) as nat);
        assert(pow10(s) * pow10((nsig - 1 - s) as nat) == pow10((nsig - 1 - s) as nat) * pow10(s))
            by (nonlinear_arith);
        lemma_div_is_ordered(pow10((nsig - 1 - s) as nat) * pow10(s), dval, pow10(s));
        lemma_div_by_multiple(pow10((nsig - 1 - s) as nat), pow10(s));
        lemma_pow_increases(10, 10, (nsig - 1 - s) as nat);
        lemma_pow10_small();
    }
}

/// A negative shift at least as large as the digit count truncates the
/// whole value away.
proof fn lemma_mag_zero(dval: int, nsig: int, xshift: int)
    requires
        0 <= dval < pow10(nsig as nat),
        nsig >= 0,
        xshift < 0,
        nsig + xshift <= 0,
    ensures
        dval / pow10((-xshift) as nat) == 0,
{
    lemma_pow_increases(10, nsig as nat, (-xshift) as nat);
    lemma_pow_positive(10, (-xshift) as nat);
    lemma_basic_div(dval, pow10((-xshift) as nat));
}

/// Multiplying fewer than `nsig` digits by ten-to-the-`sh` stays within
/// 10^10 when `nsig + sh` is at most ten.
proof fn lemma_mag_fits(dval: int, nsig: int, sh: int, pw: int)
    requires
        0 <= dval < pow10(nsig as nat),
        nsig >= 0,
        0 <= sh,
        nsig + sh <= 10,
        pw == pow10(sh as nat),
    ensures
        0 <= dval * pw <= 10000000000,
{
    lemma_pow_adds(10, nsig as nat, sh as nat);
    lemma_pow_positive(10, sh as nat);
    lemma_pow_increases(10, (nsig + sh) as nat, 10);
    lemma_pow10_small();
    assert(dval * pw < pow10(nsig as nat) * pow10(sh as nat)) by (nonlinear_arith)
        requires
            0 <= dval < pow10(nsig as nat),
            pw == pow10(sh as nat),
            pw > 0,
    ;
    assert(dval * pw >= 0) by (nonlinear_arith)
        requires
            dval >= 0,
            pw > 0,
    ;
}

/// Dropping the last digits of a digit string is exactly the truncating
/// division by the matching power of ten.
proof fn lemma_div_drops_digits(sig: Seq<u8>, keep: int)
    requires
        all_digits(sig),
        0 <= keep <= sig.len(),
    ensures
        dec_value(sig) / pow10((sig.len() - keep) as nat) == dec_value(sig.take(keep)),
{
    let s = (sig.len() - keep) as nat;
    let kept = sig.take(keep);
    let rest = sig.skip(keep);
    crate::text::lemma_dec_value_split(sig, keep);
    assert(all_digits(rest)) by {
        assert(forall|j: int| 0 <= j < rest.len() ==> rest[j] == #[trigger] sig[j + keep]);
    }
    assert(all_digits(kept)) by {
        assert(forall|j: int| 0 <= j < kept.len() ==> kept[j] == #[trigger] sig[j]);
    }
    crate::text::lemma_dec_value_bounds(rest);
    crate::text::lemma_dec_value_bounds(kept);
    lemma_pow_positive(10, s);
    lemma_fundamental_div_mod_converse_div(
        dec_value(sig),
        pow10(s),
        dec_value(kept),
        dec_value(rest),
    );
}

/// Whether every byte of `v` is a decimal digit.
fn check_digits(v: &Vec<u8>) -> (r: bool)
    ensures
        r <==> all_digits(v@),
{
    let n = v.len();
    let mut i: usize = 0;
    while i < n
        invariant
            0 <= i <= n,
            n == v@.len(),
            forall|k: int| 0 <= k < i ==> is_digit(#[trigger] v@[k]),
        decreases n - i,
    {
        if !is_digit_byte(v[i]) {
            return false;
        }
        i = i + 1;
    }
    true
}

/// First position of `a` or `c` in `v`, or its length.
fn find2_exec(v: &Vec<u8>, a: u8, c: u8) -> (r: usize)
    ensures
        r as int == find2(v@, a, c, 0),
        r <= v@.len(),
{
    let n = v.len();
    let mut i: usize = 0;
    while i < n && v[i] != a && v[i] != c
        invariant
            0 <= i <= n,
            n == v@.len(),
            find2(v@, a, c, 0) == find2(v@, a, c, i as int),
        decreases n - i,
    {
        proof {
            assert(find2(v@, a, c, i as int) == find2(v@, a, c, i + 1 as int));
        }
        i = i + 1;
    }
    i
}

/// A copy of `v[from..to]`.
fn copy_range(v: &Vec<u8>, from: usize, to: usize) -> (r: Vec<u8>)
    requires
        from <= to <= v@.len(),
    ensures
        r@ == v@.subrange(from as int, to as int),
{
    let mut r: Vec<u8> = Vec::new();
    let mut i: usize = from;
    while i < to
        invariant
            from <= i <= to <= v@.len(),
            r@ == v@.subrange(from as int, i as int),
        decreases to - i,
    {
        r.push(v[i]);
        proof {
            assert(r@ =~= v@.subrange(from as int, i + 1 as int));
        }
        i = i + 1;
    }
    r
}

/// Parse an exponent field (what follows the marker, sign included)
/// into its sign and its magnitude saturated at `EXP_SAT`.
fn parse_exp_sat(ev: &Vec<u8>) -> (r: Option<(bool, i128)>)
    ensures
        r is Some <==> coord_body(ev@).len() > 0 && all_digits(coord_body(ev@)),
        r matches Some((en, es)) ==> {
            &&& en == (ev@.len() > 0 && ev@[0] == 45)
            &&& 0 <= es <= EXP_SAT
            &&& dec_value(coord_body(ev@)) >= EXP_SAT ==> es == EXP_SAT
            &&& dec_value(coord_body(ev@)) < EXP_SAT ==> es == dec_value(coord_body(ev@))
        },
{
    let n = ev.len();
    let en = n > 0 && ev[0] == 45;
    let start: usize = if n > 0 && (ev[0] == 43 || ev[0] == 45) {
        1
    } else {
        0
    };
    proof {
        assert(coord_body(ev@) =~= ev@.subrange(start as int, n as int));
    }
    if n == start {
        return None;
    }
    let ghost ed = coord_body(ev@);
    let mut es: i128 = 0;
    let mut q = start;
    while q < n
        invariant
            start <= q <= n,
            n == ev@.len(),
            ed == ev@.subrange(start as int, n as int),
            ed =~= coord_body(ev@),
            all_digits(ev@.subrange(start as int, q as int)),
            dec_value(ev@.subrange(start as int, q as int)) >= EXP_SAT ==> es == EXP_SAT,
            dec_value(ev@.subrange(start as int, q as int)) < EXP_SAT ==> es as int == dec_value(
                ev@.subrange(start as int, q as int),
            ),
            0 <= es <= EXP_SAT,
        decreases n - q,
    {
        let c = ev[q];
        if !is_digit_byte(c) {
            proof {
                assert(ed[q - start] == ev@[q as int]);
            }
            return None;
        }
        proof {
            let pre = ev@.subrange(start as int, q as int);
            let pre1 = ev@.subrange(start as int, q + 1 as int);
            assert(pre1.drop_last() =~= pre);
            assert(pre1.last() == ev@[q as int]);
            assert(dec_value(pre1) == dec_value(pre) * 10 + (c - 48));
            assert(all_digits(pre1));
        }
        let d = (c - 48) as i128;
        let cand: i128 = es * 10 + d;
        es = if cand > EXP_SAT {
            EXP_SAT
        } else {
            cand
        };
        q = q + 1;
    }
    proof {
        assert(ev@.subrange(start as int, n as int) =~= ed);
    }
    Some((en, es))
}

/// Append the whole of `src` to `dst`.
fn append_all(dst: &mut Vec<u8>, src: &Vec<u8>)
    ensures
        final(dst)@ == old(dst)@ + src@,
{
    let n = src.len();
    let mut i: usize = 0;
    while i < n
        invariant
            0 <= i <= n,
            n == src@.len(),
            dst@ == old(dst)@ + src@.subrange(0, i as int),
        decreases n - i,
    {
        dst.push(src[i]);
        proof {
            assert(dst@ =~= old(dst)@ + src@.subrange(0, i + 1 as int));
        }
        i = i + 1;
    }
    proof {
        assert(src@.subrange(0, n as int) =~= src@);
        assert(dst@ =~= old(dst)@ + src@);
    }
}

/// The number of leading zero digits of `v`.
fn leading_zeros(v: &Vec<u8>) -> (z: usize)
    ensures
        0 <= z <= v@.len(),
        forall|j: int| 0 <= j < z ==> v@[j] == 48,
        z < v@.len() ==> v@[z as int] != 48,
{
    let n = v.len();
    let mut z: usize = 0;
    while z < n && v[z] == 48
        invariant
            0 <= z <= n,
            n == v@.len(),
            forall|j: int| 0 <= j < z ==> v@[j] == 48,
        decreases n - z,
    {
        z = z + 1;
    }
    z
}

/// Ten to a small power, as a machine word.
fn pow10_u64(sh: usize) -> (r: u64)
    requires
        sh <= 9,
    ensures
        r as int == pow10(sh as nat),
        1 <= r <= 1000000000,
{
    proof {
        lemma_pow10_small();
    }
    let mut pw: u64 = 1;
    let mut si: usize = 0;
    while si < sh
        invariant
            0 <= si <= sh <= 9,
            pw as int == pow10(si as nat),
            pw <= 1000000000,
        decreases sh - si,
    {
        proof {
            lemma_pow10_small();
            lemma_pow_increases(10, (si + 1) as nat, 9);
            lemma_pow_increases(10, si as nat, 8);
            assert(pow10((si + 1) as nat) == pow10(si as nat) * 10) by {
                lemma_pow_adds(10, si as nat, 1);
                lemma_pow1(10);
            }
        }
        pw = pw * 10;
        si = si + 1;
    }
    pw
}

/// Parse one coordinate token straight into its quantized milli-unit
/// value: the decimal (optionally exponent-scaled) number times 1000,
/// truncated toward zero and saturated to the `i32` range. Returns a
/// value exactly for the well-formed tokens.
#[verifier::rlimit(100)]
pub fn parse_coord_milli(tok: &Vec<u8>) -> (r: Option<i32>)
    ensures
        r is Some <==> coord_token_ok(tok@),
        r matches Some(q) ==> q as int == coord_quant(tok@),
{
    let n = tok.len();
    let neg = n > 0 && tok[0] == 45;
    let has_sign = n > 0 && (tok[0] == 43 || tok[0] == 45);
    let start: usize = if has_sign {
        1
    } else {
        0
    };
    let bv = copy_range(tok, start, n);
    let ghost b = coord_body(tok@);
    proof {
        assert(bv@ =~= b);
        assert(coord_neg(tok@) == neg);
    }
    let bn = bv.len();

    // The special words inf, infinity and nan.
    let low = lower_vec(&bv);
    let word_inf = bytes_eq(&low, &inf_vec());
    let word_infinity = bytes_eq(&low, &infinity_vec());
    let word_nan = bytes_eq(&low, &nan_vec());
    if word_nan {
        return Some(0);
    }
    if word_inf || word_infinity {
        proof {
            assert(lower_seq(b) != nan_bytes());
        }
        if neg {
            return Some(i32::MIN);
        } else {
            return Some(i32::MAX);
        }
    }
    proof {
        assert(!coord_is_special(tok@));
    }

    // Mantissa and exponent.
    let ei = find2_exec(&bv, 101, 69);
    proof {
        assert(mant_of(b) == b.take(ei as int));
        assert(has_exp(b) == (ei < bn));
    }
    let ghost m = mant_of(b);
    let mv = copy_range(&bv, 0, ei);
    proof {
        assert(mv@ =~= m);
    }

    let mut exp_is_neg = false;
    let mut esat: i128 = 0;
    if ei < bn {
        let ev = copy_range(&bv, ei + 1, bn);
        proof {
            assert(ev@ =~= exp_src(b));
        }
        match parse_exp_sat(&ev) {
            Some((en, es)) => {
                exp_is_neg = en;
                esat = es;
            },
            None => {
                proof {
                    assert(!coord_grammar_ok(tok@));
                }
                return None;
            },
        }
    }
    let ghost espec = exp_value(b);
    proof {
        if has_exp(b) {
            assert(espec == if exp_is_neg {
                -dec_value(coord_body(exp_src(b)))
            } else {
                dec_value(coord_body(exp_src(b)))
            });
        } else {
            assert(espec == 0 && esat == 0 && !exp_is_neg);
        }
    }

    // Integer and fraction digits.
    let di = find2_exec(&mv, 46, 46);
    let ghost ip = int_of(m);
    proof {
        assert(ip == m.take(di as int));
        assert(has_dot(m) == (di < mv@.len()));
    }
    let mut dvec = copy_range(&mv, 0, di);
    let flen: usize = if di < mv.len() {
        mv.len() - di - 1
    } else {
        0
    };
    if di < mv.len() {
        let fv = copy_range(&mv, di + 1, mv.len());
        proof {
            assert(fv@ =~= frac_of(m));
        }
        append_all(&mut dvec, &fv);
    } else {
        proof {
            assert(frac_of(m) =~= Seq::<u8>::empty());
        }
    }
    let ghost digits = ip + frac_of(m);
    proof {
        assert(dvec@ == digits);
        assert(flen == frac_of(m).len());
    }
    if !check_digits(&dvec) {
        proof {
            if all_digits(ip) && all_digits(frac_of(m)) {
                lemma_all_digits_concat(ip, frac_of(m));
                assert(false);
            }
            assert(!coord_grammar_ok(tok@));
        }
        return None;
    }
    let dn = dvec.len();
    if dn == 0 {
        proof {
            assert(!coord_grammar_ok(tok@));
        }
        return None;
    }
    proof {
        lemma_all_digits_parts(ip, frac_of(m));
        assert(coord_grammar_ok(tok@));
    }

    // Strip leading zeros; what remains decides the magnitude.
    let z = leading_zeros(&dvec);
    let ghost sig = dvec@.skip(z as int);
    proof {
        crate::text::lemma_dec_value_strip_zeros(dvec@, z as int);
        assert(all_digits(sig)) by {
            assert(forall|j: int| 0 <= j < sig.len() ==> sig[j] == #[trigger] dvec@[j + z]);
        }
    }
    let nsig = dn - z;
    let ghost dval = dec_value(digits);
    let ghost xshift = espec + 3 - flen;

    if nsig == 0 {
        proof {
            assert(sig =~= Seq::<u8>::empty());
            assert(dval == 0);
            if xshift >= 0 {
                assert(dval * pow10(xshift as nat) == 0) by (nonlinear_arith)
                    requires
                        dval == 0,
                ;
            } else {
                lemma_pow_positive(10, (-xshift) as nat);
                lemma_basic_div(0, pow10((-xshift) as nat));
            }
            assert(coord_quant(tok@) == clamp_i32(0));
        }
        return Some(0);
    }
    proof {
        assert(sig.len() > 0 && sig[0] != 48);
        crate::text::lemma_dec_value_leading(sig);
        crate::text::lemma_dec_value_bounds(sig);
        assert(pow10((nsig - 1) as nat) <= dval < pow10(nsig as nat));
    }

    let e_signed: i128 = if exp_is_neg {
        -esat
    } else {
        esat
    };
    let shift: i128 = e_signed + 3 - (flen as i128);

    // Where the exponent was saturated, the exact shift lies on the
    // same side of every bound the decision below uses.
    proof {
        if has_exp(b) {
            if dec_value(coord_body(exp_src(b))) >= EXP_SAT {
                if exp_is_neg {
                    assert(xshift <= shift as int);
                } else {
                    assert(xshift >= shift as int);
                }
            } else {
                assert(xshift == shift as int);
            }
        } else {
            assert(xshift == shift as int);
        }
    }

    if (nsig as i128) + shift >= 11 {
        // The magnitude is at least 10^10, far beyond the i32 range.
        proof {
            assert(usize::MAX <= u64::MAX);
            if (shift as int) > xshift {
                // Saturated negative exponent: this branch is unreachable.
                assert(esat == EXP_SAT && exp_is_neg);
                assert((nsig as i128) + shift < 11);
                assert(false);
            }
            assert(nsig + xshift >= 11);
            lemma_mag_big(dval, nsig as int, xshift);
        }
        if neg {
            return Some(i32::MIN);
        } else {
            return Some(i32::MAX);
        }
    }

    if shift >= 0 {
        // Small value, non-negative shift: multiply out exactly.
        proof {
            assert(usize::MAX <= u64::MAX);
            if has_exp(b) && dec_value(coord_body(exp_src(b))) >= EXP_SAT {
                if !exp_is_neg {
                    assert((nsig as i128) + shift >= 11);
                    assert(false);
                } else {
                    assert(shift < 0);
                    assert(false);
                }
            }
            assert(xshift == shift as int);
            assert(nsig <= 10 && shift <= 9);
        }
        let dv = dec_of_digits(&dvec, z, dn);
        proof {
            assert(dvec@.subrange(z as int, dn as int) =~= sig);
        }
        let sh = shift as usize;
        let pw = pow10_u64(sh);
        proof {
            lemma_mag_fits(dval, nsig as int, sh as int, pw as int);
        }
        let mag: u64 = dv * pw;
        return Some(clamp_mag(mag, neg));
    }

    // Negative shift: drop the last digits, which is exactly the
    // truncating division by the corresponding power of ten.
    let keep_i: i128 = (nsig as i128) + shift;
    proof {
        assert(usize::MAX <= u64::MAX);
        if has_exp(b) && dec_value(coord_body(exp_src(b))) >= EXP_SAT && !exp_is_neg {
            assert(shift >= 0);
            assert(false);
        }
    }
    if keep_i <= 0 {
        proof {
            assert(xshift <= shift as int);
            assert(xshift < 0);
            lemma_mag_zero(dval, nsig as int, xshift);
            assert(coord_quant(tok@) == clamp_i32(0));
        }
        return Some(0);
    }
    proof {
        assert(xshift == shift as int);
    }
    let keep = keep_i as usize;
    let dv = dec_of_digits(&dvec, z, z + keep);
    proof {
        lemma_div_drops_digits(sig, keep as int);
        crate::text::lemma_dec_value_bounds(sig.take(keep as int));
        assert(dval / pow10((-shift) as nat) == dec_value(sig.take(keep as int)));
        assert(dvec@.subrange(z as int, (z + keep) as int) =~= sig.take(keep as int));
    }
    Some(clamp_mag(dv, neg))
}

/// Digitness of two strings carries to their concatenation.
proof fn lemma_all_digits_concat(a: Seq<u8>, b: Seq<u8>)
    requires
        all_digits(a),
        all_digits(b),
    ensures
        all_digits(a + b),
{
    assert forall|j: int| 0 <= j < (a + b).len() implies is_digit(#[trigger] (a + b)[j]) by {
        if j < a.len() {
            assert((a + b)[j] == a[j]);
        } else {
            assert((a + b)[j] == b[j - a.len()]);
        }
    }
}

/// Digitness of a concatenation carries to both parts.
proof fn lemma_all_digits_parts(a: Seq<u8>, b: Seq<u8>)
    requires
        all_digits(a + b),
    ensures
        all_digits(a),
        all_digits(b),
{
    assert forall|j: int| 0 <= j < a.len() implies is_digit(#[trigger] a[j]) by {
        assert(a[j] == (a + b)[j]);
    }
    assert forall|j: int| 0 <= j < b.len() implies is_digit(#[trigger] b[j]) by {
        assert(b[j] == (a + b)[j + a.len()]);
    }
}

} // verus!
