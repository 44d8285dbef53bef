use vstd::prelude::*;

use crate::text::{
    digit_to_char, lemma_dec_str_val, push_char, spec_all_digits, spec_dec_str, spec_digit_char,
    spec_digit_val, spec_digits_val, spec_is_digit, u64_to_string,
};

verus! {

use vstd::arithmetic::div_mod::{
    lemma_div_denominator, lemma_fundamental_div_mod, lemma_fundamental_div_mod_converse,
};
use vstd::arithmetic::mul::{lemma_mul_inequality, lemma_mul_is_distributive_add_other_way};

/// Ten to the `k`th power.
pub open spec fn spec_pow10(k: nat) -> nat
    decreases k,
{
    if k == 0 {
        1
    } else {
        10 * spec_pow10((k - 1) as nat)
    }
}

/// Truncation toward zero, stated as floor division: for a well-formed
/// amount with integer digits `I` and fractional digits `F` (`k` of
/// them), the string denotes the rational `(I * 10^k + F) / 10^k` SOL,
/// and the parsed lamports are exactly the floor of that rational times
/// ten to the ninth.
pub proof fn lemma_lamports_is_floor(s: Seq<char>)
    requires
        spec_amount_wf(s),
    ensures
        spec_lamports_nat(s) == (spec_digits_val(spec_int_part(s)) * spec_pow10(
            spec_frac_part(s).len(),
        ) + spec_digits_val(spec_frac_part(s))) * spec_pow10(9) / spec_pow10(
            spec_frac_part(s).len(),
        ),
{
    let ipv = spec_digits_val(spec_int_part(s)) as int;
    let fp = spec_frac_part(s);
    let k = fp.len() as nat;
    let pk = spec_pow10(k) as int;
    let p9 = spec_pow10(9) as int;
    lemma_pow10_pos(k);
    lemma_pow10_pos(9);
    if k <= 9 {
        let pd = spec_pow10((9 - k) as nat) as int;
        lemma_pow10_mul((9 - k) as nat, k);
        assert(pd * pk == p9);
        assert(fp.take(k as int) =~= fp);
        let fv = spec_digits_val(fp) as int;
        let lhs = ipv * p9 + fv * pd;
        assert(spec_lamports_nat(s) == lhs);
        assert((ipv * pk + fv) * p9 == lhs * pk) by (nonlinear_arith)
            requires
                pd * pk == p9,
                lhs == ipv * p9 + fv * pd,
        ;
        lemma_fundamental_div_mod_converse((ipv * pk + fv) * p9, pk, lhs, 0);
    } else {
        let f9 = spec_digits_val(fp.take(9)) as int;
        let rv = spec_digits_val(fp.skip(9)) as int;
        let pr = spec_pow10((k - 9) as nat) as int;
        lemma_pow10_pos((k - 9) as nat);
        lemma_digits_split(fp, 9);
        assert(spec_digits_val(fp) == f9 * pr + rv);
        assert(spec_all_digits(fp.skip(9))) by {
            assert(forall|i: int|
                0 <= i < fp.skip(9).len() ==> #[trigger] fp.skip(9)[i] == fp[i + 9]);
        }
        lemma_digits_val_bound(fp.skip(9));
        assert(rv < pr);
        lemma_pow10_mul((k - 9) as nat, 9);
        assert(pr * p9 == pk);
        let fv = spec_digits_val(fp) as int;
        let lhs = ipv * p9 + f9;
        assert(spec_lamports_nat(s) == lhs) by {
            assert(spec_pow10((9 - spec_frac_kept(s)) as nat) == 1);
        }
        assert((ipv * pk + fv) * p9 == lhs * pk + rv * p9) by (nonlinear_arith)
            requires
                pr * p9 == pk,
                fv == f9 * pr + rv,
                lhs == ipv * p9 + f9,
        ;
        assert(0 <= rv * p9 < pk) by (nonlinear_arith)
            requires
                0 <= rv < pr,
                pr * p9 == pk,
                p9 > 0,
        ;
        lemma_fundamental_div_mod_converse((ipv * pk + fv) * p9, pk, lhs, rv * p9);
    }
}

/// pow10 is positive.
pub proof fn lemma_pow10_pos(a: nat)
    ensures
        spec_pow10(a) >= 1,
    decreases a,
{
    if a > 0 {
        lemma_pow10_pos((a - 1) as nat);
    }
}

/// Nine unfoldings of pow10.
pub proof fn lemma_pow10_9()
    ensures
        spec_pow10(9) == 1_000_000_000,
{
    assert(spec_pow10(0) == 1);
    assert(spec_pow10(1) == 10);
    assert(spec_pow10(2) == 100);
    assert(spec_pow10(3) == 1000);
    assert(spec_pow10(4) == 10000);
    assert(spec_pow10(5) == 100000);
    assert(spec_pow10(6) == 1000000);
    assert(spec_pow10(7) == 10000000);
    assert(spec_pow10(8) == 100000000);
    assert(spec_pow10(9) == 1000000000);
}

/// Ten to the `k`th power, for small `k`.
pub fn pow10_u64(k: usize) -> (r: u64)
    requires
        k <= 9,
    ensures
        r == spec_pow10(k as nat),
{
    let mut r: u64 = 1;
    let mut i: usize = 0;
    while i < k
        invariant
            i <= k <= 9,
            r == spec_pow10(i as nat),
        decreases k - i,
    {
        proof {
            lemma_pow10_le((i + 1) as nat, 9);
            lemma_pow10_9();
        }
        r = r * 10;
        i = i + 1;
    }
    r
}

/// The index of the first decimal point at or after `i`, or the length
/// when there is none.
pub open spec fn spec_find_dot(s: Seq<char>, i: int) -> int
    decreases s.len() - i,
{
    if i < 0 || i >= s.len() {
        s.len() as int
    } else if s[i] == '.' {
        i
    } else {
        spec_find_dot(s, i + 1)
    }
}

/// The digits before the decimal point of an amount string.
pub open spec fn spec_int_part(s: Seq<char>) -> Seq<char> {
    s.take(spec_find_dot(s, 0))
}

/// The digits after the decimal point of an amount string; empty when
/// there is no point.
pub open spec fn spec_frac_part(s: Seq<char>) -> Seq<char> {
    if spec_find_dot(s, 0) == s.len() {
        Seq::empty()
    } else {
        s.skip(spec_find_dot(s, 0) + 1)
    }
}

/// A well-formed amount: digits, at most one decimal point, and at
/// least one digit overall.
pub open spec fn spec_amount_wf(s: Seq<char>) -> bool {
    &&& spec_all_digits(spec_int_part(s))
    &&& spec_all_digits(spec_frac_part(s))
    &&& spec_int_part(s).len() + spec_frac_part(s).len() >= 1
}

/// How many of the fractional digits count: everything beyond the ninth
/// is truncated away.
pub open spec fn spec_frac_kept(s: Seq<char>) -> nat {
    if spec_frac_part(s).len() >= 9 {
        9
    } else {
        spec_frac_part(s).len()
    }
}

/// The exact number of lamports an amount string denotes: the integer
/// part scaled by ten to the ninth, plus the first nine fractional
/// digits scaled to lamports.  Truncation toward zero: fractional
/// digits past the ninth never round up.
pub open spec fn spec_lamports_nat(s: Seq<char>) -> nat {
    spec_digits_val(spec_int_part(s)) * spec_pow10(9) + spec_digits_val(
        spec_frac_part(s).take(spec_frac_kept(s) as int),
    ) * spec_pow10((9 - spec_frac_kept(s)) as nat)
}

/// What parsing an amount string yields: the denoted lamports when the
/// string is well formed and the value fits a `u64`, nothing otherwise.
pub open spec fn spec_parse_amount(s: Seq<char>) -> Option<u64> {
    if spec_amount_wf(s) && spec_lamports_nat(s) <= u64::MAX {
        Some(spec_lamports_nat(s) as u64)
    } else {
        None
    }
}

/// The value of a digit string splits around any cut: the prefix scaled
/// by a power of ten plus the suffix.
pub proof fn lemma_digits_split(s: Seq<char>, j: int)
    requires
        0 <= j <= s.len(),
    ensures
        spec_digits_val(s) == spec_digits_val(s.take(j)) * spec_pow10((s.len() - j) as nat)
            + spec_digits_val(s.skip(j)),
    decreases s.len() - j,
{
    if j == s.len() {
        assert(s.take(j) =~= s);
        assert(s.skip(j) =~= Seq::<char>::empty());
        assert(spec_digits_val(s.skip(j)) == 0);
        assert(spec_pow10((s.len() - j) as nat) == 1);
        assert(spec_digits_val(s.take(j)) * 1 == spec_digits_val(s));
    } else {
        let d = s.drop_last();
        lemma_digits_split(d, j);
        assert(d.take(j) =~= s.take(j));
        assert(s.skip(j).drop_last() =~= d.skip(j));
        assert(s.skip(j).last() == s.last());
        assert(spec_digits_val(s.skip(j)) == spec_digits_val(d.skip(j)) * 10 + spec_digit_val(
            s.last(),
        ));
        let p = spec_pow10((d.len() - j) as nat);
        assert(spec_pow10((s.len() - j) as nat) == 10 * p);
        assert(spec_digits_val(s) == spec_digits_val(d) * 10 + spec_digit_val(s.last()));
        assert(spec_digits_val(d) * 10 == (spec_digits_val(d.take(j)) * p + spec_digits_val(
            d.skip(j),
        )) * 10);
        assert((spec_digits_val(d.take(j)) * p + spec_digits_val(d.skip(j))) * 10
            == spec_digits_val(d.take(j)) * p * 10 + spec_digits_val(d.skip(j)) * 10) by {
            lemma_mul_is_distributive_add_other_way(
                10,
                spec_digits_val(d.take(j)) * p as int,
                spec_digits_val(d.skip(j)) as int,
            );
        }
        assert(spec_digits_val(s.take(j)) * (10 * p) == spec_digits_val(s.take(j)) * p * 10) by {
            vstd::arithmetic::mul::lemma_mul_is_associative(
                spec_digits_val(s.take(j)) as int,
                10,
                p as int,
            );
            vstd::arithmetic::mul::lemma_mul_is_commutative(10, p as int);
            vstd::arithmetic::mul::lemma_mul_is_associative(
                spec_digits_val(s.take(j)) as int,
                p as int,
                10,
            );
        }
        assert(spec_digits_val(s) == spec_digits_val(s.take(j)) * p * 10 + (spec_digits_val(
            d.skip(j),
        ) * 10 + spec_digit_val(s.last())));
        assert(spec_digits_val(s) == spec_digits_val(s.take(j)) * spec_pow10(
            (s.len() - j) as nat,
        ) + spec_digits_val(s.skip(j)));
    }
}

/// A string of `k` digits denotes less than ten to the `k`.
pub proof fn lemma_digits_val_bound(s: Seq<char>)
    requires
        spec_all_digits(s),
    ensures
        spec_digits_val(s) < spec_pow10(s.len()),
    decreases s.len(),
{
    if s.len() == 0 {
    } else {
        lemma_digits_val_bound(s.drop_last());
        assert(spec_is_digit(s.last()));
        assert(spec_digit_val(s.last()) <= 9);
        assert(spec_digits_val(s.drop_last()) * 10 <= (spec_pow10((s.len() - 1) as nat) - 1) * 10)
            by {
            lemma_mul_inequality(
                spec_digits_val(s.drop_last()) as int,
                spec_pow10((s.len() - 1) as nat) - 1,
                10,
            );
        }
    }
}

/// Where the scan for the decimal point lands: if nothing before `d` is
/// a point and `d` is one (or the end), the first point is at `d`.
proof fn lemma_find_dot_at(s: Seq<char>, i: int, d: int)
    requires
        0 <= i <= d <= s.len(),
        forall|k: int| i <= k < d ==> s[k] != '.',
        d == s.len() || s[d] == '.',
    ensures
        spec_find_dot(s, i) == d,
    decreases d - i,
{
    if i == d {
    } else {
        lemma_find_dot_at(s, i + 1, d);
    }
}

/// Parses a whole-SOL amount written in decimal, such as `1.5`, into
/// lamports, truncating toward zero past the ninth fractional digit.
pub fn parse_sol_amount(s: &str) -> (r: Option<u64>)
    ensures
        r == spec_parse_amount(s@),
{
    let n = s.unicode_len();
    // find the first decimal point
    let mut d: usize = 0;
    while d < n && s.get_char(d) != '.'
        invariant
            n == s@.len(),
            d <= n,
            forall|k: int| 0 <= k < d ==> s@[k] != '.',
        decreases n - d,
    {
        d = d + 1;
    }
    proof {
        lemma_find_dot_at(s@, 0, d as int);
        assert(spec_int_part(s@) =~= s@.take(d as int));
    }
    let ghost ip = spec_int_part(s@);
    let ghost fp = spec_frac_part(s@);
    // every other character must be a digit
    let mut i: usize = 0;
    while i < n
        invariant
            n == s@.len(),
            d <= n,
            spec_find_dot(s@, 0) == d,
            ip == spec_int_part(s@),
            fp == spec_frac_part(s@),
            i <= n,
            forall|k: int| 0 <= k < i && k != d ==> spec_is_digit(#[trigger] s@[k]),
        decreases n - i,
    {
        let c = s.get_char(i);
        if i != d && !(c >= '0' && c <= '9') {
            proof {
                if i < d {
                    assert(ip[i as int] == s@[i as int]);
                    assert(!spec_all_digits(ip));
                } else {
                    assert(fp[i - d - 1] == s@[i as int]);
                    assert(!spec_all_digits(fp));
                }
            }
            return None;
        }
        i = i + 1;
    }
    proof {
        assert(forall|k: int| 0 <= k < ip.len() ==> ip[k] == s@[k]);
        assert(spec_all_digits(ip));
        assert(forall|k: int| 0 <= k < fp.len() ==> fp[k] == s@[d + 1 + k]);
        assert(spec_all_digits(fp));
    }
    if n == 0 || (n == 1 && d == 0) {
        proof {
            assert(ip.len() + fp.len() == 0);
        }
        return None;
    }
    proof {
        assert(ip.len() + fp.len() >= 1);
        assert(spec_amount_wf(s@));
    }
    // integer part, with exact overflow detection
    let mut int_val: u64 = 0;
    let mut j: usize = 0;
    while j < d
        invariant
            n == s@.len(),
            d <= n,
            spec_find_dot(s@, 0) == d,
            ip == spec_int_part(s@),
            fp == spec_frac_part(s@),
            spec_amount_wf(s@),
            j <= d,
            int_val == spec_digits_val(ip.take(j as int)),
        decreases d - j,
    {
        let c = s.get_char(j);
        proof {
            assert(ip[j as int] == s@[j as int]);
            assert(spec_is_digit(c));
        }
        let dig: u64 = (c as u64) - ('0' as u64);
        proof {
            assert(dig == spec_digit_val(ip[j as int]));
            assert(ip.take(j + 1).drop_last() =~= ip.take(j as int));
            assert(ip.take(j + 1).last() == ip[j as int]);
        }
        if int_val > (u64::MAX - dig) / 10 {
            proof {
                lemma_overflow_guard(int_val as nat, dig as nat);
                assert(spec_digits_val(ip.take(j + 1)) > u64::MAX);
                lemma_prefix_dominates(ip, j + 1);
                assert(spec_digits_val(ip) > u64::MAX);
                lemma_value_dominates_int(s@);
                lemma_pow10_9();
                lemma_mul_inequality(1, spec_pow10(9) as int, spec_digits_val(ip) as int);
                vstd::arithmetic::mul::lemma_mul_is_commutative(
                    spec_digits_val(ip) as int,
                    spec_pow10(9) as int,
                );
                assert(spec_lamports_nat(s@) > u64::MAX);
                assert(spec_parse_amount(s@) is None);
            }
            return None;
        }
        proof {
            lemma_no_overflow_guard(int_val as nat, dig as nat);
        }
        int_val = int_val * 10 + dig;
        j = j + 1;
    }
    proof {
        assert(ip.take(d as int) =~= ip);
    }
    proof {
        lemma_pow10_9();
    }
    if int_val > u64::MAX / crate::LAMPORTS_PER_SOL {
        proof {
            lemma_div_bound_mul(int_val as nat, spec_pow10(9), u64::MAX as nat);
            lemma_value_dominates_int(s@);
            assert(spec_lamports_nat(s@) > u64::MAX);
            assert(spec_parse_amount(s@) is None);
        }
        return None;
    }
    proof {
        lemma_div_mul_le(u64::MAX as nat, spec_pow10(9), int_val as nat);
    }
    let base: u64 = int_val * crate::LAMPORTS_PER_SOL;
    // fractional part: at most nine digits count
    let frac_len: usize = if d < n {
        n - d - 1
    } else {
        0
    };
    let kept: usize = if frac_len >= 9 {
        9
    } else {
        frac_len
    };
    proof {
        assert(fp.len() == frac_len);
        assert(kept == spec_frac_kept(s@));
    }
    let mut f_val: u64 = 0;
    let mut k: usize = 0;
    while k < kept
        invariant
            n == s@.len(),
            d < n || kept == 0,
            spec_find_dot(s@, 0) == d,
            fp == spec_frac_part(s@),
            spec_all_digits(fp),
            kept <= 9,
            kept <= fp.len(),
            k <= kept,
            f_val == spec_digits_val(fp.take(k as int)),
            f_val < spec_pow10(k as nat),
        decreases kept - k,
    {
        let c = s.get_char(d + 1 + k);
        proof {
            assert(fp[k as int] == s@[d + 1 + k]);
            assert(spec_is_digit(c));
        }
        let dig: u64 = (c as u64) - ('0' as u64);
        proof {
            assert(dig == spec_digit_val(fp[k as int]));
            assert(fp.take(k + 1).drop_last() =~= fp.take(k as int));
            assert(fp.take(k + 1).last() == fp[k as int]);
            lemma_pow10_9();
            lemma_pow10_le((k + 1) as nat, 9);
        }
        f_val = f_val * 10 + dig;
        k = k + 1;
    }
    let scale: u64 = pow10_u64(9 - kept);
    proof {
        assert(spec_pow10(9) == 1_000_000_000);
        lemma_pow10_le((kept) as nat, 9);
        lemma_pow10_le((9 - kept) as nat, 9);
        lemma_mul_inequality(f_val as int, spec_pow10(kept as nat) - 1, scale as int);
        lemma_pow10_mul(kept as nat, (9 - kept) as nat);
        assert((spec_pow10(kept as nat) - 1) * scale == spec_pow10(kept as nat) * scale - scale)
            by {
            lemma_mul_is_distributive_add_other_way(
                scale as int,
                spec_pow10(kept as nat) - 1,
                1,
            );
        }
        assert(f_val * scale <= spec_pow10(9) - scale);
    }
    let f9: u64 = f_val * scale;
    if f9 > u64::MAX - base {
        proof {
            assert(spec_lamports_nat(s@) > u64::MAX);
        }
        return None;
    }
    proof {
        assert(base + f9 == spec_lamports_nat(s@));
    }
    Some(base + f9)
}

/// pow10 is monotone in the exponent.
pub proof fn lemma_pow10_le(a: nat, b: nat)
    requires
        a <= b,
    ensures
        spec_pow10(a) <= spec_pow10(b),
        spec_pow10(a) >= 1,
    decreases b,
{
    lemma_pow10_pos(a);
    if a < b {
        lemma_pow10_le(a, (b - 1) as nat);
        lemma_pow10_pos((b - 1) as nat);
    }
}

/// pow10 turns addition of exponents into multiplication.
pub proof fn lemma_pow10_mul(a: nat, b: nat)
    ensures
        spec_pow10(a) * spec_pow10(b) == spec_pow10(a + b),
    decreases a,
{
    if a == 0 {
        assert(spec_pow10(0) == 1);
        assert(1 * spec_pow10(b) == spec_pow10(b));
    } else {
        lemma_pow10_mul((a - 1) as nat, b);
        assert(spec_pow10(a) * spec_pow10(b) == (10 * spec_pow10((a - 1) as nat)) * spec_pow10(b));
        vstd::arithmetic::mul::lemma_mul_is_associative(
            10,
            spec_pow10((a - 1) as nat) as int,
            spec_pow10(b) as int,
        );
        assert(spec_pow10(a) * spec_pow10(b) == 10 * (spec_pow10((a - 1) as nat) * spec_pow10(b)));
        assert(spec_pow10(a) * spec_pow10(b) == 10 * spec_pow10((a - 1 + b) as nat));
        assert(spec_pow10(a + b) == 10 * spec_pow10((a + b - 1) as nat));
    }
}

/// The nine fractional digits of a lamport remainder, most significant
/// first, zero-padded on the left.
pub open spec fn spec_frac9(f: nat) -> Seq<char> {
    Seq::new(9, |i: int| spec_digit_char(((f / spec_pow10((8 - i) as nat)) % 10) as nat))
}

/// Drops trailing zero characters.
pub open spec fn spec_trim_zeros(s: Seq<char>) -> Seq<char>
    decreases s.len(),
{
    if s.len() > 0 && s.last() == '0' {
        spec_trim_zeros(s.drop_last())
    } else {
        s
    }
}

/// How a lamport balance is shown in whole SOL: the whole part in
/// decimal, then, when there is a remainder, a point and the nine
/// fractional digits with trailing zeros dropped.
pub open spec fn spec_sol_display(l: u64) -> Seq<char> {
    let whole = (l as nat) / spec_pow10(9);
    let frac = (l as nat) % spec_pow10(9);
    if frac == 0 {
        spec_dec_str(whole)
    } else {
        spec_dec_str(whole) + seq!['.'] + spec_trim_zeros(spec_frac9(frac))
    }
}

/// Renders a lamport balance in whole SOL, the exact characters of
/// `spec_sol_display`.
pub fn format_lamports_as_sol(l: u64) -> (r: String)
    ensures
        r@ == spec_sol_display(l),
{
    proof {
        lemma_pow10_9();
    }
    let whole: u64 = l / crate::LAMPORTS_PER_SOL;
    let frac: u64 = l % crate::LAMPORTS_PER_SOL;
    let mut r = u64_to_string(whole);
    if frac == 0 {
        return r;
    }
    push_char(&mut r, '.');
    let mut v: Vec<char> = Vec::new();
    let mut i: usize = 0;
    while i < 9
        invariant
            frac < 1_000_000_000,
            i <= 9,
            v@.len() == i,
            forall|j: int| 0 <= j < i ==> v@[j] == spec_frac9(frac as nat)[j],
        decreases 9 - i,
    {
        let p = pow10_u64(8 - i);
        proof {
            lemma_pow10_pos((8 - i) as nat);
        }
        let d: u64 = (frac / p) % 10;
        let c = digit_to_char(d);
        v.push(c);
        i = i + 1;
    }
    proof {
        assert(v@ =~= spec_frac9(frac as nat));
    }
    while v.len() > 0 && v[v.len() - 1] == '0'
        invariant
            spec_trim_zeros(v@) == spec_trim_zeros(spec_frac9(frac as nat)),
        decreases v@.len(),
    {
        let ghost before = v@;
        v.pop();
        proof {
            assert(v@ =~= before.drop_last());
        }
    }
    proof {
        assert(spec_trim_zeros(v@) == v@);
    }
    let ghost mid = r@;
    let mut k: usize = 0;
    while k < v.len()
        invariant
            k <= v@.len(),
            r@ =~= mid + v@.take(k as int),
        decreases v@.len() - k,
    {
        push_char(&mut r, v[k]);
        k = k + 1;
    }
    proof {
        assert(r@ =~= mid + v@);
        assert(r@ =~= spec_sol_display(l));
    }
    r
}

/// The digit decomposition of a number below ten to the `len` reads
/// back as the number: its `len` decimal digits, most significant
/// first, denote it.
proof fn lemma_digit_decomp(f: nat, len: nat)
    requires
        f < spec_pow10(len),
    ensures
        spec_digits_val(
            Seq::new(
                len,
                |i: int| spec_digit_char(((f / spec_pow10((len - 1 - i) as nat)) % 10) as nat),
            ),
        ) == f,
    decreases len,
{
    let c = Seq::new(
        len,
        |i: int| spec_digit_char(((f / spec_pow10((len - 1 - i) as nat)) % 10) as nat),
    );
    if len == 0 {
        assert(c =~= Seq::<char>::empty());
    } else {
        let f1 = f / 10;
        let c1 = Seq::new(
            (len - 1) as nat,
            |i: int| spec_digit_char(((f1 / spec_pow10((len - 2 - i) as nat)) % 10) as nat),
        );
        assert(f1 < spec_pow10((len - 1) as nat)) by {
            let p = spec_pow10((len - 1) as nat) as int;
            lemma_pow10_pos((len - 1) as nat);
            lemma_fundamental_div_mod(f as int, 10);
            if f1 >= p {
                lemma_mul_inequality(p, f1 as int, 10);
            }
        }
        lemma_digit_decomp(f1, (len - 1) as nat);
        assert(c.drop_last() =~= c1) by {
            assert forall|i: int| 0 <= i < len - 1 implies c[i] == c1[i] by {
                let p = spec_pow10((len - 2 - i) as nat) as int;
                lemma_pow10_pos((len - 2 - i) as nat);
                lemma_div_denominator(f as int, 10, p);
                assert(spec_pow10((len - 1 - i) as nat) == 10 * spec_pow10((len - 2 - i) as nat));
            }
        }
        assert(spec_pow10((len - 1 - (len - 1)) as nat) == 1);
        assert(c.last() == spec_digit_char((f % 10) as nat));
        assert(spec_digit_val(spec_digit_char((f % 10) as nat)) == f % 10);
        assert(spec_digits_val(c) == spec_digits_val(c.drop_last()) * 10 + spec_digit_val(
            c.last(),
        ));
        lemma_fundamental_div_mod(f as int, 10);
    }
}

/// Trimming trailing zeros only rescales: the trimmed digits, scaled
/// back up by the dropped power of ten, denote the original value, and
/// stay digits.
proof fn lemma_trim_val(s: Seq<char>)
    requires
        spec_all_digits(s),
    ensures
        spec_trim_zeros(s).len() <= s.len(),
        spec_all_digits(spec_trim_zeros(s)),
        spec_digits_val(spec_trim_zeros(s)) * spec_pow10(
            (s.len() - spec_trim_zeros(s).len()) as nat,
        ) == spec_digits_val(s),
    decreases s.len(),
{
    let t = spec_trim_zeros(s);
    if s.len() > 0 && s.last() == '0' {
        let d = s.drop_last();
        assert(spec_all_digits(d)) by {
            assert(forall|i: int| 0 <= i < d.len() ==> #[trigger] d[i] == s[i]);
        }
        lemma_trim_val(d);
        assert(t == spec_trim_zeros(d));
        assert(spec_digit_val(s.last()) == 0);
        assert(spec_digits_val(s) == spec_digits_val(d) * 10);
        let z = (d.len() - t.len()) as nat;
        assert(spec_pow10(z + 1) == 10 * spec_pow10(z));
        assert(spec_digits_val(t) * spec_pow10(z + 1) == spec_digits_val(t) * spec_pow10(z) * 10)
            by (nonlinear_arith)
            requires
                spec_pow10(z + 1) == 10 * spec_pow10(z),
        ;
    } else {
        assert(spec_pow10((s.len() - t.len()) as nat) == 1);
    }
}

/// A rendered balance reads back as itself: parsing the display of any
/// lamport amount yields exactly that amount, so the display loses
/// nothing.
pub proof fn lemma_sol_display_round_trip(l: u64)
    ensures
        spec_parse_amount(spec_sol_display(l)) == Some(l),
{
    lemma_pow10_9();
    let p9 = spec_pow10(9);
    let w = (l as nat) / p9;
    let f = (l as nat) % p9;
    lemma_fundamental_div_mod(l as int, p9 as int);
    lemma_dec_str_val(w);
    let ds = spec_dec_str(w);
    assert(forall|i: int| 0 <= i < ds.len() ==> #[trigger] ds[i] != '.') by {
        assert(forall|i: int| 0 <= i < ds.len() ==> spec_is_digit(#[trigger] ds[i]));
    }
    let s = spec_sol_display(l);
    if f == 0 {
        assert(s == ds);
        lemma_find_dot_at(s, 0, s.len() as int);
        assert(spec_int_part(s) =~= s);
        assert(spec_frac_part(s) =~= Seq::<char>::empty());
        assert(spec_frac_part(s).take(spec_frac_kept(s) as int) =~= Seq::<char>::empty());
        assert(spec_amount_wf(s));
        assert(spec_digits_val(Seq::<char>::empty()) == 0);
        assert(spec_digits_val(spec_int_part(s)) == w);
        assert(spec_lamports_nat(s) == spec_digits_val(spec_int_part(s)) * spec_pow10(9)
            + spec_digits_val(spec_frac_part(s).take(spec_frac_kept(s) as int)) * spec_pow10(
            (9 - spec_frac_kept(s)) as nat,
        ));
        assert(spec_digits_val(spec_frac_part(s).take(spec_frac_kept(s) as int)) == 0);
        assert(spec_lamports_nat(s) == w * p9);
        assert(spec_lamports_nat(s) == l);
    } else {
        let nine = spec_frac9(f);
        assert(spec_all_digits(nine)) by {
            assert(forall|i: int|
                0 <= i < 9 ==> spec_is_digit(#[trigger] nine[i]) && nine[i] != '.');
        }
        let t = spec_trim_zeros(nine);
        lemma_trim_val(nine);
        assert(s =~= ds + seq!['.'] + t);
        assert(forall|i: int| 0 <= i < ds.len() ==> #[trigger] s[i] == ds[i]);
        assert(s[ds.len() as int] == '.');
        assert(forall|i: int|
            ds.len() + 1 <= i < s.len() ==> #[trigger] s[i] == t[i - ds.len() - 1]);
        lemma_find_dot_at(s, 0, ds.len() as int);
        assert(spec_int_part(s) =~= ds);
        assert(spec_frac_part(s) =~= t);
        assert(spec_all_digits(spec_frac_part(s))) by {
            assert(forall|i: int|
                0 <= i < t.len() ==> spec_is_digit(#[trigger] t[i]) ==> spec_is_digit(t[i]));
        }
        assert(spec_amount_wf(s));
        assert(spec_frac_kept(s) == t.len());
        assert(spec_frac_part(s).take(spec_frac_kept(s) as int) =~= t);
        assert(f < spec_pow10(9));
        lemma_digit_decomp(f, 9);
        assert(nine =~= Seq::new(
            9,
            |i: int| spec_digit_char(((f / spec_pow10((9 - 1 - i) as nat)) % 10) as nat),
        ));
        assert(spec_digits_val(nine) == f);
        assert(spec_digits_val(t) * spec_pow10((9 - t.len()) as nat) == f);
        assert(spec_lamports_nat(s) == w * p9 + f);
        assert(spec_lamports_nat(s) == l);
    }
}

/// When the running value exceeds the guard, the next accumulation step
/// exceeds `u64::MAX`.
proof fn lemma_overflow_guard(v: nat, dig: nat)
    requires
        dig <= 9,
        v > (u64::MAX - dig) / 10,
    ensures
        v * 10 + dig > u64::MAX,
{
    let m = (u64::MAX - dig) as int;
    lemma_fundamental_div_mod(m, 10);
    assert(v >= m / 10 + 1);
    lemma_mul_inequality(m / 10 + 1, v as int, 10);
    assert((m / 10 + 1) * 10 == (m / 10) * 10 + 10) by {
        lemma_mul_is_distributive_add_other_way(10, m / 10, 1);
    }
    assert((m / 10) * 10 + 10 > m);
}

/// When the running value stays at or below the guard, the next
/// accumulation step fits.
proof fn lemma_no_overflow_guard(v: nat, dig: nat)
    requires
        dig <= 9,
        v <= (u64::MAX - dig) / 10,
    ensures
        v * 10 + dig <= u64::MAX,
{
    let m = (u64::MAX - dig) as int;
    lemma_fundamental_div_mod(m, 10);
    lemma_mul_inequality(v as int, m / 10, 10);
    assert((m / 10) * 10 <= m);
}

/// A digit-string prefix never denotes more than the whole string.
proof fn lemma_prefix_dominates(s: Seq<char>, j: int)
    requires
        0 <= j <= s.len(),
    ensures
        spec_digits_val(s) >= spec_digits_val(s.take(j)),
{
    lemma_digits_split(s, j);
    lemma_pow10_le(0, (s.len() - j) as nat);
    lemma_mul_inequality(1, spec_pow10((s.len() - j) as nat) as int, spec_digits_val(s.take(j)) as int);
    vstd::arithmetic::mul::lemma_mul_is_commutative(
        spec_digits_val(s.take(j)) as int,
        spec_pow10((s.len() - j) as nat) as int,
    );
}

/// The denoted lamports are at least the integer part in lamports.
proof fn lemma_value_dominates_int(s: Seq<char>)
    ensures
        spec_lamports_nat(s) >= spec_digits_val(spec_int_part(s)) * spec_pow10(9),
{
}

/// If `v > m / p` then `v * p > m`.
proof fn lemma_div_bound_mul(v: nat, p: nat, m: nat)
    requires
        p > 0,
        v > m / p,
    ensures
        v * p > m,
{
    lemma_fundamental_div_mod(m as int, p as int);
    lemma_mul_inequality(m as int / p as int + 1, v as int, p as int);
    assert((m as int / p as int + 1) * p == (m as int / p as int) * p + p) by {
        lemma_mul_is_distributive_add_other_way(p as int, m as int / p as int, 1);
    }
}

/// If `v <= m / p` then `v * p <= m`.
proof fn lemma_div_mul_le(m: nat, p: nat, v: nat)
    requires
        p > 0,
        v <= m / p,
    ensures
        v * p <= m,
{
    lemma_fundamental_div_mod(m as int, p as int);
    lemma_mul_inequality(v as int, m as int / p as int, p as int);
}

} // verus!
