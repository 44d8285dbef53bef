use vstd::prelude::*;

verus! {

/// Relies on `String::push` of std: appends exactly the one character.
#[verifier::external_body]
pub fn push_char(s: &mut String, c: char)
    ensures
        final(s)@ == old(s)@.push(c),
{
    s.push(c);
}

pub open spec fn spec_is_digit(c: char) -> bool {
    '0' <= c && c <= '9'
}

pub open spec fn spec_digit_val(c: char) -> nat {
    (c as nat - '0' as nat) as nat
}

pub open spec fn spec_digit_char(d: nat) -> char {
    if d == 0 {
        '0'
    } else if d == 1 {
        '1'
    } else if d == 2 {
        '2'
    } else if d == 3 {
        '3'
    } else if d == 4 {
        '4'
    } else if d == 5 {
        '5'
    } else if d == 6 {
        '6'
    } else if d == 7 {
        '7'
    } else if d == 8 {
        '8'
    } else {
        '9'
    }
}

/// The character for one decimal digit.
pub fn digit_to_char(d: u64) -> (c: char)
    requires
        d <= 9,
    ensures
        c == spec_digit_char(d as nat),
        spec_is_digit(c),
        spec_digit_val(c) == d,
{
    match d {
        0 => '0',
        1 => '1',
        2 => '2',
        3 => '3',
        4 => '4',
        5 => '5',
        6 => '6',
        7 => '7',
        8 => '8',
        _ => '9',
    }
}

/// The decimal value of a sequence of digit characters, most significant
/// first; the empty sequence has value zero.
pub open spec fn spec_digits_val(s: Seq<char>) -> nat
    decreases s.len(),
{
    if s.len() == 0 {
        0
    } else {
        spec_digits_val(s.drop_last()) * 10 + spec_digit_val(s.last())
    }
}

pub open spec fn spec_all_digits(s: Seq<char>) -> bool {
    forall|i: int| 0 <= i < s.len() ==> spec_is_digit(#[trigger] s[i])
}

/// The decimal rendering of a natural number: no sign, no leading zero
/// except for zero itself.
pub open spec fn spec_dec_str(n: nat) -> Seq<char>
    decreases n,
{
    if n < 10 {
        seq![spec_digit_char(n)]
    } else {
        spec_dec_str(n / 10).push(spec_digit_char(n % 10))
    }
}

/// Renders a number in decimal, the exact digits of `spec_dec_str`.
pub fn u64_to_string(n: u64) -> (r: String)
    ensures
        r@ == spec_dec_str(n as nat),
{
    let mut digits: Vec<char> = Vec::new();
    let mut m: u64 = n;
    loop
        invariant_except_break
            spec_dec_str(n as nat) =~= spec_dec_str(m as nat) + digits@.reverse(),
        ensures
            spec_dec_str(n as nat) =~= digits@.reverse(),
        decreases m,
    {
        let d: u64 = m % 10;
        let c: char = digit_to_char(d);
        let ghost prev = m;
        let ghost prev_digits = digits@;
        digits.push(c);
        m = m / 10;
        proof {
            assert(digits@.reverse() =~= seq![c] + prev_digits.reverse());
            if prev >= 10 {
                assert(spec_dec_str(prev as nat) =~= spec_dec_str(
                    (prev / 10) as nat,
                ).push(spec_digit_char((prev % 10) as nat)));
                assert(spec_dec_str(m as nat) + digits@.reverse() =~= spec_dec_str(
                    prev as nat,
                ) + prev_digits.reverse());
            } else {
                assert(spec_dec_str(prev as nat) =~= seq![spec_digit_char(prev as nat)]);
                assert(spec_dec_str(prev as nat) + prev_digits.reverse() =~= digits@.reverse());
            }
        }
        if m == 0 {
            break;
        }
    }
    proof {
        assert(spec_dec_str(n as nat) =~= digits@.reverse());
    }
    let mut r = String::new();
    let mut j: usize = 0;
    while j < digits.len()
        invariant
            j <= digits@.len(),
            r@ =~= digits@.reverse().take(j as int),
        decreases digits@.len() - j,
    {
        let c = digits[digits.len() - 1 - j];
        push_char(&mut r, c);
        j = j + 1;
        proof {
            assert(r@ =~= digits@.reverse().take(j as int));
        }
    }
    proof {
        assert(r@ =~= digits@.reverse());
    }
    r
}

/// Reading back the decimal rendering of a number gives the number again.
pub proof fn lemma_dec_str_val(n: nat)
    ensures
        spec_digits_val(spec_dec_str(n)) == n,
        spec_all_digits(spec_dec_str(n)),
        spec_dec_str(n).len() >= 1,
    decreases n,
{
    if n < 10 {
        let s = seq![spec_digit_char(n)];
        assert(spec_dec_str(n) =~= s);
        assert(s.drop_last() =~= Seq::<char>::empty());
        assert(spec_digits_val(s.drop_last()) == 0);
        assert(s.last() == spec_digit_char(n));
        assert(spec_digit_val(spec_digit_char(n)) == n);
        assert(spec_digits_val(s) == n);
    } else {
        lemma_dec_str_val(n / 10);
        let s = spec_dec_str(n);
        assert(s =~= spec_dec_str(n / 10).push(spec_digit_char(n % 10)));
        assert(s.drop_last() =~= spec_dec_str(n / 10));
        assert(spec_digit_val(s.last()) == n % 10);
    }
}

/// Compares two strings character by character.
pub fn str_eq(a: &str, b: &str) -> (r: bool)
    ensures
        r == (a@ == b@),
{
    let na = a.unicode_len();
    let nb = b.unicode_len();
    if na != nb {
        proof {
            assert(a@.len() != b@.len());
        }
        return false;
    }
    let mut i: usize = 0;
    while i < na
        invariant
            na == a@.len(),
            na == b@.len(),
            i <= na,
            forall|k: int| 0 <= k < i ==> a@[k] == b@[k],
        decreases na - i,
    {
        if a.get_char(i) != b.get_char(i) {
            proof {
                assert(a@[i as int] != b@[i as int]);
            }
            return false;
        }
        i = i + 1;
    }
    proof {
        assert(a@ =~= b@);
    }
    true
}

} // verus!
