//! Numbers as text, for identifiers and messages.

use vstd::prelude::*;
use vstd::string::StringExecFns;

verus! {

/// The character of the digit `d`, below sixteen.
pub open spec fn digit(d: int) -> char {
    seq!['0', '1', '2', '3', '4', '5', '6', '7', '8', '9', 'a', 'b', 'c', 'd', 'e', 'f'][d]
}

/// `n` written in the given base, without leading zeros.
pub open spec fn numeral(n: nat, base: nat) -> Seq<char>
    decreases n,
    via numeral_shrinks
{
    if base < 2 || n < base {
        seq![digit(n as int)]
    } else {
        numeral(n / base, base) + seq![digit((n % base) as int)]
    }
}

#[via_fn]
proof fn numeral_shrinks(n: nat, base: nat) {
    if !(base < 2 || n < base) {
        assert(n / base < n) by (nonlinear_arith)
            requires
                base >= 2,
                n >= base,
        ;
    }
}

/// `n` in decimal.
pub open spec fn dec(n: nat) -> Seq<char> {
    numeral(n, 10)
}

/// `n` in hexadecimal, behind "0x".
pub open spec fn hex(n: nat) -> Seq<char> {
    "0x"@ + numeral(n, 16)
}

/// The lowest `digits` hexadecimal digits of `n`, with leading zeros.
pub open spec fn hex_digits(n: nat, digits: nat) -> Seq<char>
    decreases digits,
{
    if digits == 0 {
        seq![]
    } else {
        hex_digits(n / 16, (digits - 1) as nat) + seq![digit((n % 16) as int)]
    }
}

/// A 64-bit `n` in hexadecimal, behind "0x", with all its sixteen digits.
pub open spec fn hex64(n: nat) -> Seq<char> {
    "0x"@ + hex_digits(n, 16)
}

/// Different digits have different characters.
proof fn digit_injective(a: int, b: int)
    requires
        0 <= a < 16,
        0 <= b < 16,
        digit(a) == digit(b),
    ensures
        a == b,
{
}

/// What a digit's character counts.
pub open spec fn digit_value(c: char) -> int {
    if '0' <= c && c <= '9' {
        c as u32 as int - 48
    } else {
        c as u32 as int - 87
    }
}

/// What digits say in a base, the last one counting ones.
pub open spec fn value(s: Seq<char>, base: int) -> int
    decreases s.len(),
{
    if s.len() == 0 {
        0
    } else {
        value(s.drop_last(), base) * base + digit_value(s.last())
    }
}

/// A numeral says its number, in digits below the base, and does not start with a zero unless it
/// is one.
pub proof fn numeral_says_number(n: nat, base: nat)
    requires
        2 <= base <= 16,
    ensures
        value(numeral(n, base), base as int) == n,
        numeral(n, base).len() >= 1,
        forall|i: int|
            0 <= i < numeral(n, base).len() ==> 0 <= digit_value(#[trigger] numeral(n, base)[i])
                < base,
        numeral(n, base).len() > 1 ==> digit_value(numeral(n, base)[0]) > 0,
    decreases n,
{
    let s = numeral(n, base);
    if n < base {
        assert(s.drop_last() =~= seq![]);
        assert(value(s.drop_last(), base as int) == 0);
    } else {
        assert(n / base < n && n / base > 0) by (nonlinear_arith)
            requires
                base >= 2,
                n >= base,
        ;
        assert(0 <= n % base < base) by (nonlinear_arith)
            requires
                base >= 2,
        ;
        numeral_says_number(n / base, base);
        let t = numeral(n / base, base);
        assert(s.drop_last() =~= t);
        assert(n == (n / base) * base + n % base) by (nonlinear_arith)
            requires
                base >= 2,
        ;
        if t.len() == 1 {
            assert(value(t.drop_last(), base as int) == 0) by {
                assert(t.drop_last() =~= seq![]);
            }
            assert(digit_value(t[0]) == value(t, base as int));
        }
    }
}

/// A 64-bit number in all its digits: "0x", then sixteen digits that say the number.
pub proof fn hex64_says_number(n: u64)
    ensures
        hex64(n as nat).len() == 18,
        hex64(n as nat).take(2) == "0x"@,
        value(hex64(n as nat).skip(2), 16) == n,
{
    reveal_strlit("0x");
    hex_digits_value(n as nat, 16);
    let s = hex_digits(n as nat, 16);
    assert(hex64(n as nat).take(2) =~= "0x"@);
    assert(hex64(n as nat).skip(2) =~= s);
    assert(power16(16) == 0x1_0000_0000_0000_0000) by {
        reveal_with_fuel(power16, 17);
    }
    assert((n as int) % 0x1_0000_0000_0000_0000 == n as int);
}

/// 16 to the power `k`.
spec fn power16(k: nat) -> int
    decreases k,
{
    if k == 0 {
        1
    } else {
        16 * power16((k - 1) as nat)
    }
}

/// So many digits say the number modulo the power of the base.
proof fn hex_digits_value(n: nat, k: nat)
    ensures
        hex_digits(n, k).len() == k,
        value(hex_digits(n, k), 16) == (n as int) % power16(k),
        power16(k) > 0,
    decreases k,
{
    if k == 0 {
        assert((n as int) % 1 == 0);
    } else {
        let j = (k - 1) as nat;
        hex_digits_value(n / 16, j);
        let s = hex_digits(n, k);
        assert(s.drop_last() =~= hex_digits(n / 16, j));
        let p = power16(j);
        let q: int = n as int / 16;
        let d: int = n as int % 16;
        assert(n == q * 16 + d);
        assert((q * 16 + d) % (16 * p) == (q % p) * 16 + d) by (nonlinear_arith)
            requires
                p > 0,
                0 <= d < 16,
                0 <= q,
        {
            let a = q / p;
            let r = q % p;
            assert(q == a * p + r && 0 <= r < p);
            assert(q * 16 + d == a * (16 * p) + (r * 16 + d));
            assert(0 <= r * 16 + d < 16 * p);
            vstd::arithmetic::div_mod::lemma_fundamental_div_mod_converse(
                q * 16 + d,
                16 * p,
                a,
                r * 16 + d,
            );
        }
    }
}

/// Different numbers are written differently.
pub proof fn numeral_injective(a: nat, b: nat, base: nat)
    requires
        2 <= base <= 16,
        numeral(a, base) == numeral(b, base),
    ensures
        a == b,
    decreases a,
{
    assert(numeral(a, base).last() == digit((a % base) as int)) by {
        if a < base {
            assert(a % base == a) by (nonlinear_arith)
                requires
                    a < base,
            ;
        }
    }
    assert(numeral(b, base).last() == digit((b % base) as int)) by {
        if b < base {
            assert(b % base == b) by (nonlinear_arith)
                requires
                    b < base,
            ;
        }
    }
    assert(0 <= a % base < base) by (nonlinear_arith)
        requires
            base >= 2,
    ;
    assert(0 <= b % base < base) by (nonlinear_arith)
        requires
            base >= 2,
    ;
    digit_injective((a % base) as int, (b % base) as int);
    numeral_len(a / base, base);
    numeral_len(b / base, base);
    if a >= base && b >= base {
        assert(numeral(a, base).drop_last() =~= numeral(a / base, base));
        assert(numeral(b, base).drop_last() =~= numeral(b / base, base));
        assert(a / base < a) by (nonlinear_arith)
            requires
                base >= 2,
                a >= base,
        ;
        numeral_injective(a / base, b / base, base);
        assert(a == base * (a / base) + a % base) by (nonlinear_arith)
            requires
                base >= 2,
        ;
        assert(b == base * (b / base) + b % base) by (nonlinear_arith)
            requires
                base >= 2,
        ;
    } else if a < base && b < base {
        assert(a % base == a && b % base == b) by (nonlinear_arith)
            requires
                a < base,
                b < base,
        ;
    } else {
        assert(numeral(a, base).len() == numeral(b, base).len());
    }
}

/// A numeral has at least one digit.
proof fn numeral_len(n: nat, base: nat)
    ensures
        numeral(n, base).len() >= 1,
{
}

/// The digit `d` as text.
fn digit_text(d: u64) -> (r: &'static str)
    requires
        d < 16,
    ensures
        r@ == seq![digit(d as int)],
{
    proof {
        reveal_strlit("0");
        reveal_strlit("1");
        reveal_strlit("2");
        reveal_strlit("3");
        reveal_strlit("4");
        reveal_strlit("5");
        reveal_strlit("6");
        reveal_strlit("7");
        reveal_strlit("8");
        reveal_strlit("9");
        reveal_strlit("a");
        reveal_strlit("b");
        reveal_strlit("c");
        reveal_strlit("d");
        reveal_strlit("e");
        reveal_strlit("f");
    }
    let r = match d {
        0 => "0",
        1 => "1",
        2 => "2",
        3 => "3",
        4 => "4",
        5 => "5",
        6 => "6",
        7 => "7",
        8 => "8",
        9 => "9",
        10 => "a",
        11 => "b",
        12 => "c",
        13 => "d",
        14 => "e",
        _ => "f",
    };
    assert(r@ =~= seq![digit(d as int)]);
    r
}

/// Writes `n` in the given base.
fn numeral_text(n: u64, base: u64) -> (r: String)
    requires
        2 <= base <= 16,
    ensures
        r@ == numeral(n as nat, base as nat),
    decreases n,
{
    if n < base {
        return String::from_str(digit_text(n));
    }
    assert((n as int) / (base as int) < (n as int)) by (nonlinear_arith)
        requires
            base >= 2,
            n >= base,
    ;
    assert(0 <= (n as int) % (base as int) < (base as int)) by (nonlinear_arith)
        requires
            base >= 2,
    ;
    let mut s = numeral_text(n / base, base);
    s.append(digit_text(n % base));
    s
}

/// Writes `n` in decimal.
pub fn dec_text(n: u64) -> (r: String)
    ensures
        r@ == dec(n as nat),
{
    numeral_text(n, 10)
}

/// Writes `n` in hexadecimal, behind "0x".
pub fn hex_text(n: u64) -> (r: String)
    ensures
        r@ == hex(n as nat),
{
    let s = numeral_text(n, 16);
    String::from_str("0x").concat(s.as_str())
}

/// Writes the lowest `digits` hexadecimal digits of `n`, with leading zeros.
fn hex_digits_text(n: u64, digits: u32) -> (r: String)
    ensures
        r@ == hex_digits(n as nat, digits as nat),
    decreases digits,
{
    if digits == 0 {
        return String::new();
    }
    let mut s = hex_digits_text(n / 16, digits - 1);
    s.append(digit_text(n % 16));
    s
}

/// Writes `n` in hexadecimal, behind "0x", with all its sixteen digits.
pub fn hex64_text(n: u64) -> (r: String)
    ensures
        r@ == hex64(n as nat),
{
    let s = hex_digits_text(n, 16);
    String::from_str("0x").concat(s.as_str())
}

/// Three pieces of text, one behind the other.
pub fn join3(a: &str, b: &str, c: &str) -> (r: String)
    ensures
        r@ == a@ + b@ + c@,
{
    String::from_str(a).concat(b).concat(c)
}

/// A text of its own.
pub fn plain(a: &str) -> (r: String)
    ensures
        r@ == a@,
{
    String::from_str(a)
}

/// Two pieces of text, one behind the other.
pub fn join2(a: &str, b: &str) -> (r: String)
    ensures
        r@ == a@ + b@,
{
    String::from_str(a).concat(b)
}

/// A number in text says the number: in decimal digits, or behind "0x" in hexadecimal ones, as
/// many as it takes or all sixteen; and texts are put together in order.
pub proof fn texts_say_numbers(n: u64, d: String, h: String, l: String)
    requires
        call_ensures(dec_text, (n,), d),
        call_ensures(hex_text, (n,), h),
        call_ensures(hex64_text, (n,), l),
    ensures
        value(d@, 10) == n,
        d@.len() > 1 ==> digit_value(d@[0]) > 0,
        h@.len() > 2 && h@.take(2) == "0x"@ && value(h@.skip(2), 16) == n,
        h@.len() > 3 ==> digit_value(h@[2]) > 0,
        l@.len() == 18 && l@.take(2) == "0x"@ && value(l@.skip(2), 16) == n,
{
    reveal_strlit("0x");
    numeral_says_number(n as nat, 10);
    numeral_says_number(n as nat, 16);
    hex64_says_number(n);
    assert(h@.take(2) =~= "0x"@);
    assert(h@.skip(2) =~= numeral(n as nat, 16));
    assert(h@.skip(2)[0] == h@[2]);
}

} // verus!
