//! Byte-level encodings used to build the digest input and the answer code:
//! the IEEE-754 double encoding of an integer, big-endian bytes of a word,
//! and lower-case hexadecimal.
use vstd::prelude::*;
use vstd::arithmetic::div_mod::lemma_fundamental_div_mod_converse;

verus! {

/// 2 to the power `e`.
pub open spec fn two_to(e: nat) -> nat
    decreases e,
{
    if e == 0 {
        1
    } else {
        2 * two_to((e - 1) as nat)
    }
}

/// The position of the highest set bit of a positive number.
pub open spec fn log2_floor(a: nat) -> nat
    decreases a,
{
    if a < 2 {
        0
    } else {
        1 + log2_floor(a / 2)
    }
}

pub open spec fn abs(n: int) -> nat {
    if n < 0 {
        (-n) as nat
    } else {
        n as nat
    }
}

/// The bit pattern of the IEEE-754 binary64 value equal to the integer `n`,
/// for integers that a double holds exactly: sign bit, biased exponent, and
/// the fraction bits below the leading one.
pub open spec fn double_bits(n: int) -> nat {
    if n == 0 {
        0
    } else {
        let a = abs(n);
        let e = log2_floor(a);
        let sign: nat = if n < 0 {
            two_to(63)
        } else {
            0
        };
        sign + (1023 + e) * two_to(52) + ((a - two_to(e)) * two_to((52 - e) as nat)) as nat
    }
}

/// The `n` low-order bytes of `x`, most significant first.
pub open spec fn be_bytes(x: nat, n: nat) -> Seq<u8>
    decreases n,
{
    if n == 0 {
        Seq::empty()
    } else {
        be_bytes(x / 256, (n - 1) as nat).push((x % 256) as u8)
    }
}

/// The lower-case hexadecimal digit for a value below 16.
pub open spec fn hex_digit(d: nat) -> char {
    if d == 0 {
        '0'
    } else if d == 1 {
        '1'
    } else if d == 2 {
        '2'
    } else if d == 3 {
        '3'
    } else if d == 4 {
        '4'
    } else if d == 5 {
        '5'
    } else if d == 6 {
        '6'
    } else if d == 7 {
        '7'
    } else if d == 8 {
        '8'
    } else if d == 9 {
        '9'
    } else if d == 10 {
        'a'
    } else if d == 11 {
        'b'
    } else if d == 12 {
        'c'
    } else if d == 13 {
        'd'
    } else if d == 14 {
        'e'
    } else {
        'f'
    }
}

/// The value of the `i`-th hexadecimal digit of a byte string, high nibble first.
pub open spec fn nibble(b: Seq<u8>, i: int) -> nat {
    if i % 2 == 0 {
        (b[i / 2] / 16) as nat
    } else {
        (b[i / 2] % 16) as nat
    }
}

/// The first `n` characters of the lower-case hexadecimal text of `b`
/// (meaningful for `n <= 2 * b.len()`).
pub open spec fn hex_prefix(b: Seq<u8>, n: nat) -> Seq<char> {
    Seq::new(n, |i: int| hex_digit(nibble(b, i)))
}

pub proof fn lemma_two_to_add(a: nat, b: nat)
    ensures
        two_to(a + b) == two_to(a) * two_to(b),
    decreases a,
{
    if a > 0 {
        let a1 = (a - 1) as nat;
        lemma_two_to_add(a1, b);
        assert(a1 + b + 1 == a + b);
        assert(two_to(a) == 2 * two_to(a1));
        assert(two_to(a + b) == 2 * two_to(a1 + b));
        let x = two_to(a1);
        let y = two_to(b);
        assert(2 * (x * y) == (2 * x) * y) by (nonlinear_arith);
    } else {
        assert(two_to(a) == 1);
        assert(a + b == b);
    }
}

pub proof fn lemma_two_to_mono(a: nat, b: nat)
    requires
        a <= b,
    ensures
        two_to(a) <= two_to(b),
    decreases b,
{
    if a < b {
        lemma_two_to_mono(a, (b - 1) as nat);
    }
}

pub proof fn lemma_two_to_values()
    ensures
        two_to(52) == 0x10_0000_0000_0000,
        two_to(53) == 0x20_0000_0000_0000,
        two_to(63) == 0x8000_0000_0000_0000,
        two_to(64) == 0x1_0000_0000_0000_0000,
{
    reveal_with_fuel(two_to, 65);
}

/// A number between `2^e` and `2^(e+1)` has its highest bit at `e`.
pub proof fn lemma_log2_floor(a: nat, e: nat)
    requires
        two_to(e) <= a < 2 * two_to(e),
    ensures
        log2_floor(a) == e,
    decreases e,
{
    if e > 0 {
        lemma_log2_floor(a / 2, (e - 1) as nat);
    }
}

/// The bits of the double equal to `n`.
pub fn double_bits_of(n: i64) -> (r: u64)
    requires
        -0x20_0000_0000_0000 < n < 0x20_0000_0000_0000,
    ensures
        r as nat == double_bits(n as int),
{
    proof {
        lemma_two_to_values();
    }
    if n == 0 {
        return 0;
    }
    let sign: u64 = if n < 0 {
        0x8000_0000_0000_0000
    } else {
        0
    };
    let a: u64 = if n < 0 {
        (-n) as u64
    } else {
        n as u64
    };
    let mut p: u64 = 1;
    let mut e: u64 = 0;
    while p <= a / 2
        invariant
            p == two_to(e as nat),
            1 <= p <= a,
            a < 0x20_0000_0000_0000,
            e <= 52,
        decreases a - p,
    {
        proof {
            lemma_two_to_values();
            assert(two_to((e + 1) as nat) == 2 * two_to(e as nat));
            if e + 1 > 52 {
                lemma_two_to_mono(53, (e + 1) as nat);
            }
        }
        p = p * 2;
        e = e + 1;
    }
    proof {
        lemma_log2_floor(a as nat, e as nat);
        lemma_two_to_add(e as nat, (52 - e) as nat);
        assert(0x10_0000_0000_0000u64 / p == two_to((52 - e) as nat)) by (nonlinear_arith)
            requires
                0x10_0000_0000_0000 == p * two_to((52 - e) as nat),
                p > 0,
        ;
        assert((a - p) * two_to((52 - e) as nat) < 0x10_0000_0000_0000) by (nonlinear_arith)
            requires
                0x10_0000_0000_0000 == p * two_to((52 - e) as nat),
                a - p < p,
        ;
    }
    let scale: u64 = 0x10_0000_0000_0000 / p;
    sign + (1023 + e) * 0x10_0000_0000_0000 + (a - p) * scale
}

/// Appends the `n` low-order bytes of `x` to `out`, most significant first.
pub fn push_be_bytes(x: u64, n: usize, out: &mut Vec<u8>)
    ensures
        final(out)@ == old(out)@ + be_bytes(x as nat, n as nat),
    decreases n,
{
    if n > 0 {
        push_be_bytes(x / 256, n - 1, out);
        out.push((x % 256) as u8);
        assert(final(out)@ =~= old(out)@ + be_bytes(x as nat, n as nat));
    }
}

/// The hexadecimal digit for a value below 16, as a one-character string.
pub fn hex_digit_str(d: u8) -> (r: &'static str)
    requires
        d < 16,
    ensures
        r@ == seq![hex_digit(d as nat)],
{
    let digits = "0123456789abcdef";
    proof {
        reveal_strlit("0123456789abcdef");
    }
    let r = digits.substring_char(d as usize, d as usize + 1);
    assert(r@ =~= seq![hex_digit(d as nat)]);
    r
}

/// The hexadecimal digit `i` of `b`, as a number below 16.
pub fn nibble_at(b: &Vec<u8>, i: usize) -> (r: u8)
    requires
        i < 2 * b@.len(),
    ensures
        r as nat == nibble(b@, i as int),
        r < 16,
{
    if i % 2 == 0 {
        b[i / 2] / 16
    } else {
        b[i / 2] % 16
    }
}

/// The first `n` characters of the lower-case hexadecimal text of `b`.
pub fn hex_prefix_of(b: &Vec<u8>, n: usize) -> (r: String)
    requires
        n <= 2 * b@.len(),
    ensures
        r@ == hex_prefix(b@, n as nat),
{
    let mut s = String::new();
    let mut i: usize = 0;
    while i < n
        invariant
            i <= n <= 2 * b@.len(),
            s@ == hex_prefix(b@, i as nat),
        decreases n - i,
    {
        let d = nibble_at(b, i);
        s.append(hex_digit_str(d));
        i = i + 1;
        assert(s@ =~= hex_prefix(b@, i as nat));
    }
    s
}

/// Whether `c` is the start of the lower-case hexadecimal text of `b`.
pub fn is_hex_prefix(b: &Vec<u8>, c: &str) -> (r: bool)
    requires
        c@.len() <= 2 * b@.len(),
    ensures
        r == (c@ == hex_prefix(b@, c@.len())),
{
    let n = c.unicode_len();
    let mut i: usize = 0;
    while i < n
        invariant
            i <= n,
            n == c@.len(),
            n <= 2 * b@.len(),
            forall|k: int| 0 <= k < i ==> c@[k] == hex_digit(nibble(b@, k)),
        decreases n - i,
    {
        let d = nibble_at(b, i);
        let digit = hex_digit_str(d).get_char(0);
        if c.get_char(i) != digit {
            assert(c@[i as int] != hex_prefix(b@, c@.len())[i as int]);
            return false;
        }
        i = i + 1;
    }
    assert(c@ =~= hex_prefix(b@, c@.len()));
    true
}

/// Every positive number lies between `2^e` and `2^(e+1)` for `e` the
/// position of its highest bit.
pub proof fn lemma_log2_floor_bounds(a: nat)
    requires
        a >= 1,
    ensures
        two_to(log2_floor(a)) <= a < 2 * two_to(log2_floor(a)),
    decreases a,
{
    if a >= 2 {
        lemma_log2_floor_bounds(a / 2);
        assert(two_to(log2_floor(a)) == 2 * two_to(log2_floor(a / 2)));
    }
}

/// The fields of the double bits of a nonzero integer that a double holds
/// exactly: the sign and exponent above bit 52, the fraction below.
proof fn lemma_double_bits_fields(n: int)
    requires
        n != 0,
        -0x20_0000_0000_0000 < n < 0x20_0000_0000_0000,
    ensures
        ({
            let a = abs(n);
            let e = log2_floor(a);
            let m = ((a - two_to(e)) * two_to((52 - e) as nat)) as nat;
            let high = (if n < 0 { 2048nat } else { 0nat }) + 1023 + e;
            &&& e <= 52
            &&& (a - two_to(e)) * two_to((52 - e) as nat) >= 0
            &&& m < two_to(52)
            &&& two_to(e) * two_to((52 - e) as nat) == two_to(52)
            &&& double_bits(n) == high * two_to(52) + m
        }),
{
    lemma_two_to_values();
    let a = abs(n);
    let e = log2_floor(a);
    lemma_log2_floor_bounds(a);
    if e > 52 {
        lemma_two_to_mono(53, e);
    }
    lemma_two_to_add(e, (52 - e) as nat);
    lemma_two_to_add(11, 52);
    reveal_with_fuel(two_to, 12);
    let p = two_to(e);
    let q = two_to((52 - e) as nat);
    lemma_two_to_mono(0, (52 - e) as nat);
    assert((a - p) * q < two_to(52)) by (nonlinear_arith)
        requires
            two_to(52) == p * q,
            0 <= a - p < p,
            q > 0,
    ;
    assert((a - p) * q >= 0) by (nonlinear_arith)
        requires
            a - p >= 0,
            q >= 0,
    ;
}

/// The double bits of an integer that a double holds exactly fit in 64 bits.
pub proof fn lemma_double_bits_fit(n: int)
    requires
        -0x20_0000_0000_0000 < n < 0x20_0000_0000_0000,
    ensures
        double_bits(n) < two_to(64),
{
    lemma_two_to_values();
    if n != 0 {
        lemma_double_bits_fields(n);
    }
}

/// Distinct integers that a double holds exactly have distinct double bits.
pub proof fn lemma_double_bits_injective(n1: int, n2: int)
    requires
        -0x20_0000_0000_0000 < n1 < 0x20_0000_0000_0000,
        -0x20_0000_0000_0000 < n2 < 0x20_0000_0000_0000,
        double_bits(n1) == double_bits(n2),
    ensures
        n1 == n2,
{
    lemma_two_to_values();
    if n1 != 0 {
        lemma_double_bits_fields(n1);
    }
    if n2 != 0 {
        lemma_double_bits_fields(n2);
    }
    if n1 != 0 && n2 != 0 {
        let a1 = abs(n1);
        let a2 = abs(n2);
        let e1 = log2_floor(a1);
        let e2 = log2_floor(a2);
        let m1 = ((a1 - two_to(e1)) * two_to((52 - e1) as nat)) as nat;
        let m2 = ((a2 - two_to(e2)) * two_to((52 - e2) as nat)) as nat;
        let h1 = (if n1 < 0 { 2048nat } else { 0nat }) + 1023 + e1;
        let h2 = (if n2 < 0 { 2048nat } else { 0nat }) + 1023 + e2;
        lemma_fundamental_div_mod_converse(double_bits(n1) as int, two_to(52) as int, h1 as int, m1 as int);
        lemma_fundamental_div_mod_converse(double_bits(n2) as int, two_to(52) as int, h2 as int, m2 as int);
        assert(h1 == h2 && m1 == m2);
        assert(e1 == e2 && (n1 < 0) == (n2 < 0));
        let q = two_to((52 - e1) as nat);
        assert(q > 0) by {
            lemma_two_to_mono(0, (52 - e1) as nat);
        }
        assert((a1 - two_to(e1)) * q == (a2 - two_to(e1)) * q);
        assert(a1 - two_to(e1) == a2 - two_to(e1)) by (nonlinear_arith)
            requires
                (a1 - two_to(e1)) * q == (a2 - two_to(e1)) * q,
                q > 0,
        ;
    } else if n1 != 0 {
        assert(double_bits(n1) >= 1023 * two_to(52));
    } else if n2 != 0 {
        assert(double_bits(n2) >= 1023 * two_to(52));
    }
}

/// The big-endian encoding in `n` bytes has `n` bytes.
pub proof fn lemma_be_bytes_len(x: nat, n: nat)
    ensures
        be_bytes(x, n).len() == n,
    decreases n,
{
    if n > 0 {
        lemma_be_bytes_len(x / 256, (n - 1) as nat);
    }
}

/// Numbers below `256^n` have distinct `n`-byte big-endian encodings.
pub proof fn lemma_be_bytes_injective(x: nat, y: nat, n: nat)
    requires
        be_bytes(x, n) == be_bytes(y, n),
        x < two_to(8 * n),
        y < two_to(8 * n),
    ensures
        x == y,
    decreases n,
{
    if n == 0 {
        assert(two_to(0) == 1);
    } else {
        let n1 = (n - 1) as nat;
        assert(be_bytes(x, n).last() == (x % 256) as u8);
        assert(be_bytes(x / 256, n1) =~= be_bytes(x, n).drop_last());
        assert(be_bytes(y / 256, n1) =~= be_bytes(y, n).drop_last());
        lemma_two_to_add(8, 8 * n1);
        reveal_with_fuel(two_to, 9);
        let t = two_to(8 * n1);
        assert(x / 256 < t && y / 256 < t) by (nonlinear_arith)
            requires
                x < 256 * t,
                y < 256 * t,
        ;
        lemma_be_bytes_injective(x / 256, y / 256, n1);
        assert(x % 256 == y % 256);
    }
}

} // verus!
