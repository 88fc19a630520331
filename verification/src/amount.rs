//! Compact amounts: a variable-precision encoding of satoshi values that
//! exploits trailing decimal zeros.

use vstd::prelude::*;

verus! {

/// Ten to the power `e`.
pub open spec fn pow10(e: nat) -> nat
    decreases e,
{
    if e == 0 {
        1
    } else {
        10 * pow10((e - 1) as nat)
    }
}

/// The amount that the compact form `x` stands for.
///
/// Zero stands for itself. Otherwise `x - 1` is read as `10 * q + e` with a
/// decimal exponent `e`; for `e < 9` the quotient `q` carries a last non-zero
/// digit and the remaining digits, for `e == 9` it carries the mantissa less
/// one.
pub open spec fn decompressed_amount(x: nat) -> nat {
    if x == 0 {
        0
    } else {
        let y = (x - 1) as nat;
        let e = y % 10;
        let q = y / 10;
        if e < 9 {
            (10 * (q / 9) + q % 9 + 1) * pow10(e)
        } else {
            (q + 1) * pow10(9)
        }
    }
}

/// The number of trailing decimal zeros of `n`, counted up to `limit`.
pub open spec fn trailing_zeros(n: nat, limit: nat) -> nat
    decreases limit,
{
    if limit == 0 || n % 10 != 0 {
        0
    } else {
        1 + trailing_zeros(n / 10, (limit - 1) as nat)
    }
}

/// The compact form of the amount `n`.
pub open spec fn compressed_amount(n: nat) -> nat {
    if n == 0 {
        0
    } else {
        let e = trailing_zeros(n, 9);
        let m = n / pow10(e);
        if e < 9 {
            1 + 10 * (9 * (m / 10) + (m % 10 - 1) as nat) + e
        } else {
            1 + 10 * (m - 1) as nat + 9
        }
    }
}

/// No power of ten is zero.
pub proof fn lemma_pow10_positive(e: nat)
    ensures
        pow10(e) > 0,
    decreases e,
{
    if e > 0 {
        lemma_pow10_positive((e - 1) as nat);
    }
}

/// The powers of ten that a compact amount can carry.
pub proof fn lemma_pow10_values()
    ensures
        pow10(0) == 1,
        pow10(1) == 10,
        pow10(2) == 100,
        pow10(3) == 1_000,
        pow10(4) == 10_000,
        pow10(5) == 100_000,
        pow10(6) == 1_000_000,
        pow10(7) == 10_000_000,
        pow10(8) == 100_000_000,
        pow10(9) == 1_000_000_000,
{
    reveal_with_fuel(pow10, 10);
}

/// Decompresses a compact amount.
///
/// The contract covers the compact forms whose amount fits in 64 bits, which
/// are exactly the forms that compression of a 64-bit amount produces (see
/// [`lemma_compress_decompress`]).
pub fn decompress_amount(x: u64) -> (n: u64)
    requires
        decompressed_amount(x as nat) <= u64::MAX,
    ensures
        n == decompressed_amount(x as nat),
{
    match try_decompress_amount(x) {
        Some(n) => n,
        None => 0,
    }
}

/// Decompresses a compact amount, or reports that the amount does not fit in
/// 64 bits.
pub fn try_decompress_amount(x: u64) -> (r: Option<u64>)
    ensures
        match r {
            Some(n) => n == decompressed_amount(x as nat),
            None => decompressed_amount(x as nat) > u64::MAX,
        },
{
    if x == 0 {
        return Some(0);
    }
    let y: u64 = x - 1;
    let e: u64 = y % 10;
    let q: u64 = y / 10;
    let mantissa: u64 = if e < 9 {
        10 * (q / 9) + q % 9 + 1
    } else {
        q + 1
    };
    let mut n: u64 = mantissa;
    let mut i: u64 = 0;
    proof {
        assert(mantissa * pow10(0) == mantissa) by (nonlinear_arith)
            requires
                pow10(0) == 1,
        ;
    }
    while i < e
        invariant
            i <= e <= 9,
            mantissa >= 1,
            n == mantissa * pow10(i as nat),
            decompressed_amount(x as nat) == mantissa * pow10(e as nat),
        decreases e - i,
    {
        proof {
            let p = pow10((i + 1) as nat);
            let pe = pow10(e as nat);
            lemma_pow10_monotonic((i + 1) as nat, e as nat);
            assert(mantissa * p == 10 * (mantissa * pow10(i as nat))) by (nonlinear_arith)
                requires
                    p == 10 * pow10(i as nat),
            ;
            assert(mantissa * p <= mantissa * pe) by (nonlinear_arith)
                requires
                    p <= pe,
                    mantissa >= 1,
            ;
        }
        if n > u64::MAX / 10 {
            return None;
        }
        n = n * 10;
        i = i + 1;
    }
    Some(n)
}

/// The powers of ten grow with the exponent.
pub proof fn lemma_pow10_monotonic(a: nat, b: nat)
    requires
        a <= b,
    ensures
        pow10(a) <= pow10(b),
    decreases b,
{
    if a < b {
        lemma_pow10_monotonic(a, (b - 1) as nat);
    }
}

/// What [`trailing_zeros`] counts: `n` is a multiple of that power of ten,
/// and where the count stops short of `limit` the quotient's last digit is
/// not zero.
pub proof fn lemma_trailing_zeros(n: nat, limit: nat)
    ensures
        trailing_zeros(n, limit) <= limit,
        n == (n / pow10(trailing_zeros(n, limit))) * pow10(trailing_zeros(n, limit)),
        trailing_zeros(n, limit) < limit ==> (n / pow10(trailing_zeros(n, limit))) % 10 != 0,
    decreases limit,
{
    let e = trailing_zeros(n, limit);
    if limit == 0 || n % 10 != 0 {
        assert(pow10(0) == 1);
        assert(n / 1 == n);
        assert(n == (n / pow10(0)) * pow10(0)) by (nonlinear_arith)
            requires
                pow10(0) == 1,
        ;
    } else {
        let k = n / 10;
        let f = trailing_zeros(k, (limit - 1) as nat);
        lemma_trailing_zeros(k, (limit - 1) as nat);
        lemma_pow10_positive(f);
        let p = pow10(f);
        assert(e == f + 1);
        assert(pow10(e) == 10 * p);
        assert(n == 10 * k);
        assert(n / (10 * p) == k / p && n == (n / (10 * p)) * (10 * p)) by (nonlinear_arith)
            requires
                n == 10 * k,
                k == (k / p) * p,
                p > 0,
        ;
    }
}

/// Decompression undoes compression: every amount is recovered exactly from
/// its compact form.
pub proof fn lemma_decompress_compress(n: nat)
    ensures
        decompressed_amount(compressed_amount(n)) == n,
{
    if n != 0 {
        let e = trailing_zeros(n, 9);
        lemma_trailing_zeros(n, 9);
        lemma_pow10_positive(e);
        let p = pow10(e);
        let m = n / p;
        assert(m > 0) by (nonlinear_arith)
            requires
                n == m * p,
                n > 0,
                p > 0,
        ;
        if e < 9 {
            let k = 9 * (m / 10) + (m % 10 - 1) as nat;
            assert(k / 9 == m / 10 && k % 9 == m % 10 - 1);
            let x = 1 + 10 * k + e;
            assert(((x - 1) as nat) % 10 == e && ((x - 1) as nat) / 10 == k);
            assert(10 * (k / 9) + k % 9 + 1 == m);
        } else {
            let x = 1 + 10 * (m - 1) as nat + 9;
            assert(((x - 1) as nat) % 10 == 9 && ((x - 1) as nat) / 10 == m - 1);
        }
    }
}

/// Compression undoes decompression: compressing the amount that a compact
/// form stands for gives the form back. So the forms that
/// [`decompress_amount`] accepts are forms that compression of a 64-bit
/// amount produces.
pub proof fn lemma_compress_decompress(x: nat)
    ensures
        compressed_amount(decompressed_amount(x)) == x,
{
    if x != 0 {
        let y = (x - 1) as nat;
        let e = y % 10;
        let q = y / 10;
        lemma_pow10_positive(e);
        let p = pow10(e);
        let m: nat = if e < 9 {
            10 * (q / 9) + q % 9 + 1
        } else {
            q + 1
        };
        let n = m * p;
        assert(n == decompressed_amount(x));
        assert(n > 0) by (nonlinear_arith)
            requires
                n == m * p,
                m > 0,
                p > 0,
        ;
        lemma_trailing_zeros_of_product(m, e, 9);
        assert(n / p == m) by (nonlinear_arith)
            requires
                n == m * p,
                p > 0,
        ;
        if e < 9 {
            assert(m / 10 == q / 9 && m % 10 == q % 9 + 1);
        }
    }
}

/// A number whose last digit is not zero, or any number once the limit is
/// reached, times `10^e` has exactly `e` trailing zeros counted up to
/// `limit`.
pub proof fn lemma_trailing_zeros_of_product(m: nat, e: nat, limit: nat)
    requires
        e <= limit,
        m > 0,
        e < limit ==> m % 10 != 0,
    ensures
        trailing_zeros(m * pow10(e), limit) == e,
    decreases e,
{
    if e == 0 {
        assert(m * pow10(0) == m) by (nonlinear_arith)
            requires
                pow10(0) == 1,
        ;
    } else {
        let p = pow10((e - 1) as nat);
        lemma_pow10_positive((e - 1) as nat);
        lemma_trailing_zeros_of_product(m, (e - 1) as nat, (limit - 1) as nat);
        let n = m * pow10(e);
        assert(n == 10 * (m * p)) by (nonlinear_arith)
            requires
                n == m * (10 * p),
        ;
        assert(n % 10 == 0 && n / 10 == m * p);
    }
}

/// Compresses an amount, or reports that its compact form does not fit in 64
/// bits.
pub fn compress_amount(n: u64) -> (r: Option<u64>)
    ensures
        match r {
            Some(x) => x == compressed_amount(n as nat) && decompressed_amount(x as nat) == n,
            None => compressed_amount(n as nat) > u64::MAX,
        },
{
    proof {
        lemma_decompress_compress(n as nat);
    }
    if n == 0 {
        return Some(0);
    }
    let mut e: u64 = 0;
    let mut m: u64 = n;
    proof {
        assert(pow10(0) == 1);
        assert(n as nat / 1 == n);
    }
    while e < 9 && m % 10 == 0
        invariant
            e <= 9,
            m > 0,
            m as nat * pow10(e as nat) == n,
            trailing_zeros(n as nat, 9) == e + trailing_zeros(m as nat, (9 - e) as nat),
        decreases 9 - e,
    {
        proof {
            let p = pow10(e as nat);
            let k = (m / 10) as nat;
            assert(k * (10 * p) == m as nat * p) by (nonlinear_arith)
                requires
                    m == 10 * k,
            ;
        }
        m = m / 10;
        e = e + 1;
    }
    proof {
        let p = pow10(e as nat);
        lemma_pow10_positive(e as nat);
        assert(trailing_zeros(n as nat, 9) == e);
        assert(n as nat / p == m) by (nonlinear_arith)
            requires
                m as nat * p == n,
                p > 0,
        ;
    }
    if e < 9 {
        let k: u64 = 9 * (m / 10) + (m % 10 - 1);
        if k > (u64::MAX - 1 - e) / 10 {
            return None;
        }
        Some(1 + 10 * k + e)
    } else {
        proof {
            lemma_pow10_values();
            assert(m <= n / 1_000_000_000) by (nonlinear_arith)
                requires
                    m as nat * 1_000_000_000 == n,
            ;
        }
        Some(1 + 10 * (m - 1) + 9)
    }
}

} // verus!
