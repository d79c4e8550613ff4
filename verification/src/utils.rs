//! Fibonacci numbers: the mathematical sequence and four ways to compute it
//! with 64-bit integers.
use vstd::prelude::*;

verus! {

/// The Fibonacci sequence: `fib(0) = 0`, `fib(1) = 1`,
/// `fib(n) = fib(n - 2) + fib(n - 1)`.
pub open spec fn fib(n: nat) -> nat
    decreases n,
{
    if n == 0 {
        0
    } else if n == 1 {
        1
    } else {
        fib((n - 2) as nat) + fib((n - 1) as nat)
    }
}

/// The largest index whose Fibonacci number fits in a `u64`.
pub const MAX_FIB_INDEX: u32 = 93;

/// The sequence never decreases.
pub proof fn lemma_fib_monotone(i: nat, j: nat)
    requires
        i <= j,
    ensures
        fib(i) <= fib(j),
    decreases j - i,
{
    if i < j {
        lemma_fib_monotone(i, (j - 1) as nat);
        if j >= 2 {
            assert(fib(j) == fib((j - 2) as nat) + fib((j - 1) as nat));
        }
    }
}

/// Consecutive pairs of the sequence, built from the front.
spec fn fib_pair(n: nat) -> (nat, nat)
    decreases n,
{
    if n == 0 {
        (0, 1)
    } else {
        let p = fib_pair((n - 1) as nat);
        (p.1, p.0 + p.1)
    }
}

proof fn lemma_fib_pair(n: nat)
    ensures
        fib_pair(n) == (fib(n), fib(n + 1)),
    decreases n,
{
    if n > 0 {
        lemma_fib_pair((n - 1) as nat);
    }
}

/// The two values around the `u64` boundary.
pub proof fn lemma_fib_boundary()
    ensures
        fib(93) == 12200160415121876738,
        fib(94) == 19740274219868223167,
{
    assert(fib_pair(10) == (55nat, 89nat)) by {
        reveal_with_fuel(fib_pair, 11);
    }
    assert(fib_pair(20) == (6765nat, 10946nat)) by {
        reveal_with_fuel(fib_pair, 11);
    }
    assert(fib_pair(30) == (832040nat, 1346269nat)) by {
        reveal_with_fuel(fib_pair, 11);
    }
    assert(fib_pair(40) == (102334155nat, 165580141nat)) by {
        reveal_with_fuel(fib_pair, 11);
    }
    assert(fib_pair(50) == (12586269025nat, 20365011074nat)) by {
        reveal_with_fuel(fib_pair, 11);
    }
    assert(fib_pair(60) == (1548008755920nat, 2504730781961nat)) by {
        reveal_with_fuel(fib_pair, 11);
    }
    assert(fib_pair(70) == (190392490709135nat, 308061521170129nat)) by {
        reveal_with_fuel(fib_pair, 11);
    }
    assert(fib_pair(80) == (23416728348467685nat, 37889062373143906nat)) by {
        reveal_with_fuel(fib_pair, 11);
    }
    assert(fib_pair(90) == (2880067194370816120nat, 4660046610375530309nat)) by {
        reveal_with_fuel(fib_pair, 11);
    }
    assert(fib_pair(93) == (12200160415121876738nat, 19740274219868223167nat)) by {
        reveal_with_fuel(fib_pair, 11);
    }
    lemma_fib_pair(93);
}


/// `fib(n)` as a `u64` when it fits (`n <= 93`), `None` otherwise.
pub open spec fn fib_if_fits(n: u32) -> Option<u64> {
    if n <= MAX_FIB_INDEX {
        Some(fib(n as nat) as u64)
    } else {
        None
    }
}

/// A Fibonacci number fits in a `u64` exactly when its index is at most 93.
pub proof fn lemma_fib_fits_u64(n: nat)
    ensures
        fib(n) <= u64::MAX <==> n <= MAX_FIB_INDEX,
{
    lemma_fib_boundary();
    if n <= 93 {
        lemma_fib_monotone(n, 93);
    } else {
        lemma_fib_monotone(94, n);
    }
}

/// Where `fib_if_fits` gives a value, that value is `fib(n)` exactly: no
/// truncation happens.
pub proof fn lemma_fib_if_fits_exact(n: u32)
    ensures
        fib_if_fits(n) matches Some(v) ==> v == fib(n as nat),
{
    lemma_fib_fits_u64(n as nat);
}

/// Computes the `n`-th Fibonacci number (`fib(0) = 0`, `fib(1) = 1`) by
/// iterating over consecutive pairs.
pub fn fibonacci(n: u32) -> (r: u64)
    requires
        n <= MAX_FIB_INDEX,
    ensures
        r == fib(n as nat),
{
    match n {
        0 => 0,
        1 => 1,
        _ => {
            let mut a: u64 = 0;
            let mut b: u64 = 1;
            let mut i: u32 = 2;
            while i <= n
                invariant
                    2 <= i <= n + 1,
                    n <= MAX_FIB_INDEX,
                    a == fib((i - 2) as nat),
                    b == fib((i - 1) as nat),
                decreases n + 1 - i,
            {
                proof {
                    lemma_fib_fits_u64(i as nat);
                }
                let c = a + b;
                a = b;
                b = c;
                i = i + 1;
            }
            b
        }
    }
}

/// The first `n` Fibonacci numbers, `fib(0)` to `fib(n - 1)`.
pub fn fibonacci_sequence(n: u32) -> (s: Vec<u64>)
    requires
        n <= MAX_FIB_INDEX + 1,
    ensures
        s@.len() == n,
        forall|i: int| 0 <= i < n ==> s@[i] == fib(i as nat),
{
    let mut s: Vec<u64> = Vec::new();
    let mut i: u32 = 0;
    while i < n
        invariant
            i <= n <= MAX_FIB_INDEX + 1,
            s@.len() == i,
            forall|k: int| 0 <= k < i ==> s@[k] == fib(k as nat),
        decreases n - i,
    {
        s.push(fibonacci(i));
        i = i + 1;
    }
    s
}


/// The `n`-th Fibonacci number, or `None` when it does not fit in a `u64`
/// (`n > 93`). Iterates over consecutive pairs with checked additions.
pub fn fibonacci_checked(n: u32) -> (r: Option<u64>)
    ensures
        r == fib_if_fits(n),
{
    proof {
        lemma_fib_fits_u64(n as nat);
    }
    if n == 0 {
        return Some(0);
    }
    let mut a: u64 = 0;
    let mut b: u64 = 1;
    let mut i: u32 = 2;
    while i <= n
        invariant
            2 <= i <= n + 1,
            a == fib((i - 2) as nat),
            b == fib((i - 1) as nat),
        decreases n + 1 - i,
    {
        match a.checked_add(b) {
            Some(c) => {
                proof {
                    lemma_fib_fits_u64(i as nat);
                }
                a = b;
                b = c;
            },
            None => {
                proof {
                    lemma_fib_fits_u64(i as nat);
                    lemma_fib_monotone(i as nat, n as nat);
                    lemma_fib_fits_u64(n as nat);
                }
                return None;
            },
        }
        i = i + 1;
    }
    proof {
        lemma_fib_fits_u64(n as nat);
    }
    Some(b)
}

/// The first `n` Fibonacci numbers, or `None` when the last of them,
/// `fib(n - 1)`, does not fit in a `u64` (`n > 94`).
pub fn fibonacci_sequence_checked(n: u32) -> (r: Option<Vec<u64>>)
    ensures
        r is Some <==> n <= MAX_FIB_INDEX + 1,
        r matches Some(s) ==> s@.len() == n && forall|i: int| 0 <= i < n ==> s@[i] == fib(i as nat),
{
    let mut s: Vec<u64> = Vec::new();
    let mut i: u32 = 0;
    while i < n
        invariant
            i <= n,
            i <= MAX_FIB_INDEX + 1,
            s@.len() == i,
            forall|k: int| 0 <= k < i ==> s@[k] == fib(k as nat),
        decreases n - i,
    {
        match fibonacci_checked(i) {
            Some(v) => {
                proof {
                    lemma_fib_fits_u64(i as nat);
                }
                s.push(v);
            },
            None => {
                return None;
            },
        }
        i = i + 1;
    }
    Some(s)
}

/// Every `Some` entry of the cache holds the Fibonacci number of its index.
spec fn cache_is_sound(cache: Seq<Option<u64>>) -> bool {
    forall|i: int| 0 <= i < cache.len() && (#[trigger] cache[i]) is Some ==> cache[i]->0 == fib(i as nat)
}

/// Top-down recursion that remembers every value it computes.
fn fib_memo(n: usize, cache: &mut Vec<Option<u64>>) -> (r: u64)
    requires
        n < old(cache)@.len(),
        n <= MAX_FIB_INDEX,
        cache_is_sound(old(cache)@),
    ensures
        final(cache)@.len() == old(cache)@.len(),
        cache_is_sound(final(cache)@),
        r == fib(n as nat),
    decreases n,
{
    if let Some(v) = cache[n] {
        return v;
    }
    let v: u64 = if n < 2 {
        n as u64
    } else {
        let x = fib_memo(n - 1, cache);
        let y = fib_memo(n - 2, cache);
        proof {
            lemma_fib_fits_u64(n as nat);
        }
        x + y
    };
    cache.set(n, Some(v));
    v
}

/// The `n`-th Fibonacci number computed by memoised recursion, or `None`
/// when `n > 93`.
pub fn fibonacci_memoized(n: u32) -> (r: Option<u64>)
    ensures
        r == fib_if_fits(n),
{
    if n > MAX_FIB_INDEX {
        return None;
    }
    let len: usize = n as usize + 1;
    let mut cache: Vec<Option<u64>> = Vec::new();
    while cache.len() < len
        invariant
            cache@.len() <= len,
            cache_is_sound(cache@),
        decreases len - cache@.len(),
    {
        cache.push(None);
    }
    Some(fib_memo(n as usize, &mut cache))
}


/// The addition law `fib(m + n + 1) = fib(m + 1) * fib(n + 1) + fib(m) * fib(n)`.
pub proof fn lemma_fib_add(m: nat, n: nat)
    ensures
        fib(m + n + 1) == fib(m + 1) * fib(n + 1) + fib(m) * fib(n),
    decreases n,
{
    if n == 0 {
        assert(fib(m + 1) * fib(1) + fib(m) * fib(0) == fib(m + 1)) by (nonlinear_arith)
            requires
                fib(1) == 1,
                fib(0) == 0,
        ;
    } else if n == 1 {
        assert(fib(m + 2) == fib(m) + fib(m + 1));
        assert(fib(2) == fib(0) + fib(1));
        assert(fib(m + 1) * fib(2) + fib(m) * fib(1) == fib(m + 1) + fib(m)) by (nonlinear_arith)
            requires
                fib(2) == 1,
                fib(1) == 1,
        ;
    } else {
        lemma_fib_add(m, (n - 1) as nat);
        lemma_fib_add(m, (n - 2) as nat);
        let (a, b) = (fib(m + 1), fib(m));
        let (x, y, z) = (fib((n - 1) as nat), fib(n), fib(n + 1));
        assert(fib(m + n + 1) == fib((m + n - 1) as nat) + fib(m + n));
        assert(z == x + y);
        assert(fib((m + n - 1) as nat) == a * x + b * fib((n - 2) as nat));
        assert(fib(n) == fib((n - 2) as nat) + x);
        assert(a * x + b * fib((n - 2) as nat) + (a * y + b * x) == a * z + b * y)
            by (nonlinear_arith)
            requires
                z == x + y,
                y == fib((n - 2) as nat) + x,
        ;
    }
}

/// The three distinct entries of the power `[[1, 1], [1, 0]]^k`:
/// `fib(k + 1)`, `fib(k)` and `fib(k - 1)` (taken as 1 when `k == 0`).
spec fn fib_power_entries(k: nat) -> (nat, nat, nat) {
    (fib(k + 1), fib(k), if k == 0 { 1 } else { fib((k - 1) as nat) })
}

/// A symmetric 2x2 matrix `[[a, b], [b, d]]`.
struct SymMatrix {
    a: u64,
    b: u64,
    d: u64,
}

impl SymMatrix {
    /// The matrix is `[[1, 1], [1, 0]]^k`.
    spec fn is_fib_power(&self, k: nat) -> bool {
        (self.a as nat, self.b as nat, self.d as nat) == fib_power_entries(k)
    }
}

/// Product of two powers of `[[1, 1], [1, 0]]`, whose exponents add up to at
/// most 92 so that every entry of the product fits in a `u64`.
fn mul_fib_powers(x: &SymMatrix, y: &SymMatrix, Ghost(i): Ghost<nat>, Ghost(j): Ghost<nat>) -> (p: SymMatrix)
    requires
        x.is_fib_power(i),
        y.is_fib_power(j),
        i + j < MAX_FIB_INDEX,
    ensures
        p.is_fib_power(i + j),
{
    proof {
        lemma_fib_add(i, j);
        lemma_fib_fits_u64(i + j + 1);
        lemma_fib_monotone(i + j, i + j + 1);
        let di: nat = if i == 0 { 1 } else { fib((i - 1) as nat) };
        let dj: nat = if j == 0 { 1 } else { fib((j - 1) as nat) };
        if j == 0 {
            assert(fib(i + 1) * fib(j) + fib(i) * dj == fib(i + j)) by (nonlinear_arith)
                requires
                    fib(j) == 0,
                    dj == 1,
                    j == 0,
            ;
        } else {
            lemma_fib_add(i, (j - 1) as nat);
            assert(fib(i + 1) * fib(j) + fib(i) * dj == fib(i + j));
        }
        let dij: nat = if i + j == 0 { 1 } else { fib((i + j - 1) as nat) };
        if i == 0 {
            assert(fib(i) * fib(j) + di * dj == dij) by (nonlinear_arith)
                requires
                    fib(i) == 0,
                    di == 1,
                    i == 0,
                    dij == dj,
            ;
        } else if j == 0 {
            assert(fib(i) * fib(j) + di * dj == dij) by (nonlinear_arith)
                requires
                    fib(j) == 0,
                    dj == 1,
                    j == 0,
                    dij == di,
            ;
        } else {
            lemma_fib_add((i - 1) as nat, (j - 1) as nat);
            assert(fib(i) * fib(j) + di * dj == dij);
        }
        if i + j > 0 {
            lemma_fib_monotone((i + j - 1) as nat, i + j);
        }
        assert(0 <= x.a * y.a && 0 <= x.b * y.b && 0 <= x.a * y.b && 0 <= x.b * y.d
            && 0 <= x.d * y.d) by (nonlinear_arith);
    }
    let a = x.a * y.a + x.b * y.b;
    let b = x.a * y.b + x.b * y.d;
    let d = x.b * y.b + x.d * y.d;
    SymMatrix { a, b, d }
}

/// The `n`-th Fibonacci number computed by fast exponentiation of the
/// matrix `[[1, 1], [1, 0]]` (O(log n) multiplications), or `None` when
/// `n > 93`.
pub fn fibonacci_matrix(n: u32) -> (r: Option<u64>)
    ensures
        r == fib_if_fits(n),
{
    if n > MAX_FIB_INDEX {
        return None;
    }
    if n == 0 {
        return Some(0);
    }
    proof {
        lemma_fib_fits_u64(n as nat);
    }
    let ghost total: nat = (n - 1) as nat;
    let mut e: u32 = n - 1;
    let mut acc = SymMatrix { a: 1, b: 0, d: 1 };
    let mut base = SymMatrix { a: 1, b: 1, d: 0 };
    let ghost mut acc_exp: nat = 0;
    let ghost mut base_exp: nat = 1;
    while e > 0
        invariant
            total == n - 1,
            n <= MAX_FIB_INDEX,
            acc.is_fib_power(acc_exp),
            base.is_fib_power(base_exp),
            base_exp >= 1,
            acc_exp + base_exp * e == total,
        decreases e,
    {
        let ghost pre_acc = acc_exp;
        if e % 2 == 1 {
            assert(acc_exp + base_exp <= total) by (nonlinear_arith)
                requires
                    acc_exp + base_exp * e == total,
                    e >= 1,
            ;
            acc = mul_fib_powers(&acc, &base, Ghost(acc_exp), Ghost(base_exp));
            proof {
                acc_exp = acc_exp + base_exp;
            }
        }
        let ghost old_e = e;
        e = e / 2;
        proof {
            assert(acc_exp + base_exp * (2 * e) == total) by (nonlinear_arith)
                requires
                    pre_acc + base_exp * old_e == total,
                    old_e % 2 == 1 ==> acc_exp == pre_acc + base_exp,
                    old_e % 2 == 0 ==> acc_exp == pre_acc,
                    old_e == 2 * e + old_e % 2,
                    old_e % 2 == 0 || old_e % 2 == 1,
            ;
        }
        if e > 0 {
            assert(base_exp + base_exp <= total) by (nonlinear_arith)
                requires
                    acc_exp + base_exp * (2 * e) == total,
                    e >= 1,
            ;
            base = mul_fib_powers(&base, &base, Ghost(base_exp), Ghost(base_exp));
            proof {
                assert(acc_exp + (base_exp + base_exp) * e == total) by (nonlinear_arith)
                    requires
                        acc_exp + base_exp * (2 * e) == total,
                ;
                base_exp = base_exp + base_exp;
            }
        }
    }
    Some(acc.a)
}

} // verus!
