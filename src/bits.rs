use vstd::prelude::*;

verus! {

/// The largest register the simulator allocates: `2^MAX_QUBITS` amplitudes.
pub const MAX_QUBITS: usize = 30;

/// `2^e`, the number of basis states of an `e`-qubit register.
pub open spec fn pow2(e: nat) -> nat
    decreases e,
{
    if e == 0 {
        1
    } else {
        2 * pow2((e - 1) as nat)
    }
}

/// Bit `q` of basis index `i`, that is the value of qubit `q` in that basis state.
pub open spec fn bit_set(i: int, q: nat) -> bool {
    (i / (pow2(q) as int)) % 2 == 1
}

pub proof fn lemma_pow2_positive(e: nat)
    ensures
        pow2(e) >= 1,
    decreases e,
{
    if e > 0 {
        lemma_pow2_positive((e - 1) as nat);
    }
}

pub proof fn lemma_pow2_adds(a: nat, b: nat)
    ensures
        pow2(a + b) == pow2(a) * pow2(b),
    decreases b,
{
    if b > 0 {
        lemma_pow2_adds(a, (b - 1) as nat);
        assert(pow2(a + b) == 2 * pow2((a + b - 1) as nat));
        assert(pow2(a) * pow2(b) == pow2(a) * (2 * pow2((b - 1) as nat)));
        assert(pow2(a) * (2 * pow2((b - 1) as nat)) == 2 * (pow2(a) * pow2((b - 1) as nat)))
            by (nonlinear_arith);
    } else {
        assert(pow2(0) == 1);
        assert(a + b == a);
    }
}

/// `2^q` divides `2^n` for `q < n`, leaving an even number of blocks.
pub proof fn lemma_pow2_blocks(q: nat, n: nat)
    requires
        q < n,
    ensures
        pow2(n) == pow2((n - q - 1) as nat) * (2 * pow2(q)),
{
    lemma_pow2_adds((n - q - 1) as nat, q + 1);
    assert(pow2(q + 1) == 2 * pow2(q));
}

/// Index `m * 2^q + k` with `k < 2^q` has bit `q` equal to the parity of `m`.
pub proof fn lemma_bit_of_block(m: int, k: int, q: nat)
    requires
        m >= 0,
        0 <= k < pow2(q),
    ensures
        (m * pow2(q) + k) / (pow2(q) as int) == m,
        bit_set(m * pow2(q) + k, q) == (m % 2 == 1),
{
    lemma_pow2_positive(q);
    vstd::arithmetic::div_mod::lemma_fundamental_div_mod_converse(
        m * pow2(q) + k,
        pow2(q) as int,
        m,
        k,
    );
}

/// The partner of an index whose bit `q` is set is that index minus `2^q`,
/// whose bit `q` is clear.
pub proof fn lemma_partner(i: int, q: nat)
    requires
        i >= 0,
    ensures
        bit_set(i, q) ==> i >= pow2(q) && !bit_set(i - pow2(q), q),
        !bit_set(i, q) ==> bit_set(i + pow2(q), q),
{
    lemma_pow2_positive(q);
    let s = pow2(q) as int;
    let m = i / s;
    let k = i % s;
    vstd::arithmetic::div_mod::lemma_fundamental_div_mod(i, s);
    assert(i == m * s + k) by (nonlinear_arith)
        requires
            i == s * m + k,
    ;
    assert(m >= 0) by (nonlinear_arith)
        requires
            i >= 0,
            s > 0,
            m == i / s,
    ;
    assert(0 <= k < s);
    lemma_bit_of_block(m, k, q);
    lemma_bit_of_block(m + 1, k, q);
    assert((m + 1) * s + k == i + s) by (nonlinear_arith)
        requires
            i == m * s + k,
    ;
    if bit_set(i, q) {
        assert(m >= 1);
        assert(i >= s) by (nonlinear_arith)
            requires
                i == m * s + k,
                m >= 1,
                k >= 0,
                s > 0,
        ;
        lemma_bit_of_block(m - 1, k, q);
        assert((m - 1) * s + k == i - s) by (nonlinear_arith)
            requires
                i == m * s + k,
        ;
    }
}

/// `2^MAX_QUBITS` amplitudes still fit the index range.
pub proof fn lemma_pow2_bounded(e: nat)
    requires
        e <= MAX_QUBITS,
    ensures
        pow2(e) <= 0x4000_0000,
{
    reveal_with_fuel(pow2, 31);
    assert(pow2(30) == 0x4000_0000);
    lemma_pow2_positive((30 - e) as nat);
    lemma_pow2_adds(e, (30 - e) as nat);
    assert(pow2(e) <= pow2(e) * pow2((30 - e) as nat)) by (nonlinear_arith)
        requires
            pow2((30 - e) as nat) >= 1,
    ;
}

/// Computes `2^q`.
pub fn pow2_exec(q: usize) -> (r: usize)
    requires
        q <= MAX_QUBITS,
    ensures
        r as nat == pow2(q as nat),
{
    let mut r: usize = 1;
    let mut k: usize = 0;
    while k < q
        invariant
            k <= q <= MAX_QUBITS,
            r as nat == pow2(k as nat),
        decreases q - k,
    {
        proof {
            lemma_pow2_bounded((k + 1) as nat);
        }
        r = r * 2;
        k = k + 1;
    }
    r
}

} // verus!
