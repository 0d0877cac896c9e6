use vstd::prelude::*;
use crate::bits::{MAX_QUBITS, pow2, bit_set, lemma_partner, lemma_pow2_positive, lemma_bit_of_block};
use crate::state::{
    pairs_updated, single_gate_applied, controlled_gate_applied, pair_done, selected, ground_state,
};
use crate::circuit::{GateKind, Operation, op_applied, is_trace, runs};

verus! {

/// `apply` gives one result for each gate and amplitude pair.
pub open spec fn is_function<A, G, F: Fn(G, A, A) -> (A, A)>(apply: F) -> bool {
    forall|g: G, a: A, b: A, r1: (A, A), r2: (A, A)|
        #![trigger apply.ensures((g, a, b), r1), apply.ensures((g, a, b), r2)]
        apply.ensures((g, a, b), r1) && apply.ensures((g, a, b), r2) ==> r1 == r2
}

/// Under `apply`, gate `g2` takes every amplitude pair that `g1` produced
/// back to the pair it came from.
pub open spec fn undoes<A, G, F: Fn(G, A, A) -> (A, A)>(apply: F, g1: G, g2: G) -> bool {
    forall|a: A, b: A, c: A, d: A, e: A, h: A|
        #![trigger apply.ensures((g1, a, b), (c, d)), apply.ensures((g2, c, d), (e, h))]
        apply.ensures((g1, a, b), (c, d)) && apply.ensures((g2, c, d), (e, h)) ==> e == a && h
            == b
}

/// Every index of a register lies in the pair of qubit `q` that starts at
/// an index whose bit `q` is clear.
proof fn lemma_pair_of(k: int, q: nat) -> (i: int)
    requires
        k >= 0,
    ensures
        i >= 0,
        !bit_set(i, q),
        k == i || k == i + pow2(q),
{
    lemma_partner(k, q);
    if bit_set(k, q) {
        k - pow2(q)
    } else {
        k
    }
}

/// A deterministic pair action leaves one possible outcome of a gate
/// application.
pub proof fn lemma_pairs_updated_unique<A, G, F: Fn(G, A, A) -> (A, A)>(
    old: Seq<A>,
    new1: Seq<A>,
    new2: Seq<A>,
    q: nat,
    control: Option<nat>,
    gate: G,
    apply: F,
)
    requires
        is_function(apply),
        pairs_updated(old, new1, q, control, gate, apply),
        pairs_updated(old, new2, q, control, gate, apply),
    ensures
        new1 == new2,
{
    assert forall|k: int| 0 <= k < new1.len() implies new1[k] == new2[k] by {
        let i = lemma_pair_of(k, q);
        assert(!bit_set(i, q));
        assert(i <= k);
        assert(pair_done(old, new1, i, pow2(q) as int, control, gate, apply));
        assert(pair_done(old, new2, i, pow2(q) as int, control, gate, apply));
        if selected(i, control) {
            let s = pow2(q) as int;
            assert(apply.ensures((gate, old[i], old[i + s]), (new1[i], new1[i + s])));
            assert(apply.ensures((gate, old[i], old[i + s]), (new2[i], new2[i + s])));
        }
    }
    assert(new1 =~= new2);
}

/// A gate followed on the same qubit by a gate that undoes it leaves the
/// amplitudes as they were: Hadamard after Hadamard, or `Rx(-t)` after
/// `Rx(t)`, where `apply` computes exactly.
pub proof fn lemma_inverse_gates_cancel<A, G, F: Fn(G, A, A) -> (A, A)>(
    s0: Seq<A>,
    s1: Seq<A>,
    s2: Seq<A>,
    q: nat,
    g1: G,
    g2: G,
    apply: F,
)
    requires
        undoes(apply, g1, g2),
        single_gate_applied(s0, s1, q, g1, apply),
        single_gate_applied(s1, s2, q, g2, apply),
    ensures
        s2 == s0,
{
    assert forall|k: int| 0 <= k < s0.len() implies s2[k] == s0[k] by {
        let i = lemma_pair_of(k, q);
        let s = pow2(q) as int;
        assert(!bit_set(i, q));
        assert(i <= k);
        assert(pair_done(s0, s1, i, s, None, g1, apply));
        assert(pair_done(s1, s2, i, s, None, g2, apply));
        assert(apply.ensures((g1, s0[i], s0[i + s]), (s1[i], s1[i + s])));
        assert(apply.ensures((g2, s1[i], s1[i + s]), (s2[i], s2[i + s])));
    }
    assert(s2 =~= s0);
}

/// Two traces of one run agree up to step `k`.
proof fn lemma_traces_agree<A, R, F: Fn(GateKind<R>, A, A) -> (A, A)>(
    n: nat,
    ops: Seq<Operation<R>>,
    zero: A,
    one: A,
    apply: F,
    t1: Seq<Seq<A>>,
    t2: Seq<Seq<A>>,
    k: int,
)
    requires
        is_function(apply),
        is_trace(n, ops, zero, one, apply, t1),
        is_trace(n, ops, zero, one, apply, t2),
        0 <= k <= ops.len(),
    ensures
        t1[k] == t2[k],
    decreases k,
{
    if k > 0 {
        lemma_traces_agree(n, ops, zero, one, apply, t1, t2, k - 1);
        let j = k - 1;
        assert(op_applied(t1[j], t1[j + 1], ops[j], apply));
        assert(op_applied(t2[j], t2[j + 1], ops[j], apply));
        match ops[j] {
            Operation::SingleGate { gate, qubit } => {
                lemma_pairs_updated_unique(t1[j], t1[k], t2[k], qubit as nat, None, gate, apply);
            },
            Operation::ControlledGate { gate, control, target } => {
                lemma_pairs_updated_unique(
                    t1[j],
                    t1[k],
                    t2[k],
                    target as nat,
                    Some(control as nat),
                    gate,
                    apply,
                );
            },
        }
    }
}

/// Running one circuit twice gives equal amplitudes, where the pair action
/// is deterministic: a run keeps no state between executions.
pub proof fn lemma_execute_deterministic<A, R, F: Fn(GateKind<R>, A, A) -> (A, A)>(
    n: nat,
    ops: Seq<Operation<R>>,
    zero: A,
    one: A,
    apply: F,
    r1: Seq<A>,
    r2: Seq<A>,
)
    requires
        is_function(apply),
        runs(n, ops, zero, one, apply, r1),
        runs(n, ops, zero, one, apply, r2),
    ensures
        r1 == r2,
{
    let t1 = choose|t: Seq<Seq<A>>| #[trigger] is_trace(n, ops, zero, one, apply, t) && t.last() == r1;
    let t2 = choose|t: Seq<Seq<A>>| #[trigger] is_trace(n, ops, zero, one, apply, t) && t.last() == r2;
    lemma_traces_agree(n, ops, zero, one, apply, t1, t2, ops.len() as int);
}

/// The circuit that prepares a GHZ state on `n` qubits: Hadamard on qubit 0,
/// then a controlled NOT from qubit 0 to each other qubit in turn.
pub open spec fn ghz_ops<R>(n: nat) -> Seq<Operation<R>> {
    Seq::new(
        n,
        |k: int|
            if k == 0 {
                Operation::SingleGate { gate: GateKind::Hadamard, qubit: 0 }
            } else {
                Operation::ControlledGate { gate: GateKind::PauliX, control: 0, target: k as usize }
            },
    )
}

/// The `n`-qubit state with amplitude `h` at index 0 and at index `2^m - 1`
/// (qubits `0..m` all 1), and `zero` elsewhere.
pub open spec fn ghz_partial<A>(n: nat, m: nat, zero: A, h: A) -> Seq<A> {
    Seq::new(pow2(n), |j: int| if j == 0 || j == pow2(m) - 1 { h } else { zero })
}

/// What the GHZ construction needs of the pair action, in exact arithmetic:
/// Hadamard takes `(one, zero)` to `(h, h)` and `(zero, zero)` to itself,
/// and Pauli-X swaps a pair.
pub open spec fn ghz_gates<A, R, F: Fn(GateKind<R>, A, A) -> (A, A)>(
    apply: F,
    zero: A,
    one: A,
    h: A,
) -> bool {
    &&& forall|r: (A, A)| #[trigger]
        apply.ensures((GateKind::<R>::Hadamard, one, zero), r) ==> r == (h, h)
    &&& forall|r: (A, A)| #[trigger]
        apply.ensures((GateKind::<R>::Hadamard, zero, zero), r) ==> r == (zero, zero)
    &&& forall|a: A, b: A, r: (A, A)| #[trigger]
        apply.ensures((GateKind::<R>::PauliX, a, b), r) ==> r == (b, a)
}

/// Bit 0 of an index is its parity.
proof fn lemma_bit_zero(x: int)
    requires
        x >= 0,
    ensures
        bit_set(x, 0) == (x % 2 == 1),
{
    assert(pow2(0) == 1);
}

/// Hadamard on qubit 0 of `|0...0>` spreads amplitude `h` over indices 0 and 1.
proof fn lemma_ghz_first<A, R, F: Fn(GateKind<R>, A, A) -> (A, A)>(
    n: nat,
    zero: A,
    one: A,
    h: A,
    apply: F,
    new: Seq<A>,
)
    requires
        n >= 1,
        ghz_gates(apply, zero, one, h),
        single_gate_applied(ground_state(n, zero, one), new, 0, GateKind::<R>::Hadamard, apply),
    ensures
        new == ghz_partial(n, 1, zero, h),
{
    let old = ground_state(n, zero, one);
    let target = ghz_partial(n, 1, zero, h);
    assert(pow2(1) == 2) by {
        assert(pow2(0) == 1);
    }
    assert forall|j: int| 0 <= j < new.len() implies new[j] == target[j] by {
        let i = lemma_pair_of(j, 0);
        lemma_bit_zero(i);
        assert(!bit_set(i, 0));
        assert(pow2(0) == 1);
        assert(pair_done(old, new, i, 1, None, GateKind::<R>::Hadamard, apply));
        assert(apply.ensures((GateKind::<R>::Hadamard, old[i], old[i + 1]), (new[i], new[i + 1])));
    }
    assert(new =~= target);
}

/// A controlled NOT from qubit 0 to qubit `k` moves the second amplitude of
/// the partial GHZ state from `2^k - 1` to `2^(k+1) - 1`.
proof fn lemma_ghz_step<A, R, F: Fn(GateKind<R>, A, A) -> (A, A)>(
    n: nat,
    k: nat,
    zero: A,
    one: A,
    h: A,
    apply: F,
    new: Seq<A>,
)
    requires
        1 <= k < n,
        ghz_gates(apply, zero, one, h),
        controlled_gate_applied(ghz_partial(n, k, zero, h), new, 0, k, GateKind::<R>::PauliX, apply),
    ensures
        new == ghz_partial(n, k + 1, zero, h),
{
    let old = ghz_partial(n, k, zero, h);
    let target = ghz_partial(n, k + 1, zero, h);
    let s = pow2(k) as int;
    lemma_pow2_positive((k - 1) as nat);
    assert(s == 2 * pow2((k - 1) as nat));
    assert(pow2(k + 1) == 2 * s);
    lemma_bit_of_block(1, s - 1, k);
    assert(bit_set(2 * s - 1, k));
    assert forall|j: int| 0 <= j < new.len() implies new[j] == target[j] by {
        let i = lemma_pair_of(j, k);
        lemma_bit_zero(i);
        assert(!bit_set(i, k));
        assert(pair_done(old, new, i, s, Some(0), GateKind::<R>::PauliX, apply));
        if i % 2 == 1 {
            assert(apply.ensures((GateKind::<R>::PauliX, old[i], old[i + s]), (new[i], new[i + s])));
            assert(new[i] == old[i + s]);
            assert(new[i + s] == old[i]);
        } else {
            assert(new[i] == old[i] && new[i + s] == old[i + s]);
        }
    }
    assert(new =~= target);
}

/// Step `m` of a trace of the GHZ construction is the partial GHZ state of
/// `m` qubits.
proof fn lemma_ghz_trace<A, R, F: Fn(GateKind<R>, A, A) -> (A, A)>(
    n: nat,
    m: nat,
    zero: A,
    one: A,
    h: A,
    apply: F,
    t: Seq<Seq<A>>,
)
    requires
        1 <= m <= n <= MAX_QUBITS,
        ghz_gates(apply, zero, one, h),
        is_trace(n, ghz_ops::<R>(n), zero, one, apply, t),
    ensures
        t[m as int] == ghz_partial(n, m, zero, h),
    decreases m,
{
    let ops = ghz_ops::<R>(n);
    if m == 1 {
        let z: int = 0;
        assert(op_applied(t[z], t[z + 1], ops[z], apply));
        lemma_ghz_first(n, zero, one, h, apply, t[1]);
    } else {
        let k = (m - 1) as nat;
        lemma_ghz_trace(n, k, zero, one, h, apply, t);
        assert(op_applied(t[k as int], t[k as int + 1], ops[k as int], apply));
        assert(ops[k as int] == Operation::<R>::ControlledGate {
            gate: GateKind::PauliX,
            control: 0,
            target: k as usize,
        });
        lemma_ghz_step(n, k, zero, one, h, apply, t[m as int]);
    }
}

/// The GHZ construction on `n >= 1` qubits leaves amplitude `h` at index 0
/// and at index `2^n - 1` (all qubits 1), and `zero` at every other index.
pub proof fn lemma_ghz<A, R, F: Fn(GateKind<R>, A, A) -> (A, A)>(
    n: nat,
    zero: A,
    one: A,
    h: A,
    apply: F,
    result: Seq<A>,
)
    requires
        1 <= n <= MAX_QUBITS,
        ghz_gates(apply, zero, one, h),
        runs(n, ghz_ops::<R>(n), zero, one, apply, result),
    ensures
        result == ghz_partial(n, n, zero, h),
        result[0] == h,
        result[pow2(n) - 1] == h,
        forall|j: int| 0 < j < pow2(n) - 1 ==> result[j] == zero,
{
    let ops = ghz_ops::<R>(n);
    let t = choose|t: Seq<Seq<A>>| #[trigger] is_trace(n, ops, zero, one, apply, t) && t.last() == result;
    lemma_ghz_trace(n, n, zero, one, h, apply, t);
    lemma_pow2_positive(n);
}

} // verus!
