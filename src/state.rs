use vstd::prelude::*;
use crate::bits::{
    MAX_QUBITS, pow2, bit_set, pow2_exec, lemma_pow2_positive, lemma_pow2_blocks,
    lemma_bit_of_block,
};
use crate::error::SimError;

verus! {

/// The amplitudes of an `n`-qubit register, one per basis state.
pub struct QuantumState<A> {
    amplitudes: Vec<A>,
    num_qubits: usize,
}

/// The `|0...0>` state over `n` qubits: `one` at index 0, `zero` elsewhere.
pub open spec fn ground_state<A>(n: nat, zero: A, one: A) -> Seq<A> {
    Seq::new(pow2(n), |i: int| if i == 0 { one } else { zero })
}

/// Whether the pair whose lower index is `i` is updated: always without a
/// control qubit, else when bit `c` of `i` is set.
pub open spec fn selected(i: int, control: Option<nat>) -> bool {
    match control {
        None => true,
        Some(c) => bit_set(i, c),
    }
}

/// The pair `(i, i + s)` of `new` is what `apply` makes of `gate` and that
/// pair of `old` where the pair is selected, and that pair of `old`
/// unchanged where it is not.
pub open spec fn pair_done<A, G, F: Fn(G, A, A) -> (A, A)>(
    old: Seq<A>,
    new: Seq<A>,
    i: int,
    s: int,
    control: Option<nat>,
    gate: G,
    apply: F,
) -> bool {
    if selected(i, control) {
        apply.ensures((gate, old[i], old[i + s]), (new[i], new[i + s]))
    } else {
        new[i] == old[i] && new[i + s] == old[i + s]
    }
}

/// `new` is `old` with `gate` applied to each selected pair of amplitudes
/// whose indices differ in bit `q` alone, the pair `(i, i + 2^q)` where bit
/// `q` of `i` is clear; the other pairs are kept.
pub open spec fn pairs_updated<A, G, F: Fn(G, A, A) -> (A, A)>(
    old: Seq<A>,
    new: Seq<A>,
    q: nat,
    control: Option<nat>,
    gate: G,
    apply: F,
) -> bool {
    &&& new.len() == old.len()
    &&& forall|i: int|
        #![trigger bit_set(i, q)]
        0 <= i < old.len() && !bit_set(i, q) ==> {
            &&& i + pow2(q) < old.len()
            &&& pair_done(old, new, i, pow2(q) as int, control, gate, apply)
        }
}

/// `new` is `old` with `gate` applied on qubit `q`.
pub open spec fn single_gate_applied<A, G, F: Fn(G, A, A) -> (A, A)>(
    old: Seq<A>,
    new: Seq<A>,
    q: nat,
    gate: G,
    apply: F,
) -> bool {
    pairs_updated(old, new, q, None, gate, apply)
}

/// `new` is `old` with `gate` applied on qubit `t` in the basis states where
/// qubit `c` is 1, and unchanged where qubit `c` is 0.
pub open spec fn controlled_gate_applied<A, G, F: Fn(G, A, A) -> (A, A)>(
    old: Seq<A>,
    new: Seq<A>,
    c: nat,
    t: nat,
    gate: G,
    apply: F,
) -> bool {
    pairs_updated(old, new, t, Some(c), gate, apply)
}

impl<A> View for QuantumState<A> {
    type V = Seq<A>;

    closed spec fn view(&self) -> Seq<A> {
        self.amplitudes@
    }
}

impl<A> QuantumState<A> {
    /// The number of qubits of the register.
    pub closed spec fn qubits(&self) -> nat {
        self.num_qubits as nat
    }

    /// The buffer holds exactly one amplitude per basis state.
    pub open spec fn wf(&self) -> bool {
        &&& self.qubits() <= MAX_QUBITS
        &&& self@.len() == pow2(self.qubits())
    }

    /// The number of qubits of the register.
    pub fn num_qubits(&self) -> (r: usize)
        ensures
            r as nat == self.qubits(),
    {
        self.num_qubits
    }

    /// Read access to the amplitudes, indexed by basis state.
    pub fn amplitudes(&self) -> (r: &Vec<A>)
        ensures
            r@ == self@,
    {
        &self.amplitudes
    }
}

impl<A: Copy> QuantumState<A> {
    /// Creates the `|0...0>` state of `num_qubits` qubits, with `one` as the
    /// amplitude of basis state 0 and `zero` as every other amplitude.
    pub fn new(num_qubits: usize, zero: A, one: A) -> (r: Result<Self, SimError>)
        ensures
            num_qubits > MAX_QUBITS <==> r == Err::<Self, SimError>(SimError::CapacityExceeded),
            num_qubits <= MAX_QUBITS <==> r is Ok,
            r is Ok ==> {
                let s = r->Ok_0;
                &&& s.wf()
                &&& s.qubits() == num_qubits
                &&& s@ == ground_state(num_qubits as nat, zero, one)
            },
    {
        if num_qubits > MAX_QUBITS {
            return Err(SimError::CapacityExceeded);
        }
        let size = pow2_exec(num_qubits);
        proof {
            lemma_pow2_positive(num_qubits as nat);
        }
        let mut amplitudes: Vec<A> = Vec::with_capacity(size);
        amplitudes.push(one);
        let mut k: usize = 1;
        while k < size
            invariant
                1 <= k <= size,
                size as nat == pow2(num_qubits as nat),
                amplitudes@.len() == k,
                forall|i: int|
                    0 <= i < k ==> amplitudes@[i] == (if i == 0 { one } else { zero }),
            decreases size - k,
        {
            amplitudes.push(zero);
            k = k + 1;
        }
        let s = QuantumState { amplitudes, num_qubits };
        assert(s@ =~= ground_state(num_qubits as nat, zero, one));
        Ok(s)
    }

    /// A copy of the amplitude buffer.
    fn copy_amplitudes(&self) -> (r: Vec<A>)
        ensures
            r@ == self@,
    {
        let mut r: Vec<A> = Vec::with_capacity(self.amplitudes.len());
        let mut k: usize = 0;
        while k < self.amplitudes.len()
            invariant
                k <= self.amplitudes@.len(),
                r@ == self.amplitudes@.subrange(0, k as int),
            decreases self.amplitudes@.len() - k,
        {
            r.push(self.amplitudes[k]);
            k = k + 1;
            assert(r@ =~= self.amplitudes@.subrange(0, k as int));
        }
        assert(r@ =~= self.amplitudes@);
        r
    }

    /// The amplitudes after `gate` is applied to the selected pairs of qubit
    /// `qubit`, read from the current buffer into a fresh one.
    fn paired_update<G: Copy, F: Fn(G, A, A) -> (A, A)>(
        &self,
        gate: G,
        qubit: usize,
        control: Option<usize>,
        apply: &F,
    ) -> (out: Vec<A>)
        requires
            self.wf(),
            qubit < self.qubits(),
            control is Some ==> control->Some_0 < self.qubits(),
            forall|a: A, b: A| apply.requires((gate, a, b)),
        ensures
            pairs_updated(
                self@,
                out@,
                qubit as nat,
                match control {
                    None => None,
                    Some(c) => Some(c as nat),
                },
                gate,
                *apply,
            ),
    {
        let ghost ctl: Option<nat> = match control {
            None => None,
            Some(c) => Some(c as nat),
        };
        let cstride: usize = match control {
            None => 1,
            Some(c) => pow2_exec(c),
        };
        proof {
            if let Some(c) = control {
                lemma_pow2_positive(c as nat);
            }
        }
        let ghost src = self@;
        let ghost q = qubit as nat;
        let ghost s = pow2(q) as int;
        let ghost nblocks = pow2((self.num_qubits - qubit - 1) as nat) as int;
        let size = self.amplitudes.len();
        let stride = pow2_exec(qubit);
        proof {
            lemma_pow2_blocks(q, self.num_qubits as nat);
            lemma_pow2_positive((self.num_qubits - qubit - 1) as nat);
            lemma_pow2_positive(q);
        }
        assert(2 * s <= size) by (nonlinear_arith)
            requires
                size == nblocks * (2 * s),
                nblocks >= 1,
                s >= 1,
        ;
        let block = stride * 2;
        let mut out = self.copy_amplitudes();
        let mut base: usize = 0;
        let ghost mut b: int = 0;
        while base < size
            invariant
                size == src.len(),
                self@ == src,
                stride == s,
                s == pow2(q),
                control is Some ==> cstride == pow2(ctl->Some_0),
                cstride >= 1,
                ctl == match control {
                    None => None,
                    Some(c) => Some(c as nat),
                },
                s >= 1,
                block == 2 * s,
                size == nblocks * block,
                0 <= b <= nblocks,
                base == b * block,
                base <= size,
                forall|a: A, c: A| apply.requires((gate, a, c)),
                out@.len() == size,
                forall|k: int| base <= k < size ==> out@[k] == src[k],
                forall|i: int|
                    #![trigger bit_set(i, q)]
                    0 <= i < base && !bit_set(i, q) ==> {
                        &&& i + s < base
                        &&& pair_done(src, out@, i, s, ctl, gate, *apply)
                    },
            decreases size - base,
        {
            assert(base + block <= size) by (nonlinear_arith)
                requires
                    base == b * block,
                    size == nblocks * block,
                    base < size,
                    block >= 0,
            ;
            let mut k: usize = 0;
            while k < stride
                invariant
                    size == src.len(),
                    self@ == src,
                    stride == s,
                    s == pow2(q),
                    control is Some ==> cstride == pow2(ctl->Some_0),
                    cstride >= 1,
                    ctl == match control {
                        None => None,
                        Some(c) => Some(c as nat),
                    },
                    block == 2 * s,
                    base + block <= size,
                    base == b * block,
                    b >= 0,
                    k <= stride,
                    forall|a: A, c: A| apply.requires((gate, a, c)),
                    out@.len() == size,
                    forall|j: int|
                        (base + k <= j < base + s || base + s + k <= j < size) ==> out@[j]
                            == src[j],
                    forall|i: int|
                        #![trigger bit_set(i, q)]
                        0 <= i < base && !bit_set(i, q) ==> {
                            &&& i + s < base
                            &&& pair_done(src, out@, i, s, ctl, gate, *apply)
                        },
                    forall|i: int|
                        #![trigger bit_set(i, q)]
                        base <= i < base + k ==> {
                            &&& !bit_set(i, q)
                            &&& pair_done(src, out@, i, s, ctl, gate, *apply)
                        },
                decreases stride - k,
            {
                let lo = base + k;
                let hi = lo + stride;
                let ghost old_out = out@;
                let chosen = match control {
                    None => true,
                    Some(_) => (lo / cstride) % 2 == 1,
                };
                assert(chosen == selected(lo as int, ctl));
                if chosen {
                    let (a0, a1) = apply(gate, self.amplitudes[lo], self.amplitudes[hi]);
                    out.set(lo, a0);
                    out.set(hi, a1);
                }
                k = k + 1;
                proof {
                    assert(lo == (2 * b) * s + (lo - base)) by (nonlinear_arith)
                        requires
                            base == b * block,
                            block == 2 * s,
                    ;
                    lemma_bit_of_block(2 * b, lo - base, q);
                    assert(!bit_set(lo as int, q));
                    assert(pair_done(src, out@, lo as int, s, ctl, gate, *apply));
                    assert forall|i2: int|
                        #![trigger bit_set(i2, q)]
                        base <= i2 < base + k implies {
                            &&& !bit_set(i2, q)
                            &&& pair_done(src, out@, i2, s, ctl, gate, *apply)
                        } by {
                        if i2 < lo {
                            assert(!bit_set(i2, q));
                            assert(out@[i2] == old_out[i2]);
                            assert(out@[i2 + s] == old_out[i2 + s]);
                        }
                    }
                }
            }
            proof {
                assert forall|i: int|
                    #![trigger bit_set(i, q)]
                    0 <= i < base + block && !bit_set(i, q) implies {
                        &&& i + s < base + block
                        &&& pair_done(src, out@, i, s, ctl, gate, *apply)
                    } by {
                    if i >= base {
                        if i >= base + s {
                            assert(i == (2 * b + 1) * s + (i - base - s)) by (nonlinear_arith)
                                requires
                                    base == b * block,
                                    block == 2 * s,
                            ;
                            lemma_bit_of_block(2 * b + 1, i - base - s, q);
                        }
                    }
                }
                assert((b + 1) * block == base + block) by (nonlinear_arith)
                    requires
                        base == b * block,
                ;
            }
            base = base + block;
            proof {
                b = b + 1;
            }
        }
        out
    }

    /// Applies the single-qubit gate `gate` to qubit `qubit`: each pair
    /// `(i, i + 2^qubit)` with bit `qubit` of `i` clear becomes what `apply`
    /// makes of `gate` and that pair. A qubit outside the register is
    /// refused and leaves the state as it was.
    pub fn apply_single_gate<G: Copy, F: Fn(G, A, A) -> (A, A)>(
        &mut self,
        gate: G,
        qubit: usize,
        apply: &F,
    ) -> (r: Result<(), SimError>)
        requires
            old(self).wf(),
            forall|a: A, b: A| apply.requires((gate, a, b)),
        ensures
            final(self).wf(),
            final(self).qubits() == old(self).qubits(),
            r == (if qubit >= old(self).qubits() {
                Err(SimError::InvalidQubitIndex)
            } else {
                Ok(())
            }),
            r is Err ==> final(self)@ == old(self)@,
            r is Ok ==> single_gate_applied(old(self)@, final(self)@, qubit as nat, gate, *apply),
    {
        if qubit >= self.num_qubits {
            return Err(SimError::InvalidQubitIndex);
        }
        self.amplitudes = self.paired_update(gate, qubit, None, apply);
        Ok(())
    }

    /// Applies `gate` to qubit `target` in the basis states where qubit
    /// `control` is 1, and keeps the amplitudes where it is 0. Refused,
    /// leaving the state as it was, where either qubit is outside the
    /// register or the two are the same.
    pub fn apply_controlled_gate<G: Copy, F: Fn(G, A, A) -> (A, A)>(
        &mut self,
        gate: G,
        control: usize,
        target: usize,
        apply: &F,
    ) -> (r: Result<(), SimError>)
        requires
            old(self).wf(),
            forall|a: A, b: A| apply.requires((gate, a, b)),
        ensures
            final(self).wf(),
            final(self).qubits() == old(self).qubits(),
            r == (if control >= old(self).qubits() || target >= old(self).qubits() || control
                == target {
                Err(SimError::InvalidQubitIndex)
            } else {
                Ok(())
            }),
            r is Err ==> final(self)@ == old(self)@,
            r is Ok ==> controlled_gate_applied(
                old(self)@,
                final(self)@,
                control as nat,
                target as nat,
                gate,
                *apply,
            ),
    {
        if control >= self.num_qubits || target >= self.num_qubits || control == target {
            return Err(SimError::InvalidQubitIndex);
        }
        self.amplitudes = self.paired_update(gate, target, Some(control), apply);
        Ok(())
    }

    /// The probability of measuring basis state `index`: what `norm_sqr`
    /// makes of its amplitude, and `zero` for an index past the last basis
    /// state.
    pub fn get_probability<P, N: Fn(A) -> P>(&self, index: usize, norm_sqr: &N, zero: P) -> (r: P)
        requires
            forall|a: A| norm_sqr.requires((a,)),
        ensures
            index < self@.len() ==> norm_sqr.ensures((self@[index as int],), r),
            index >= self@.len() ==> r == zero,
    {
        if index < self.amplitudes.len() {
            norm_sqr(self.amplitudes[index])
        } else {
            zero
        }
    }
}

} // verus!
