//! The Euler up/down ("zigzag") numbers `1, 1, 1, 2, 5, 16, 61, 272, ...`,
//! produced one at a time by Seidel's triangular recurrence (the
//! boustrophedon transform).
//!
//! The mathematical model: `seidel_rows(n)` is the row of partial sums the
//! recurrence has built after `n` steps, and the `n`-th zigzag number is the
//! head of the row built by step `n + 1`.

use vstd::prelude::*;

use crate::big::{big_add, big_clone, big_from_u64, big_int_value};

verus! {

/// The integers held by a row buffer.
pub open spec fn int_row(s: Seq<num_bigint::BigInt>) -> Seq<int> {
    s.map_values(|z: num_bigint::BigInt| big_int_value(z))
}

/// The running sums one Seidel step reads off the previous row from right to
/// left: `row_accum(prev, j)` is the sum of the last `j + 1` entries of `prev`.
pub open spec fn row_accum(prev: Seq<int>, j: int) -> int
    decreases j,
{
    if j <= 0 {
        prev.last()
    } else {
        row_accum(prev, j - 1) + prev[prev.len() - 1 - j]
    }
}

/// One step of Seidel's recurrence: the row built from the previous row.
/// An empty previous row seeds the triangle with `[1]`; otherwise the new row
/// lists the running sums and repeats the final one.
pub open spec fn seidel_step(prev: Seq<int>) -> Seq<int> {
    if prev.len() == 0 {
        seq![1int]
    } else {
        Seq::new(
            (prev.len() + 1) as nat,
            |j: int|
                if j < prev.len() {
                    row_accum(prev, j)
                } else {
                    row_accum(prev, prev.len() - 1)
                },
        )
    }
}

/// The row Seidel's recurrence has built after `n` steps.
pub open spec fn seidel_rows(n: nat) -> Seq<int>
    decreases n,
{
    if n == 0 {
        Seq::empty()
    } else {
        seidel_step(seidel_rows((n - 1) as nat))
    }
}

/// The `n`-th zigzag (Euler up/down) number, 0-indexed.
pub open spec fn zigzag(n: nat) -> int {
    seidel_rows(n + 1).first()
}

/// Each step grows the row by exactly one entry.
pub proof fn lemma_rows_len(n: nat)
    ensures
        seidel_rows(n).len() == n,
    decreases n,
{
    if n > 0 {
        lemma_rows_len((n - 1) as nat);
    }
}

/// A resumable, conceptually infinite generator of the zigzag numbers.
///
/// `source` and `sink` are the two row buffers of Seidel's recurrence; their
/// roles swap at the start of every step, so no row is ever copied whole.
pub struct EulerUpDown {
    source: Vec<num_bigint::BigInt>,
    sink: Vec<num_bigint::BigInt>,
}

impl EulerUpDown {
    /// How many terms this generator has produced so far.
    pub closed spec fn count(self) -> nat {
        self.sink@.len()
    }

    /// The total space the two row buffers occupy, in entries.
    pub closed spec fn buffer_size(self) -> nat {
        self.source@.len() + self.sink@.len()
    }

    /// Between calls, the read buffer is drained and the write buffer holds
    /// exactly the row that Seidel's recurrence reaches after `count` steps.
    pub closed spec fn inv(self) -> bool {
        &&& self.source@.len() == 0
        &&& int_row(self.sink@) == seidel_rows(self.count())
    }

    /// Produce the next zigzag number. The sequence never runs out, so the
    /// result is always `Some`.
    #[verifier::loop_isolation(false)]
    pub fn next(&mut self) -> (r: Option<num_bigint::BigInt>)
        requires
            old(self).inv(),
        ensures
            final(self).inv(),
            final(self).count() == old(self).count() + 1,
            r matches Some(z) && big_int_value(z) == zigzag(old(self).count()),
    {
        let ghost n = old(self).count();
        proof {
            lemma_rows_len(n);
        }
        core::mem::swap(&mut self.source, &mut self.sink);
        let ghost prev = int_row(self.source@);
        let ghost k = prev.len();
        let mut accum: num_bigint::BigInt;
        match self.source.pop() {
            None => {
                // The very first step: the removed value is taken to be 1 and
                // seeds the triangle.
                accum = big_from_u64(1);
            },
            Some(first) => {
                self.sink.push(big_clone(&first));
                accum = first;
            },
        }
        let item = big_clone(&accum);
        proof {
            assert(int_row(self.source@) =~= prev.take(self.source@.len() as int));
            if k > 0 {
                assert(int_row(self.sink@) =~= Seq::new(1nat, |j: int| row_accum(prev, j)));
            }
        }
        while self.source.len() > 0
            invariant
                self.source@.len() <= k,
                k > 0 ==> self.source@.len() < k,
                k == 0 ==> self.source@.len() == 0,
                int_row(self.source@) =~= prev.take(self.source@.len() as int),
                big_int_value(accum) == (if k == 0 {
                    1int
                } else {
                    row_accum(prev, k - 1 - self.source@.len())
                }),
                int_row(self.sink@) =~= (if k == 0 {
                    Seq::<int>::empty()
                } else {
                    Seq::new((k - self.source@.len()) as nat, |j: int| row_accum(prev, j))
                }),
            decreases self.source@.len(),
        {
            let ghost src0 = self.source@;
            let ghost t = src0.len() as int;
            let next_entry = self.source.pop().unwrap();
            proof {
                assert(next_entry == src0[t - 1]);
                assert(big_int_value(next_entry) == int_row(src0)[t - 1]);
                assert(big_int_value(next_entry) == prev[t - 1]);
                assert(row_accum(prev, k - t) == row_accum(prev, k - t - 1) + prev[prev.len() - 1
                    - (k - t)]);
                assert(int_row(self.source@) =~= prev.take(self.source@.len() as int));
            }
            accum = big_add(&accum, &next_entry);
            let ghost sink0 = self.sink@;
            self.sink.push(big_clone(&accum));
            proof {
                let target = Seq::new((k - self.source@.len()) as nat, |j: int| row_accum(prev, j));
                assert(int_row(sink0).len() == sink0.len());
                assert(sink0.len() == k - t);
                assert(big_int_value(accum) == row_accum(prev, k - t));
                assert forall|j: int| 0 <= j < self.sink@.len() implies int_row(self.sink@)[j]
                    == target[j] by {
                    if j < sink0.len() {
                        assert(self.sink@[j] == sink0[j]);
                        assert(int_row(self.sink@)[j] == int_row(sink0)[j]);
                        assert(int_row(sink0)[j] == row_accum(prev, j));
                    } else {
                        assert(j == k - t);
                        assert(big_int_value(self.sink@[j]) == big_int_value(accum));
                    }
                }
                assert(int_row(self.sink@) =~= target);
            }
        }
        let ghost closing = big_int_value(accum);
        let ghost sink0 = self.sink@;
        self.sink.push(accum);
        proof {
            assert forall|j: int| 0 <= j < self.sink@.len() implies int_row(self.sink@)[j]
                == seidel_step(prev)[j] by {
                if j < sink0.len() {
                    assert(self.sink@[j] == sink0[j]);
                    assert(int_row(self.sink@)[j] == int_row(sink0)[j]);
                } else {
                    assert(big_int_value(self.sink@[j]) == closing);
                }
            }
            assert(int_row(self.sink@) =~= seidel_step(prev));
            lemma_rows_len(n + 1);
        }
        Some(item)
    }

    /// Produce the next `count` terms as an ordered list; the bulk form of
    /// repeated single-term production.
    #[verifier::loop_isolation(false)]
    pub fn next_terms(&mut self, count: usize) -> (r: Vec<num_bigint::BigInt>)
        requires
            old(self).inv(),
        ensures
            final(self).inv(),
            final(self).count() == old(self).count() + count,
            r@.len() == count,
            forall|j: int|
                0 <= j < count ==> big_int_value(r@[j]) == zigzag((old(self).count() + j) as nat),
    {
        let ghost start = old(self).count();
        let mut out: Vec<num_bigint::BigInt> = Vec::new();
        let mut produced: usize = 0;
        while produced < count
            invariant
                produced <= count,
                self.inv(),
                self.count() == start + produced,
                out@.len() == produced,
                forall|j: int|
                    0 <= j < produced ==> big_int_value(out@[j]) == zigzag((start + j) as nat),
            decreases count - produced,
        {
            let z = self.next().unwrap();
            out.push(z);
            produced = produced + 1;
        }
        out
    }
}

impl Default for EulerUpDown {
    /// A fresh generator that has produced nothing: both row buffers empty,
    /// standing for the implicit row `[1]` before the first step.
    fn default() -> (r: Self)
        ensures
            r.inv(),
            r.count() == 0,
    {
        let source: Vec<num_bigint::BigInt> = Vec::new();
        let sink: Vec<num_bigint::BigInt> = Vec::new();
        proof {
            assert(int_row(sink@) =~= seidel_rows(0));
        }
        EulerUpDown { source, sink }
    }
}

/// Determinism: two runs that each produce the first `n` terms agree term by
/// term, so the runs are equal as sequences.
pub proof fn law_zigzag_deterministic(a: Seq<int>, b: Seq<int>, n: nat)
    requires
        a.len() == n,
        b.len() == n,
        forall|j: int| 0 <= j < n ==> a[j] == zigzag(j as nat),
        forall|j: int| 0 <= j < n ==> b[j] == zigzag(j as nat),
    ensures
        a =~= b,
{
}

/// Resumability: terms taken in two batches, the second resuming where the
/// first stopped, concatenate to the terms taken in one batch.
pub proof fn law_zigzag_resumable(a: Seq<int>, b: Seq<int>, c: Seq<int>)
    requires
        forall|j: int| 0 <= j < a.len() ==> a[j] == zigzag(j as nat),
        forall|j: int| 0 <= j < b.len() ==> b[j] == zigzag((a.len() + j) as nat),
        c.len() == a.len() + b.len(),
        forall|j: int| 0 <= j < c.len() ==> c[j] == zigzag(j as nat),
    ensures
        a + b =~= c,
{
    assert forall|j: int| 0 <= j < c.len() implies (a + b)[j] == c[j] by {
        if j >= a.len() {
            assert((a + b)[j] == b[j - a.len()]);
        }
    }
}

/// Monotonic cost: under the invariant, the buffers hold exactly one entry
/// per produced term, so space after the `n`-th term is linear in `n`.
pub proof fn law_buffer_linear(s: EulerUpDown)
    requires
        s.inv(),
    ensures
        s.buffer_size() == s.count(),
{
}

/// Every entry of every Seidel row is at least 1.
pub proof fn lemma_row_positive(n: nat)
    ensures
        forall|j: int| 0 <= j < seidel_rows(n).len() ==> seidel_rows(n)[j] >= 1,
    decreases n,
{
    if n > 0 {
        lemma_row_positive((n - 1) as nat);
        let prev = seidel_rows((n - 1) as nat);
        if prev.len() > 0 {
            assert forall|j: int| 0 <= j < prev.len() implies row_accum(prev, j) >= 1 by {
                lemma_accum_positive(prev, j);
            }
        }
    }
}

proof fn lemma_accum_positive(prev: Seq<int>, j: int)
    requires
        0 <= j < prev.len(),
        forall|i: int| 0 <= i < prev.len() ==> prev[i] >= 1,
    ensures
        row_accum(prev, j) >= j + 1,
    decreases j,
{
    if j > 0 {
        lemma_accum_positive(prev, j - 1);
    }
}

/// Every zigzag number is a positive integer.
pub proof fn lemma_zigzag_positive(n: nat)
    ensures
        zigzag(n) >= 1,
{
    lemma_rows_len(n + 1);
    lemma_row_positive(n + 1);
}

} // verus!

