//! The lazy permutation generator.
//!
//! A [`PermutationGenerator`] owns the source sequence, a mixed-radix counter
//! over the factorial number system, and one reusable output buffer.  Each
//! call to [`PermutationGenerator::next`] advances the counter by one,
//! rebuilds the buffer as the permutation the counter denotes, and hands the
//! buffer out by reference — or signals exhaustion once all `n!` permutations
//! have been produced.  After construction no further allocation occurs.

use vstd::prelude::*;

use crate::model::{
    all_zero, apply_from, apply_perm, fact, lemma_apply_perm_identity, lemma_apply_perm_multiset,
    lemma_fact_pos, lemma_rank_all_max, lemma_rank_all_zero, lemma_rank_bound, lemma_rank_step,
    rank_of, swap_seq, wf_digits,
};

verus! {

/// Write `v` at position `i` of `d`.
///
/// The counter digits live in a field of the generator, whose type invariant
/// is checked as soon as a mutation of the field completes; routing the write
/// through this function pins the written value at that point.
fn set_digit(d: &mut Vec<usize>, i: usize, v: usize)
    requires
        i < old(d)@.len(),
    ensures
        final(d)@ == old(d)@.update(i as int, v),
    no_unwind
{
    d[i] = v;
}

/// Produces every permutation of a source sequence, one per step, in constant
/// extra memory and linear time per step.
///
/// The permutation space is indexed by the counter held in `indices`: digit
/// `i` ranges over `[0, i]`, so the counter takes exactly
/// `1 * 2 * ... * n == n!` states, and each state denotes one chain of
/// transpositions (see [`crate::model::apply_perm`]).  Stepping the generator
/// advances the counter like an odometer and rebuilds `latest` in place.
pub struct PermutationGenerator<T> {
    /// The elements being permuted; immutable after construction.
    source: Vec<T>,
    /// The mixed-radix counter: `indices[i]` ranges over `[0, i]`.
    indices: Vec<usize>,
    /// The output buffer, overwritten on every step.
    latest: Vec<T>,
    /// True once the identity permutation has been delivered.
    started: bool,
    /// True once the counter has wrapped: no permutations remain.
    done: bool,
}

impl<T> PermutationGenerator<T> {
    #[verifier::type_invariant]
    spec fn well_formed(self) -> bool {
        &&& self.indices@.len() == self.source@.len()
        &&& self.latest@.len() == self.source@.len()
        &&& wf_digits(self.indices@)
        &&& (self.done ==> self.started)
        &&& (self.source@.len() == 0 ==> !self.started && !self.done)
        &&& (!self.started ==> self.latest@ == self.source@ && all_zero(self.indices@))
    }

    /// The source sequence, as handed to the constructor.
    pub closed spec fn elems(self) -> Seq<T> {
        self.source@
    }

    /// The current state of the mixed-radix counter.
    pub closed spec fn counter(self) -> Seq<usize> {
        self.indices@
    }

    /// The contents of the output buffer.
    pub closed spec fn buffer(self) -> Seq<T> {
        self.latest@
    }

    /// Whether the identity permutation has been delivered.
    pub closed spec fn started(self) -> bool {
        self.started
    }

    /// Whether the enumeration is exhausted.
    pub closed spec fn done(self) -> bool {
        self.done
    }

    /// How many permutations the generator yields in total: `n!` for a
    /// non-empty source of length `n`, and none at all for an empty one.
    pub open spec fn total(self) -> nat {
        if self.elems().len() == 0 {
            0
        } else {
            fact(self.elems().len())
        }
    }

    /// How many permutations have been produced so far.
    pub open spec fn produced(self) -> nat {
        if !self.started() {
            0
        } else if self.done() {
            self.total()
        } else {
            rank_of(self.counter()) + 1
        }
    }

    /// How many permutations are still to come.
    pub open spec fn remaining(self) -> int {
        self.total() - self.produced()
    }
}

impl<T: Copy> PermutationGenerator<T> {
    /// Create a generator over `source`.
    ///
    /// This is the only place memory is reserved: the counter starts at all
    /// zeros (rank `0`) and the output buffer starts as a copy of `source`,
    /// and both are reused, never reallocated, by every later step.
    pub fn new(source: Vec<T>) -> (g: Self)
        ensures
            g.elems() == source@,
            g.buffer() == source@,
            g.counter().len() == source@.len(),
            all_zero(g.counter()),
            !g.started(),
            !g.done(),
            g.produced() == 0,
            g.remaining() == g.total(),
    {
        let len = source.len();

        let mut latest: Vec<T> = Vec::with_capacity(len);
        let mut i: usize = 0;
        while i < len
            invariant
                i <= len,
                len == source@.len(),
                latest@.len() == i,
                forall|k: int| 0 <= k < i ==> latest@[k] == source@[k],
            decreases len - i,
        {
            latest.push(source[i]);
            i += 1;
        }
        proof {
            assert(latest@ =~= source@);
        }

        let mut indices: Vec<usize> = Vec::with_capacity(len);
        let mut j: usize = 0;
        while j < len
            invariant
                j <= len,
                indices@.len() == j,
                forall|k: int| 0 <= k < j ==> indices@[k] == 0,
            decreases len - j,
        {
            indices.push(0);
            j += 1;
        }

        PermutationGenerator { source, indices, latest, started: false, done: false }
    }

    /// Produce the next permutation, or signal exhaustion with `None`.
    ///
    /// The returned reference aliases the generator's internal buffer and is
    /// overwritten by the next call, so it must be consumed or copied first.
    /// The first produced permutation is the source itself; each later one is
    /// the transposition chain denoted by the advanced counter.  Exactly
    /// `n!` permutations are produced for a non-empty source of length `n`
    /// and none for an empty one, and once `None` has been returned every
    /// further call returns `None` and leaves the generator unchanged.
    pub fn next(&mut self) -> (r: Option<&Vec<T>>)
        ensures
            final(self).elems() == old(self).elems(),
            (r is Some) <==> old(self).remaining() > 0,
            final(self).remaining() == if r is Some {
                old(self).remaining() - 1
            } else {
                0
            },
            final(self).produced() == if r is Some {
                old(self).produced() + 1
            } else {
                old(self).total()
            },
            final(self).started() == (old(self).started() || r is Some),
            final(self).done() == (old(self).done() || (r is None && old(self).elems().len()
                > 0)),
            r matches Some(v) ==> v@ == final(self).buffer(),
            r is Some ==> final(self).counter().len() == old(self).elems().len(),
            r is Some ==> wf_digits(final(self).counter()),
            r is Some ==> rank_of(final(self).counter()) == old(self).produced(),
            r is Some ==> final(self).buffer() == apply_perm(
                old(self).elems(),
                final(self).counter(),
            ),
            r is Some ==> final(self).buffer().to_multiset() == old(self).elems().to_multiset(),
            r is Some ==> final(self).buffer().len() == old(self).elems().len(),
            !old(self).started() && old(self).elems().len() > 0 ==> r is Some
                && final(self).buffer() == old(self).elems(),
            old(self).done() ==> r is None && *final(self) == *old(self),
            old(self).elems().len() == 0 ==> r is None && *final(self) == *old(self),
    {
        proof {
            use_type_invariant(&*self);
        }
        // Exhausted: stay exhausted.
        if self.done {
            return None;
        }
        let len = self.source.len();
        // An empty sequence has no permutations at all.
        if len == 0 {
            return None;
        }
        // The first permutation is the identity: the buffer still equals the
        // source and the counter still reads zero.
        if !self.started {
            self.started = true;
            proof {
                lemma_fact_pos(len as nat);
                lemma_rank_all_zero(self.indices@);
                lemma_apply_perm_identity(self.source@, self.indices@);
            }
            return Some(&self.latest);
        }

        let ghost src = self.source@;
        let ghost d1 = self.indices@;

        // Advance the counter, least-significant digit first: a digit at its
        // maximum resets to zero and carries, the first digit with room
        // absorbs the carry and stops the scan.
        let mut wrapped: bool = true;
        let mut i: usize = 0;
        while wrapped && i < len
            invariant
                i <= len,
                len == src.len(),
                len == d1.len(),
                wf_digits(d1),
                self.source@ == src,
                self.latest@.len() == len,
                self.indices@.len() == len,
                self.started,
                !self.done,
                forall|k: int| 0 <= k < i ==> #[trigger] d1[k] == k,
                forall|k: int| 0 <= k < i ==> #[trigger] self.indices@[k] == 0,
                wrapped ==> forall|k: int| i <= k < len ==> #[trigger] self.indices@[k] == d1[k],
                !wrapped ==> i < len && d1[i as int] < i && self.indices@[i as int] == d1[i as int]
                    + 1 && (forall|k: int|
                    i < k < len ==> #[trigger] self.indices@[k] == d1[k]),
            decreases len - i + (if wrapped { 1int } else { 0int }),
        {
            proof {
                use_type_invariant(&*self);
            }
            let digit = self.indices[i];
            if digit >= i {
                set_digit(&mut self.indices, i, 0);
                i += 1;
            } else {
                set_digit(&mut self.indices, i, digit + 1);
                wrapped = false;
            }
        }

        if wrapped {
            // Every digit carried: the counter has rolled over after the last
            // permutation, so the enumeration is exhausted.
            self.done = true;
            proof {
                lemma_rank_all_max(d1);
            }
            return None;
        }

        let ghost d2 = self.indices@;
        proof {
            lemma_rank_step(d1, d2, i as int);
            lemma_rank_bound(d2);
        }

        // Rebuild the buffer as a fresh copy of the source ...
        let mut j: usize = 0;
        while j < len
            invariant
                j <= len,
                len == src.len(),
                self.source@ == src,
                self.indices@ == d2,
                self.latest@.len() == len,
                self.started,
                !self.done,
                forall|k: int| 0 <= k < j ==> self.latest@[k] == src[k],
            decreases len - j,
        {
            proof {
                use_type_invariant(&*self);
            }
            self.latest[j] = self.source[j];
            j += 1;
        }
        proof {
            assert(self.latest@ =~= src);
        }

        // ... and apply the transposition chain the counter denotes: step `m`
        // swaps position `m` with the position `delta` further on, where
        // `delta` is the counter digit read from the high end.
        let mut m: usize = 0;
        while m < len - 1
            invariant
                m <= len - 1,
                1 <= len,
                len == src.len(),
                len == d2.len(),
                wf_digits(d2),
                self.source@ == src,
                self.indices@ == d2,
                self.latest@.len() == len,
                self.started,
                !self.done,
                apply_from(self.latest@, d2, m as int) == apply_perm(src, d2),
            decreases len - 1 - m,
        {
            proof {
                use_type_invariant(&*self);
            }
            let delta = self.indices[len - 1 - m];
            proof {
                assert(d2[len - 1 - m as int] <= len - 1 - m as int);
            }
            let ghost before = self.latest@;
            let a = self.latest[m];
            let b = self.latest[m + delta];
            self.latest[m] = b;
            self.latest[m + delta] = a;
            proof {
                assert(self.latest@ == swap_seq(before, m as int, m + delta));
                assert(apply_from(before, d2, m as int) == apply_from(
                    swap_seq(before, m as int, m + delta),
                    d2,
                    m as int + 1,
                ));
            }
            m += 1;
        }

        proof {
            lemma_apply_perm_multiset(src, d2);
        }
        Some(&self.latest)
    }
}

} // verus!
