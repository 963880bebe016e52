//! The totality check: every state but the halt state has to have a
//! transition for every symbol of the tape alphabet.

use crate::def::{TuringDef, TuringDefView};
use vstd::prelude::*;

verus! {

/// The state `.0` has no transition for the tape symbol `.1`.
#[derive(Clone, Copy, Debug, PartialEq, Eq, Structural)]
pub struct TuringVerifyError(pub usize, pub char);

impl TuringDefView {
    /// Whether the table has an entry for `state` and the `k`-th symbol of the
    /// tape alphabet.
    pub open spec fn covers(self, state: int, k: int) -> bool {
        self.transition(state as u8, self.tape_alphabet[k]) is Some
    }

    /// Whether every state that needs transitions has one for every symbol of
    /// the tape alphabet.
    pub open spec fn is_total(self) -> bool {
        forall|state: int, k: int|
            self.needs_transitions(state) && 0 <= k < self.tape_alphabet.len()
                ==> #[trigger] self.covers(state, k)
    }

    /// The first index from `k` on of a tape symbol for which `state` has no
    /// entry.
    pub open spec fn first_gap_in_state(self, state: int, k: int) -> Option<int>
        decreases self.tape_alphabet.len() - k,
    {
        if k < 0 || k >= self.tape_alphabet.len() {
            None
        } else if !self.covers(state, k) {
            Some(k)
        } else {
            self.first_gap_in_state(state, k + 1)
        }
    }

    /// The first pair of a state from `state` on and the index of a tape
    /// symbol for which an entry is missing, in the order of the states and,
    /// within one state, of the tape alphabet.
    pub open spec fn first_gap(self, state: int) -> Option<(int, int)>
        decreases self.state_count + 1 - state,
    {
        if state < 1 || state > self.state_count {
            None
        } else if state != self.end_state && self.first_gap_in_state(state, 0) is Some {
            Some((state, self.first_gap_in_state(state, 0)->0))
        } else {
            self.first_gap(state + 1)
        }
    }

    /// The outcome of the totality check.
    pub open spec fn verify(self) -> Result<(), TuringVerifyError> {
        match self.first_gap(1) {
            None => Ok(()),
            Some((state, k)) => Err(TuringVerifyError(state as usize, self.tape_alphabet[k])),
        }
    }
}

/// `first_gap_in_state` finds nothing exactly when `state` has an entry for
/// every tape symbol from index `k` on, and otherwise yields the least index
/// from `k` on without one.
pub proof fn lemma_first_gap_in_state(d: TuringDefView, state: int, k: int)
    requires
        0 <= k,
    ensures
        d.first_gap_in_state(state, k) is None <==> forall|j: int|
            k <= j < d.tape_alphabet.len() ==> #[trigger] d.covers(state, j),
        d.first_gap_in_state(state, k) matches Some(g) ==> k <= g < d.tape_alphabet.len()
            && !d.covers(state, g) && forall|j: int| k <= j < g ==> #[trigger] d.covers(state, j),
    decreases d.tape_alphabet.len() - k,
{
    if k < d.tape_alphabet.len() {
        if d.covers(state, k) {
            lemma_first_gap_in_state(d, state, k + 1);
        }
    }
}

/// The check passes exactly on the total definitions. Where it fails, it
/// reports the first missing pair in the order of enumeration: the reported
/// state needs transitions and lacks one for the reported symbol, every state
/// before it that needs transitions has all of them, and the reported state
/// has one for every earlier symbol of the tape alphabet.
pub proof fn lemma_first_gap(d: TuringDefView, from: int)
    requires
        1 <= from,
    ensures
        d.first_gap(from) is None <==> forall|state: int, k: int|
            from <= state && d.needs_transitions(state) && 0 <= k < d.tape_alphabet.len()
                ==> #[trigger] d.covers(state, k),
        d.first_gap(from) matches Some((s, g)) ==> {
            &&& from <= s
            &&& d.needs_transitions(s)
            &&& 0 <= g < d.tape_alphabet.len()
            &&& !d.covers(s, g)
            &&& forall|j: int| 0 <= j < g ==> #[trigger] d.covers(s, j)
            &&& forall|state: int, k: int|
                from <= state < s && d.needs_transitions(state) && 0 <= k < d.tape_alphabet.len()
                    ==> #[trigger] d.covers(state, k)
        },
    decreases d.state_count + 1 - from,
{
    if from <= d.state_count {
        lemma_first_gap_in_state(d, from, 0);
        if from != d.end_state && d.first_gap_in_state(from, 0) is Some {
        } else {
            lemma_first_gap(d, from + 1);
        }
    }
}

/// Whether `(state, g)` is the first pair for which an entry is missing:
/// `state` needs transitions and lacks one for the `g`-th tape symbol, it has
/// one for every earlier tape symbol, and every state before it that needs
/// transitions has all of them.
pub open spec fn is_first_gap(d: TuringDefView, state: int, g: int) -> bool {
    &&& d.needs_transitions(state)
    &&& 0 <= g < d.tape_alphabet.len()
    &&& !d.covers(state, g)
    &&& forall|j: int| 0 <= j < g ==> #[trigger] d.covers(state, j)
    &&& forall|s: int, k: int|
        s < state && d.needs_transitions(s) && 0 <= k < d.tape_alphabet.len()
            ==> #[trigger] d.covers(s, k)
}

/// The totality check is a function of the definition: it passes exactly when
/// the definition is total, and what it reports on failure is the first
/// missing pair in the order of enumeration.
pub proof fn lemma_verify_deterministic(d: TuringDefView)
    ensures
        d.verify() is Ok <==> d.is_total(),
        d.verify() matches Err(e) ==> exists|g: int|
            #[trigger] is_first_gap(d, e.0 as int, g) && e.1 == d.tape_alphabet[g],
{
    lemma_first_gap(d, 1);
    if d.first_gap(1) is Some {
        let (s, g) = d.first_gap(1)->0;
        let e = d.verify()->Err_0;
        assert(e.0 as int == s);
        assert(is_first_gap(d, e.0 as int, g) && e.1 == d.tape_alphabet[g]);
    }
}

impl TuringDef {
    /// Checks that the transition table is total.
    ///
    /// Returns `Ok` exactly when every state but the halt state has an entry
    /// for every symbol of the tape alphabet. Otherwise returns the first
    /// missing pair, states in ascending order and, within one state, the
    /// symbols in the order of the tape alphabet.
    #[verifier::loop_isolation(false)]
    pub fn verify(&self) -> (r: Result<(), TuringVerifyError>)
        ensures
            r == self@.verify(),
            r is Ok <==> self@.is_total(),
    {
        proof {
            lemma_verify_deterministic(self@);
        }
        let n: usize = self.state_count as usize;
        let m: usize = self.tape_alphabet.len();
        let mut state: usize = 1;
        while state <= n
            invariant
                n == self.state_count,
                m == self.tape_alphabet.len(),
                1 <= state <= n + 1,
                self@.first_gap(1) == self@.first_gap(state as int),
            decreases n + 1 - state,
        {
            if state != self.end_state as usize {
                let mut k: usize = 0;
                while k < m
                    invariant
                        n == self.state_count,
                        m == self.tape_alphabet.len(),
                        1 <= state <= n,
                        k <= m,
                        self@.first_gap_in_state(state as int, 0) == self@.first_gap_in_state(
                            state as int,
                            k as int,
                        ),
                    decreases m - k,
                {
                    let symbol = self.tape_alphabet[k];
                    if self.find_transition(state as u8, symbol).is_none() {
                        return Err(TuringVerifyError(state, symbol));
                    }
                    k += 1;
                }
            }
            state += 1;
        }
        Ok(())
    }
}

} // verus!
