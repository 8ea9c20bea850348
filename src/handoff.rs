//! The ledger of results handed to a foreign caller. Each hand-off gets a fresh guard
//! token; a release is accepted once per token, so a second release of the same result
//! is caught instead of freeing its storage twice.
use vstd::prelude::*;

verus! {

/// The outstanding tokens after a hand-off that issued `token`.
pub open spec fn hand_off_spec(outstanding: Set<u64>, token: u64) -> Set<u64> {
    outstanding.insert(token)
}

/// Whether a release of `token` is accepted, and the outstanding tokens after it.
pub open spec fn release_spec(outstanding: Set<u64>, token: u64) -> (bool, Set<u64>) {
    (outstanding.contains(token), outstanding.remove(token))
}

/// Guard tokens of the results that are currently held by the foreign caller.
#[derive(Debug)]
pub struct HandoffLedger {
    outstanding: Vec<u64>,
    next_token: u64,
}

impl View for HandoffLedger {
    type V = Set<u64>;

    closed spec fn view(&self) -> Set<u64> {
        self.outstanding@.to_set()
    }
}

impl HandoffLedger {
    /// Tokens are distinct and all below the next one to issue.
    pub closed spec fn wf(&self) -> bool {
        &&& self.outstanding@.no_duplicates()
        &&& forall|i: int|
            0 <= i < self.outstanding@.len() ==> #[trigger] self.outstanding@[i] < self.next_token
    }

    /// The number of tokens issued so far; the next token to issue.
    pub closed spec fn issued(&self) -> u64 {
        self.next_token
    }

    pub fn new() -> (r: Self)
        ensures
            r.wf(),
            r@ == Set::<u64>::empty(),
            r.issued() == 0,
    {
        let r = HandoffLedger { outstanding: Vec::new(), next_token: 0 };
        assert(r@ =~= Set::<u64>::empty());
        r
    }

    /// The number of results still held by the caller.
    pub fn outstanding_count(&self) -> (r: usize)
        requires
            self.wf(),
        ensures
            r == self@.len(),
    {
        proof {
            self.outstanding@.unique_seq_to_set();
        }
        self.outstanding.len()
    }

    /// Records a hand-off and returns its fresh token; `None` once every token has been
    /// issued.
    pub fn hand_off(&mut self) -> (r: Option<u64>)
        requires
            old(self).wf(),
        ensures
            final(self).wf(),
            r is None <==> old(self).issued() == u64::MAX,
            r is Some ==> final(self).issued() == old(self).issued() + 1,
            r is None ==> final(self).issued() == old(self).issued(),
            match r {
                Some(t) => !old(self)@.contains(t) && final(self)@ == hand_off_spec(old(self)@, t),
                None => final(self)@ == old(self)@,
            },
    {
        if self.next_token == u64::MAX {
            return None;
        }
        let t = self.next_token;
        proof {
            assert(!self.outstanding@.contains(t));
        }
        self.outstanding.push(t);
        self.next_token = t + 1;
        proof {
            assert(self.outstanding@ == old(self).outstanding@.push(t));
            assert(self.outstanding@.to_set() =~= old(self).outstanding@.to_set().insert(t)) by {
                assert forall|x: u64| self.outstanding@.contains(x) <==> (old(
                    self,
                ).outstanding@.contains(x) || x == t) by {
                    if self.outstanding@.contains(x) {
                        let k = choose|k: int| 0 <= k < self.outstanding@.len() && self.outstanding@[k] == x;
                        if k < old(self).outstanding@.len() {
                            assert(old(self).outstanding@[k] == x);
                        }
                    }
                    if old(self).outstanding@.contains(x) {
                        let k = choose|k: int| 0 <= k < old(self).outstanding@.len() && old(
                            self,
                        ).outstanding@[k] == x;
                        assert(self.outstanding@[k] == x);
                    }
                    if x == t {
                        assert(self.outstanding@[self.outstanding@.len() - 1] == t);
                    }
                }
            }
        }
        Some(t)
    }

    /// Accepts the release of `token` if it is outstanding, and forgets it; returns `false`
    /// for a token that was never issued or was already released.
    pub fn release(&mut self, token: u64) -> (r: bool)
        requires
            old(self).wf(),
        ensures
            final(self).wf(),
            (r, final(self)@) == release_spec(old(self)@, token),
            final(self).issued() == old(self).issued(),
    {
        let mut i: usize = 0;
        while i < self.outstanding.len()
            invariant
                self.wf(),
                *self == *old(self),
                i <= self.outstanding@.len(),
                forall|k: int| 0 <= k < i ==> self.outstanding@[k] != token,
            decreases self.outstanding@.len() - i,
        {
            if self.outstanding[i] == token {
                let ghost before = self.outstanding@;
                self.outstanding.remove(i);
                proof {
                    assert(self.outstanding@ == before.remove(i as int));
                    assert forall|x: u64| self.outstanding@.contains(x) <==> (before.contains(x)
                        && x != token) by {
                        if self.outstanding@.contains(x) {
                            let k = choose|k: int| 0 <= k < self.outstanding@.len() && self.outstanding@[k] == x;
                            if k < i {
                                assert(before[k] == x);
                            } else {
                                assert(before[k + 1] == x);
                            }
                        }
                        if before.contains(x) && x != token {
                            let k = choose|k: int| 0 <= k < before.len() && before[k] == x;
                            if k < i {
                                assert(self.outstanding@[k] == x);
                            } else {
                                assert(k != i);
                                assert(self.outstanding@[k - 1] == x);
                            }
                        }
                    }
                    assert(self.outstanding@.to_set() =~= before.to_set().remove(token));
                    assert(before.to_set().contains(token));
                    assert forall|a: int, b: int|
                        0 <= a < b < self.outstanding@.len() implies self.outstanding@[a]
                        != self.outstanding@[b] by {
                        let a2 = if a < i { a } else { a + 1 };
                        let b2 = if b < i { b } else { b + 1 };
                        assert(before[a2] == self.outstanding@[a]);
                        assert(before[b2] == self.outstanding@[b]);
                    }
                    assert forall|k: int| 0 <= k < self.outstanding@.len() implies #[trigger] self.outstanding@[k]
                        < self.next_token by {
                        let k2 = if k < i { k } else { k + 1 };
                        assert(before[k2] == self.outstanding@[k]);
                    }
                }
                return true;
            }
            i = i + 1;
        }
        proof {
            assert(!self.outstanding@.contains(token));
            assert(self.outstanding@.to_set() =~= self.outstanding@.to_set().remove(token));
        }
        false
    }
}

/// Ownership round trip: a hand-off followed by the release of its token leaves exactly
/// the results that were outstanding before, and a second release of that token is
/// refused.
pub proof fn lemma_release_once(outstanding: Set<u64>, token: u64)
    requires
        !outstanding.contains(token),
    ensures
        release_spec(hand_off_spec(outstanding, token), token) == (true, outstanding),
        !release_spec(release_spec(hand_off_spec(outstanding, token), token).1, token).0,
{
    assert(outstanding.insert(token).remove(token) =~= outstanding);
}

} // verus!
