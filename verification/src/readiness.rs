//! The readiness check: decides, from the chain's answer about an account and
//! the wallet's stored candidate keys, whether a public key must be
//! revealed on chain before any transfer may proceed, and drives the
//! reveal submissions one key at a time.
//!
//! The surrounding application performs the actual chain query and the
//! transaction submissions; every decision in between is made here.

use vstd::prelude::*;
use crate::errors::Failure;
use crate::text::copy_strings;

verus! {

/// What the chain reports about an account: the public keys registered
/// for it, empty when nothing has been revealed yet.
pub struct AccountInfo {
    pub public_keys: Vec<String>,
}

/// An account counts as revealed exactly when it exists and its
/// public-key map is non-empty.
pub open spec fn account_revealed(info: Option<AccountInfo>) -> bool {
    info matches Some(a) && a.public_keys@.len() > 0
}

/// Derive the reveal state from a queried account record.
pub fn account_is_revealed(info: &Option<AccountInfo>) -> (r: bool)
    ensures
        r == account_revealed(*info),
{
    match info {
        Some(a) => a.public_keys.len() > 0,
        None => false,
    }
}

/// How an `ensure_revealed` run ends.
#[derive(Clone, Copy, Debug, PartialEq, Eq, Structural)]
pub enum RevealOutcome {
    /// The account's public-key map was already populated; nothing was
    /// submitted.
    AlreadyRevealed,
    /// Every candidate key was revealed by an accepted submission.
    Revealed,
    /// The query or a submission failed; the calling workflow must stop.
    Failed(Failure),
}

/// An outcome that lets a transfer proceed.
pub open spec fn reveal_ok(o: RevealOutcome) -> bool {
    o is AlreadyRevealed || o is Revealed
}

/// What the readiness check asks of its caller next.
#[derive(Debug, PartialEq, Eq)]
pub enum RevealAction {
    /// Build, sign with this key, and submit one reveal transaction, then
    /// report the result back.
    Submit(String),
    /// The reveal step has settled; no further work.
    Done(RevealOutcome),
}

/// Where the readiness check stands.
#[derive(Clone, Copy, Debug, PartialEq, Eq, Structural)]
pub enum RevealPhase {
    /// Waiting for the account query's result.
    AwaitQuery,
    /// Waiting for the result of the submission last handed out.
    AwaitSubmit,
    /// Finished, with an outcome.
    Settled,
}

/// The readiness check's state machine.
pub struct RevealCheck {
    phase: RevealPhase,
    keys: Vec<String>,
    submitted: Vec<String>,
    outcome: Option<RevealOutcome>,
}

impl RevealCheck {
    /// Where the readiness check stands.
    pub closed spec fn spec_phase(&self) -> RevealPhase {
        self.phase
    }

    /// The candidate keys fixed when the account turned out unrevealed.
    pub closed spec fn spec_keys(&self) -> Seq<Seq<char>> {
        self.keys.deep_view()
    }

    /// The keys handed out for submission so far, in order.
    pub closed spec fn spec_submitted(&self) -> Seq<Seq<char>> {
        self.submitted.deep_view()
    }

    /// The settled outcome, if any.
    pub closed spec fn spec_outcome(&self) -> Option<RevealOutcome> {
        self.outcome
    }

    /// The readiness invariant: submissions follow the candidate list in
    /// order, one per key, and each outcome constrains what was sent.
    pub open spec fn wf(&self) -> bool {
        &&& self.spec_submitted().len() <= self.spec_keys().len()
        &&& self.spec_submitted() == self.spec_keys().take(self.spec_submitted().len() as int)
        &&& match self.spec_phase() {
            RevealPhase::AwaitQuery => {
                &&& self.spec_keys().len() == 0
                &&& self.spec_submitted().len() == 0
                &&& self.spec_outcome() is None
            },
            RevealPhase::AwaitSubmit => {
                &&& 1 <= self.spec_submitted().len()
                &&& self.spec_outcome() is None
            },
            RevealPhase::Settled => {
                &&& self.spec_outcome() matches Some(o)
                &&& (self.spec_outcome()->0 is AlreadyRevealed ==> self.spec_submitted().len()
                    == 0)
                &&& (self.spec_outcome()->0 is Revealed ==> self.spec_submitted()
                    == self.spec_keys() && self.spec_keys().len() >= 1)
                &&& (self.spec_outcome()->0 matches RevealOutcome::Failed(f) && !(f
                    is ChainRejection) ==> self.spec_submitted().len() == 0)
            },
        }
    }

    /// A fresh readiness check, waiting for the account query.
    pub fn new() -> (g: RevealCheck)
        ensures
            g.wf(),
            g.spec_phase() is AwaitQuery,
            g.spec_submitted().len() == 0,
    {
        let g = RevealCheck {
            phase: RevealPhase::AwaitQuery,
            keys: Vec::new(),
            submitted: Vec::new(),
            outcome: None,
        };
        proof {
            assert(g.spec_submitted() =~= Seq::<Seq<char>>::empty());
            assert(g.spec_keys() =~= Seq::<Seq<char>>::empty());
            assert(g.spec_submitted() =~= g.spec_keys().take(0));
        }
        g
    }

    /// Feed in the chain's answer about the source account, together with
    /// the wallet's candidate keys.  A populated public-key map settles
    /// the readiness check at once with `AlreadyRevealed` and zero submissions; a
    /// failed query settles it with that failure; an unrevealed account
    /// starts one submission per candidate key, beginning with the first.
    pub fn on_account_query(
        &mut self,
        query: Result<Option<AccountInfo>, Failure>,
        candidates: &Vec<String>,
    ) -> (a: RevealAction)
        requires
            old(self).wf(),
            old(self).spec_phase() is AwaitQuery,
        ensures
            final(self).wf(),
            match query {
                Err(f) => {
                    &&& a == RevealAction::Done(RevealOutcome::Failed(f))
                    &&& final(self).spec_phase() is Settled
                    &&& final(self).spec_outcome() == Some(RevealOutcome::Failed(f))
                    &&& final(self).spec_submitted().len() == 0
                },
                Ok(info) => if account_revealed(info) {
                    &&& a == RevealAction::Done(RevealOutcome::AlreadyRevealed)
                    &&& final(self).spec_phase() is Settled
                    &&& final(self).spec_outcome() == Some(RevealOutcome::AlreadyRevealed)
                    &&& final(self).spec_submitted().len() == 0
                } else if candidates.deep_view().len() == 0 {
                    &&& a == RevealAction::Done(RevealOutcome::Failed(Failure::NotFound))
                    &&& final(self).spec_phase() is Settled
                    &&& final(self).spec_outcome() == Some(
                        RevealOutcome::Failed(Failure::NotFound),
                    )
                    &&& final(self).spec_submitted().len() == 0
                } else {
                    &&& final(self).spec_phase() is AwaitSubmit
                    &&& final(self).spec_keys() == candidates.deep_view()
                    &&& final(self).spec_submitted() =~= candidates.deep_view().take(1)
                    &&& a matches RevealAction::Submit(k) && k@ == candidates.deep_view()[0]
                },
            },
    {
        match query {
            Err(f) => {
                self.phase = RevealPhase::Settled;
                self.outcome = Some(RevealOutcome::Failed(f));
                RevealAction::Done(RevealOutcome::Failed(f))
            },
            Ok(info) => {
                if account_is_revealed(&info) {
                    self.phase = RevealPhase::Settled;
                    self.outcome = Some(RevealOutcome::AlreadyRevealed);
                    RevealAction::Done(RevealOutcome::AlreadyRevealed)
                } else if candidates.len() == 0 {
                    self.phase = RevealPhase::Settled;
                    self.outcome = Some(RevealOutcome::Failed(Failure::NotFound));
                    RevealAction::Done(RevealOutcome::Failed(Failure::NotFound))
                } else {
                    self.keys = copy_strings(candidates);
                    let first = self.keys[0].clone();
                    self.submitted.push(first.clone());
                    self.phase = RevealPhase::AwaitSubmit;
                    proof {
                        assert(self.spec_submitted() =~= self.spec_keys().take(1));
                    }
                    RevealAction::Submit(first)
                }
            },
        }
    }

    /// Feed in whether the submission last handed out was accepted.  A
    /// rejection ends the reveal run immediately — the remaining candidates
    /// are not attempted; an acceptance hands out the next candidate, or
    /// settles with `Revealed` once every candidate went through.
    pub fn on_submit_result(&mut self, accepted: bool) -> (a: RevealAction)
        requires
            old(self).wf(),
            old(self).spec_phase() is AwaitSubmit,
        ensures
            final(self).wf(),
            final(self).spec_keys() == old(self).spec_keys(),
            !accepted ==> {
                &&& a == RevealAction::Done(RevealOutcome::Failed(Failure::ChainRejection))
                &&& final(self).spec_phase() is Settled
                &&& final(self).spec_outcome() == Some(
                    RevealOutcome::Failed(Failure::ChainRejection),
                )
                &&& final(self).spec_submitted() == old(self).spec_submitted()
            },
            accepted && old(self).spec_submitted().len() < old(self).spec_keys().len() ==> {
                &&& final(self).spec_phase() is AwaitSubmit
                &&& final(self).spec_submitted() =~= old(self).spec_submitted().push(
                    old(self).spec_keys()[old(self).spec_submitted().len() as int],
                )
                &&& a matches RevealAction::Submit(k) && k@ == old(self).spec_keys()[old(
                    self,
                ).spec_submitted().len() as int]
            },
            accepted && old(self).spec_submitted().len() == old(self).spec_keys().len() ==> {
                &&& a == RevealAction::Done(RevealOutcome::Revealed)
                &&& final(self).spec_phase() is Settled
                &&& final(self).spec_outcome() == Some(RevealOutcome::Revealed)
                &&& final(self).spec_submitted() == old(self).spec_submitted()
            },
    {
        if !accepted {
            self.phase = RevealPhase::Settled;
            self.outcome = Some(RevealOutcome::Failed(Failure::ChainRejection));
            RevealAction::Done(RevealOutcome::Failed(Failure::ChainRejection))
        } else if self.submitted.len() < self.keys.len() {
            let next = self.submitted.len();
            let k = self.keys[next].clone();
            self.submitted.push(k.clone());
            proof {
                assert(self.spec_submitted() =~= old(self).spec_submitted().push(
                    old(self).spec_keys()[old(self).spec_submitted().len() as int],
                ));
                assert(self.spec_submitted() =~= self.spec_keys().take(
                    self.spec_submitted().len() as int,
                ));
            }
            RevealAction::Submit(k)
        } else {
            proof {
                assert(old(self).spec_submitted() =~= old(self).spec_keys());
            }
            self.phase = RevealPhase::Settled;
            self.outcome = Some(RevealOutcome::Revealed);
            RevealAction::Done(RevealOutcome::Revealed)
        }
    }

    /// Where the readiness check stands.
    pub fn phase(&self) -> (p: RevealPhase)
        ensures
            p == self.spec_phase(),
    {
        self.phase
    }

    /// How many reveal submissions have been handed out.
    pub fn submitted_count(&self) -> (n: usize)
        ensures
            n == self.spec_submitted().len(),
    {
        self.submitted.len()
    }

    /// The settled outcome, once the run is done.
    pub fn outcome(&self) -> (o: Option<RevealOutcome>)
        ensures
            o == self.spec_outcome(),
    {
        self.outcome
    }
}

/// Law: a readiness run attempts at most one reveal submission per candidate
/// key, in candidate order; a run that settles on `Revealed` submitted
/// exactly one reveal per candidate, and one that settles on
/// `AlreadyRevealed` submitted nothing.
pub proof fn lemma_one_submission_per_candidate(g: RevealCheck)
    requires
        g.wf(),
    ensures
        g.spec_submitted().len() <= g.spec_keys().len(),
        g.spec_submitted() == g.spec_keys().take(g.spec_submitted().len() as int),
        g.spec_outcome() == Some(RevealOutcome::Revealed) ==> g.spec_submitted()
            == g.spec_keys(),
        g.spec_outcome() == Some(RevealOutcome::AlreadyRevealed) ==> g.spec_submitted().len()
            == 0,
{
}

} // verus!
