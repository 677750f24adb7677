//! The transfer submitter: one state machine per transfer attempt,
//! running `Init -> AliasResolved -> RevealChecked -> Built -> Signed ->
//! Settled`.  The build, sign and submit work itself is the chain
//! client's; the machine decides what may happen next, validates the
//! request before anything is built, and records the outcome.

use vstd::prelude::*;
use crate::amount::{all_digits, dec_value, parse_amount};
use crate::errors::Failure;
use crate::readiness::{reveal_ok, RevealOutcome};
use crate::store::WalletStore;
use crate::text::copy_strings;

verus! {

/// The three transfer shapes the workflow submits.
#[derive(Clone, Copy, Debug, PartialEq, Eq, Structural)]
pub enum TransferKind {
    /// A direct token move between transparent addresses.
    Transparent,
    /// A transparent-to-shielded-pool deposit.
    Shielding,
    /// A cross-chain transfer over a channel to a foreign receiver.
    Ibc,
}

/// One transfer to attempt: constructed fresh per operation and consumed
/// by the submitter, never persisted.
pub struct TransferRequest {
    /// The wallet alias naming the source account.
    pub source_alias: String,
    /// The target address, payment address, or foreign receiver.
    pub target: String,
    /// The token address.
    pub token: String,
    /// The amount, as a decimal string of base units.
    pub amount: String,
    /// Which transfer shape to build.
    pub kind: TransferKind,
    /// The channel identifier, read only for cross-chain transfers.
    pub channel: String,
}

/// The structural checks owed before anything is built: a readable
/// amount, a named target, and a channel when one is needed.  Whether the
/// chain accepts the addresses is the chain client's verdict and arrives
/// as a build or submission failure.
pub open spec fn valid_request(r: TransferRequest) -> bool {
    &&& all_digits(r.amount@)
    &&& dec_value(r.amount@) <= u64::MAX
    &&& r.target@.len() > 0
    &&& (r.kind is Ibc ==> r.channel@.len() > 0)
}

/// Everything the chain client needs to build and sign one transfer: the
/// resolved source, the parsed amount, and the stored signing keys.
pub struct BuildPlan {
    pub kind: TransferKind,
    /// The resolved source address.
    pub source: String,
    pub target: String,
    pub token: String,
    /// The amount in base units.
    pub amount_units: u64,
    pub channel: String,
    /// The wallet's stored public keys, which sign the transfer.
    pub signing_keys: Vec<String>,
}

/// How a transfer attempt ends.
#[derive(Clone, Debug, PartialEq, Eq)]
pub enum SubmitOutcome {
    /// Accepted; carries the chain's receipt for display.
    Success(String),
    /// Stopped, early or at submission, with a cause.
    Failed(Failure),
}

/// Where a transfer attempt stands.
#[derive(Clone, Copy, Debug, PartialEq, Eq, Structural)]
pub enum FlowPhase {
    Init,
    AliasResolved,
    RevealChecked,
    Built,
    Signed,
    Settled,
}

/// The per-attempt state machine.
pub struct TransferFlow {
    request: TransferRequest,
    phase: FlowPhase,
    source: Option<String>,
    reveal: Option<RevealOutcome>,
    outcome: Option<SubmitOutcome>,
    submit_calls: u64,
}

impl TransferFlow {
    /// Where the attempt stands.
    pub closed spec fn spec_phase(&self) -> FlowPhase {
        self.phase
    }

    /// The request this attempt was built from.
    pub closed spec fn spec_request(&self) -> TransferRequest {
        self.request
    }

    /// The resolved source address, once the alias resolver ran.
    pub closed spec fn spec_source(&self) -> Option<Seq<char>> {
        match self.source {
            Some(ref s) => Some(s@),
            None => None,
        }
    }

    /// The readiness check's outcome, once recorded.
    pub closed spec fn spec_reveal(&self) -> Option<RevealOutcome> {
        self.reveal
    }

    /// The settled outcome, if any.
    pub closed spec fn spec_outcome(&self) -> Option<SubmitOutcome> {
        self.outcome
    }

    /// How many submissions this attempt has handed out.
    pub closed spec fn spec_submit_calls(&self) -> u64 {
        self.submit_calls
    }

    /// The machine's invariant.  Among much else: nothing is handed out
    /// for submission unless a recorded reveal outcome allows it, and one
    /// attempt submits at most once.
    pub open spec fn wf(&self) -> bool {
        &&& self.spec_submit_calls() <= 1
        &&& (self.spec_submit_calls() == 1 ==> {
            &&& self.spec_reveal() matches Some(o)
            &&& reveal_ok(o)
        })
        &&& match self.spec_phase() {
            FlowPhase::Init => {
                &&& self.spec_source() is None
                &&& self.spec_reveal() is None
                &&& self.spec_outcome() is None
                &&& self.spec_submit_calls() == 0
            },
            FlowPhase::AliasResolved => {
                &&& self.spec_source() is Some
                &&& self.spec_reveal() is None
                &&& self.spec_outcome() is None
                &&& self.spec_submit_calls() == 0
            },
            FlowPhase::RevealChecked => {
                &&& self.spec_source() is Some
                &&& self.spec_reveal() matches Some(o) && reveal_ok(o)
                &&& self.spec_outcome() is None
                &&& self.spec_submit_calls() == 0
            },
            FlowPhase::Built => {
                &&& self.spec_source() is Some
                &&& self.spec_reveal() matches Some(o) && reveal_ok(o)
                &&& self.spec_outcome() is None
                &&& self.spec_submit_calls() == 0
                &&& valid_request(self.spec_request())
            },
            FlowPhase::Signed => {
                &&& self.spec_source() is Some
                &&& self.spec_reveal() matches Some(o) && reveal_ok(o)
                &&& self.spec_outcome() is None
                &&& self.spec_submit_calls() == 0
                &&& valid_request(self.spec_request())
            },
            FlowPhase::Settled => self.spec_outcome() is Some,
        }
    }

    /// A fresh attempt for one request.
    pub fn new(request: TransferRequest) -> (f: TransferFlow)
        ensures
            f.wf(),
            f.spec_phase() is Init,
            f.spec_request() == request,
            f.spec_submit_calls() == 0,
    {
        TransferFlow {
            request,
            phase: FlowPhase::Init,
            source: None,
            reveal: None,
            outcome: None,
            submit_calls: 0,
        }
    }

    /// Resolve the request's source alias against the wallet store.  A
    /// miss settles the attempt with `NotFound`; nothing downstream can
    /// run after that.
    pub fn resolve_source(&mut self, store: &WalletStore) -> (found: bool)
        requires
            old(self).wf(),
            old(self).spec_phase() is Init,
        ensures
            final(self).wf(),
            final(self).spec_request() == old(self).spec_request(),
            final(self).spec_submit_calls() == 0,
            found == (store.spec_resolve(old(self).spec_request().source_alias@) is Some),
            found ==> final(self).spec_phase() is AliasResolved && final(self).spec_source()
                == store.spec_resolve(old(self).spec_request().source_alias@),
            !found ==> final(self).spec_phase() is Settled && final(self).spec_outcome()
                == Some(SubmitOutcome::Failed(Failure::NotFound)) && final(self).spec_reveal()
                is None,
    {
        match store.find_address(self.request.source_alias.as_str()) {
            Some(addr) => {
                self.source = Some(addr);
                self.phase = FlowPhase::AliasResolved;
                true
            },
            None => {
                self.phase = FlowPhase::Settled;
                self.outcome = Some(SubmitOutcome::Failed(Failure::NotFound));
                false
            },
        }
    }

    /// Record the readiness check's outcome for the resolved source.  A
    /// failed readiness check settles the whole attempt with that check's cause; the
    /// transfer is never built.
    pub fn check_reveal(&mut self, outcome: RevealOutcome) -> (ok: bool)
        requires
            old(self).wf(),
            old(self).spec_phase() is AliasResolved,
        ensures
            final(self).wf(),
            final(self).spec_request() == old(self).spec_request(),
            final(self).spec_source() == old(self).spec_source(),
            final(self).spec_submit_calls() == 0,
            final(self).spec_reveal() == Some(outcome),
            ok == reveal_ok(outcome),
            ok ==> final(self).spec_phase() is RevealChecked,
            !ok ==> {
                &&& final(self).spec_phase() is Settled
                &&& outcome matches RevealOutcome::Failed(f)
                &&& final(self).spec_outcome() == Some(SubmitOutcome::Failed(f))
            },
    {
        self.reveal = Some(outcome);
        match outcome {
            RevealOutcome::AlreadyRevealed | RevealOutcome::Revealed => {
                self.phase = FlowPhase::RevealChecked;
                true
            },
            RevealOutcome::Failed(f) => {
                self.phase = FlowPhase::Settled;
                self.outcome = Some(SubmitOutcome::Failed(f));
                false
            },
        }
    }

    /// Validate the request and lay out everything the chain client needs
    /// to build it.  Malformed input settles the attempt with
    /// `InvalidInput`; no submission is ever attempted for it.  The
    /// signing keys come from the wallet store's stored public keys, not
    /// from any re-derivation.
    pub fn build(&mut self, store: &WalletStore) -> (plan: Option<BuildPlan>)
        requires
            old(self).wf(),
            old(self).spec_phase() is RevealChecked,
        ensures
            final(self).wf(),
            final(self).spec_request() == old(self).spec_request(),
            final(self).spec_source() == old(self).spec_source(),
            final(self).spec_reveal() == old(self).spec_reveal(),
            final(self).spec_submit_calls() == 0,
            plan is Some == valid_request(old(self).spec_request()),
            plan matches Some(p) ==> {
                &&& final(self).spec_phase() is Built
                &&& p.kind == old(self).spec_request().kind
                &&& Some(p.source@) == old(self).spec_source()
                &&& p.target@ == old(self).spec_request().target@
                &&& p.token@ == old(self).spec_request().token@
                &&& p.amount_units == dec_value(old(self).spec_request().amount@)
                &&& p.channel@ == old(self).spec_request().channel@
                &&& p.signing_keys.deep_view() == store.public_keys_view()
            },
            plan is None ==> final(self).spec_phase() is Settled && final(self).spec_outcome()
                == Some(SubmitOutcome::Failed(Failure::InvalidInput)),
    {
        let amount_units = match parse_amount(self.request.amount.as_str()) {
            Ok(v) => v,
            Err(_) => {
                self.phase = FlowPhase::Settled;
                self.outcome = Some(SubmitOutcome::Failed(Failure::InvalidInput));
                return None;
            },
        };
        if self.request.target.as_str().is_empty() {
            self.phase = FlowPhase::Settled;
            self.outcome = Some(SubmitOutcome::Failed(Failure::InvalidInput));
            return None;
        }
        let channel_needed = match self.request.kind {
            TransferKind::Ibc => true,
            _ => false,
        };
        if channel_needed && self.request.channel.as_str().is_empty() {
            self.phase = FlowPhase::Settled;
            self.outcome = Some(SubmitOutcome::Failed(Failure::InvalidInput));
            return None;
        }
        let source = match &self.source {
            Some(s) => s.clone(),
            None => {
                proof {
                    assert(false);
                }
                return None;
            },
        };
        let plan = BuildPlan {
            kind: self.request.kind,
            source,
            target: self.request.target.clone(),
            token: self.request.token.clone(),
            amount_units,
            channel: self.request.channel.clone(),
            signing_keys: copy_strings(store.list_public_keys()),
        };
        self.phase = FlowPhase::Built;
        Some(plan)
    }

    /// Record whether the chain client could sign the built transfer.  A
    /// signing failure settles the attempt; nothing is submitted.
    pub fn sign(&mut self, result: Result<(), Failure>) -> (ok: bool)
        requires
            old(self).wf(),
            old(self).spec_phase() is Built,
        ensures
            final(self).wf(),
            final(self).spec_request() == old(self).spec_request(),
            final(self).spec_reveal() == old(self).spec_reveal(),
            final(self).spec_submit_calls() == 0,
            ok == result is Ok,
            ok ==> final(self).spec_phase() is Signed,
            !ok ==> {
                &&& final(self).spec_phase() is Settled
                &&& result matches Err(f)
                &&& final(self).spec_outcome() == Some(SubmitOutcome::Failed(f))
            },
    {
        match result {
            Ok(_) => {
                self.phase = FlowPhase::Signed;
                true
            },
            Err(f) => {
                self.phase = FlowPhase::Settled;
                self.outcome = Some(SubmitOutcome::Failed(f));
                false
            },
        }
    }

    /// Record the chain's verdict on the one submission of this attempt.
    /// Success carries the receipt; rejection settles with the chain's
    /// cause and is not retried — the machine is terminal either way.
    pub fn submit(&mut self, result: Result<String, Failure>)
        requires
            old(self).wf(),
            old(self).spec_phase() is Signed,
        ensures
            final(self).wf(),
            final(self).spec_request() == old(self).spec_request(),
            final(self).spec_reveal() == old(self).spec_reveal(),
            final(self).spec_phase() is Settled,
            final(self).spec_submit_calls() == 1,
            result matches Ok(receipt) ==> final(self).spec_outcome() == Some(
                SubmitOutcome::Success(receipt),
            ),
            result matches Err(f) ==> final(self).spec_outcome() == Some(
                SubmitOutcome::Failed(f),
            ),
    {
        self.submit_calls = self.submit_calls + 1;
        self.phase = FlowPhase::Settled;
        match result {
            Ok(receipt) => {
                self.outcome = Some(SubmitOutcome::Success(receipt));
            },
            Err(f) => {
                self.outcome = Some(SubmitOutcome::Failed(f));
            },
        }
    }

    /// The resolved source address, once the alias resolver ran.
    pub fn source_address(&self) -> (r: Option<&String>)
        ensures
            match r {
                Some(s) => self.spec_source() == Some(s@),
                None => self.spec_source() is None,
            },
    {
        self.source.as_ref()
    }

    /// Where the attempt stands.
    pub fn phase(&self) -> (p: FlowPhase)
        ensures
            p == self.spec_phase(),
    {
        self.phase
    }

    /// How many submissions this attempt handed out.
    pub fn submit_calls(&self) -> (n: u64)
        ensures
            n == self.spec_submit_calls(),
    {
        self.submit_calls
    }

    /// The recorded reveal outcome, once the readiness check ran.
    pub fn reveal_outcome(&self) -> (o: Option<RevealOutcome>)
        ensures
            o == self.spec_reveal(),
    {
        self.reveal
    }

    /// The settled outcome, if the attempt is done.
    pub fn outcome(&self) -> (o: &Option<SubmitOutcome>)
        ensures
            *o == self.spec_outcome(),
    {
        &self.outcome
    }
}

/// Law: a transfer is never submitted unless the readiness check's recorded
/// outcome for its source was `AlreadyRevealed` or `Revealed`.
pub proof fn lemma_no_submit_without_reveal(f: TransferFlow)
    requires
        f.wf(),
        f.spec_submit_calls() > 0,
    ensures
        f.spec_reveal() matches Some(o) && reveal_ok(o),
{
}

/// Law: an attempt that settled before its reveal check ran — an
/// unresolved alias among the causes — handed out no submission.
pub proof fn lemma_early_failure_submits_nothing(f: TransferFlow)
    requires
        f.wf(),
        f.spec_reveal() is None,
    ensures
        f.spec_submit_calls() == 0,
{
}

/// Law: one attempt submits at most once; a settled attempt never
/// retries by itself.
pub proof fn lemma_submit_at_most_once(f: TransferFlow)
    requires
        f.wf(),
    ensures
        f.spec_submit_calls() <= 1,
{
}


/// The memo text for a cross-chain transfer.
pub open spec fn ibc_memo_text(
    amount: Seq<char>,
    source: Seq<char>,
    receiver: Seq<char>,
    port: Seq<char>,
    channel: Seq<char>,
) -> Seq<char> {
    "Transfer of "@ + amount + " tokens from "@ + source + " to "@ + receiver
        + " via port "@ + port + " and channel "@ + channel
}

/// Compose the display memo for a cross-chain transfer, resolving the
/// source alias in the wallet store.  An unbound alias yields the empty
/// string: the memo reports nothing for an unknown source.
pub fn generate_ibc_memo(
    store: &WalletStore,
    alias: &str,
    amount: &str,
    receiver: &str,
    port_id: &str,
    channel_id: &str,
) -> (r: String)
    ensures
        match store.spec_resolve(alias@) {
            Some(src) => r@ == ibc_memo_text(amount@, src, receiver@, port_id@, channel_id@),
            None => r@ == Seq::<char>::empty(),
        },
{
    match store.find_address(alias) {
        Some(src) => {
            let mut out = "Transfer of ".to_owned();
            out.append(amount);
            out.append(" tokens from ");
            out.append(src.as_str());
            out.append(" to ");
            out.append(receiver);
            out.append(" via port ");
            out.append(port_id);
            out.append(" and channel ");
            out.append(channel_id);
            out
        },
        None => String::new(),
    }
}

} // verus!
