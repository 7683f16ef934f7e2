//! The spend path: validating a spend request before any lock is taken,
//! sequencing build, sign, broadcast and persist, and the effect a spend
//! attempt has on the wallet state.

use vstd::prelude::*;
use vstd::string::StringSliceAdditionalSpecFns;
use crate::num::{parse_u64_dec, parses_as_u64, parsed_u64};
use crate::state::{WalletModel, WalletState};

verus! {

/// The protocol's embeddable-data size limit: how many note bytes fit in
/// a standard data-carrier output.
pub const MAX_NOTE_BYTES: usize = 80;

/// Every way a spend request can fail, each distinguishable by the
/// caller.
#[derive(Clone, Copy, PartialEq, Eq, Structural, Debug)]
pub enum SpendError {
    /// The amount field is not an unsigned decimal satoshi count.
    InvalidAmount,
    /// The destination is not a valid address for the configured network.
    InvalidAddress,
    /// The fee rate field is not a positive decimal integer.
    InvalidFeeRate,
    /// The note does not fit the embeddable-data size limit.
    NoteTooLong,
    /// The candidate transaction could not be constructed.
    BuildFailed,
    /// Signing did not complete; nothing may be broadcast.
    NotFinalized,
    /// The chain source rejected the transaction or was unreachable.
    BroadcastFailed,
    /// The durable store rejected the post-broadcast flush.
    PersistFailed,
}

/// A spend request that passed validation: the destination's output
/// script, the amount and fee rate as integers, and the note bytes.
pub struct SpendIntent {
    pub script: Vec<u8>,
    pub amount_sat: u64,
    pub fee_rate: u64,
    pub note: Vec<u8>,
}

/// The validated fields as mathematical values.
#[verifier::ext_equal]
pub ghost struct SpendParams {
    pub script: Seq<u8>,
    pub amount_sat: u64,
    pub fee_rate: u64,
    pub note: Seq<u8>,
}

/// The output script a destination string denotes on the configured
/// (signet) network, when it denotes one at all.
pub uninterp spec fn signet_script_of(addr: Seq<char>) -> Option<Seq<u8>>;

/// Relies on bitcoin's address parser (`Address::from_str`,
/// `require_network`, `script_pubkey`): whether a string is a valid
/// signet address, and which output script it encodes, are functions of
/// the string alone.
#[verifier::external_body]
fn parse_signet_address(addr: &str) -> (r: Option<Vec<u8>>)
    ensures
        r is Some <==> signet_script_of(addr@) is Some,
        r is Some ==> r->0@ == signet_script_of(addr@)->0,
{
    let parsed: bdk_wallet::bitcoin::Address<bdk_wallet::bitcoin::address::NetworkUnchecked> =
        match addr.parse() {
            Ok(a) => a,
            Err(_) => {
                return None;
            },
        };
    match parsed.require_network(bdk_wallet::bitcoin::Network::Signet) {
        Ok(a) => Some(a.script_pubkey().into_bytes()),
        Err(_) => None,
    }
}

/// What validation decides for given request fields, checked in the
/// order the fields arrive: amount, destination, fee rate, note.
pub open spec fn validate_model(
    addr: Seq<char>,
    amount: Seq<u8>,
    fee_rate: Seq<u8>,
    note: Seq<u8>,
) -> Result<SpendParams, SpendError> {
    if !parses_as_u64(amount) {
        Err(SpendError::InvalidAmount)
    } else if signet_script_of(addr) is None {
        Err(SpendError::InvalidAddress)
    } else if !(parses_as_u64(fee_rate) && parsed_u64(fee_rate) >= 1) {
        Err(SpendError::InvalidFeeRate)
    } else if note.len() > MAX_NOTE_BYTES {
        Err(SpendError::NoteTooLong)
    } else {
        Ok(
            SpendParams {
                script: signet_script_of(addr)->0,
                amount_sat: parsed_u64(amount) as u64,
                fee_rate: parsed_u64(fee_rate) as u64,
                note,
            },
        )
    }
}

/// Validates the fields of a spend request. Pure: touches no wallet
/// state and takes no lock, so a rejected request has no observable
/// effect. Accepts exactly the requests whose amount is an unsigned
/// decimal satoshi count, whose destination is a valid signet address,
/// whose fee rate is a positive decimal integer, and whose note fits the
/// embeddable-data limit.
pub fn validate_spend(address: &str, amount: &str, fee_rate: &str, note: &[u8]) -> (r: Result<
    SpendIntent,
    SpendError,
>)
    ensures
        match r {
            Ok(it) => validate_model(address@, amount.spec_bytes(), fee_rate.spec_bytes(), note@)
                == Ok::<SpendParams, SpendError>(
                SpendParams {
                    script: it.script@,
                    amount_sat: it.amount_sat,
                    fee_rate: it.fee_rate,
                    note: it.note@,
                },
            ),
            Err(e) => validate_model(address@, amount.spec_bytes(), fee_rate.spec_bytes(), note@)
                == Err::<SpendParams, SpendError>(e),
        },
{
    let amount_sat = match parse_u64_dec(amount) {
        Some(v) => v,
        None => {
            return Err(SpendError::InvalidAmount);
        },
    };
    let script = match parse_signet_address(address) {
        Some(s) => s,
        None => {
            return Err(SpendError::InvalidAddress);
        },
    };
    let rate = match parse_u64_dec(fee_rate) {
        Some(v) => v,
        None => {
            return Err(SpendError::InvalidFeeRate);
        },
    };
    if rate < 1 {
        return Err(SpendError::InvalidFeeRate);
    }
    if note.len() > MAX_NOTE_BYTES {
        return Err(SpendError::NoteTooLong);
    }
    let note_bytes = vstd::slice::slice_to_vec(note);
    Ok(SpendIntent { script, amount_sat, fee_rate: rate, note: note_bytes })
}

/// Where a spend attempt stands.
#[derive(Clone, Copy, PartialEq, Eq, Structural, Debug)]
pub enum SpendPhase {
    /// The request passed validation; nothing has been built.
    Validated,
    /// A candidate transaction exists.
    Built,
    /// Signing completed with all signatures present.
    Signed,
    /// The chain source accepted the transaction.
    Broadcasted,
    /// The advanced state reached the durable store: terminal success.
    Persisted,
    /// A step failed: terminal, never retried.
    Aborted,
}

/// What the driver reports back after performing the action a phase
/// called for.
#[derive(Clone, Copy, PartialEq, Eq, Structural, Debug)]
pub enum SpendEvent {
    Built { ok: bool },
    Signed { finalized: bool },
    Broadcasted { ok: bool },
    Persisted { ok: bool },
}

/// What the coordinator asks the driver to do next.
#[derive(Clone, Copy, PartialEq, Eq, Structural, Debug)]
pub enum SpendAction {
    RunSign,
    RunBroadcast,
    RunPersist,
    Complete,
    Reject { err: SpendError },
}

/// Whether an event is the one its phase awaits.
pub open spec fn event_fits(p: SpendPhase, ev: SpendEvent) -> bool {
    match (p, ev) {
        (SpendPhase::Validated, SpendEvent::Built { .. }) => true,
        (SpendPhase::Built, SpendEvent::Signed { .. }) => true,
        (SpendPhase::Signed, SpendEvent::Broadcasted { .. }) => true,
        (SpendPhase::Broadcasted, SpendEvent::Persisted { .. }) => true,
        _ => false,
    }
}

/// The spend attempt's transition table: every failure is terminal, and
/// only a finalized signature leads to a broadcast.
pub open spec fn step_model(p: SpendPhase, ev: SpendEvent) -> (SpendPhase, SpendAction) {
    match (p, ev) {
        (SpendPhase::Validated, SpendEvent::Built { ok: true }) => (
            SpendPhase::Built,
            SpendAction::RunSign,
        ),
        (SpendPhase::Validated, SpendEvent::Built { ok: false }) => (
            SpendPhase::Aborted,
            SpendAction::Reject { err: SpendError::BuildFailed },
        ),
        (SpendPhase::Built, SpendEvent::Signed { finalized: true }) => (
            SpendPhase::Signed,
            SpendAction::RunBroadcast,
        ),
        (SpendPhase::Built, SpendEvent::Signed { finalized: false }) => (
            SpendPhase::Aborted,
            SpendAction::Reject { err: SpendError::NotFinalized },
        ),
        (SpendPhase::Signed, SpendEvent::Broadcasted { ok: true }) => (
            SpendPhase::Broadcasted,
            SpendAction::RunPersist,
        ),
        (SpendPhase::Signed, SpendEvent::Broadcasted { ok: false }) => (
            SpendPhase::Aborted,
            SpendAction::Reject { err: SpendError::BroadcastFailed },
        ),
        (SpendPhase::Broadcasted, SpendEvent::Persisted { ok: true }) => (
            SpendPhase::Persisted,
            SpendAction::Complete,
        ),
        (SpendPhase::Broadcasted, SpendEvent::Persisted { ok: false }) => (
            SpendPhase::Aborted,
            SpendAction::Reject { err: SpendError::PersistFailed },
        ),
        _ => (SpendPhase::Aborted, SpendAction::Reject { err: SpendError::BuildFailed }),
    }
}

/// One spend attempt, stepped by the driver as outside work completes.
pub struct SpendMachine {
    pub phase: SpendPhase,
}

impl SpendMachine {
    /// A fresh attempt for a validated request.
    pub fn new() -> (r: SpendMachine)
        ensures
            r.phase == SpendPhase::Validated,
    {
        SpendMachine { phase: SpendPhase::Validated }
    }

    /// Advances the attempt on the outcome of the step just performed
    /// and names the next action. The driver must report the event the
    /// current phase awaits.
    pub fn step(&mut self, ev: SpendEvent) -> (action: SpendAction)
        requires
            event_fits(old(self).phase, ev),
        ensures
            (final(self).phase, action) == step_model(old(self).phase, ev),
    {
        let (next, action): (SpendPhase, SpendAction) = match (self.phase, ev) {
            (SpendPhase::Validated, SpendEvent::Built { ok: true }) => (
                SpendPhase::Built,
                SpendAction::RunSign,
            ),
            (SpendPhase::Validated, SpendEvent::Built { ok: false }) => (
                SpendPhase::Aborted,
                SpendAction::Reject { err: SpendError::BuildFailed },
            ),
            (SpendPhase::Built, SpendEvent::Signed { finalized: true }) => (
                SpendPhase::Signed,
                SpendAction::RunBroadcast,
            ),
            (SpendPhase::Built, SpendEvent::Signed { finalized: false }) => (
                SpendPhase::Aborted,
                SpendAction::Reject { err: SpendError::NotFinalized },
            ),
            (SpendPhase::Signed, SpendEvent::Broadcasted { ok: true }) => (
                SpendPhase::Broadcasted,
                SpendAction::RunPersist,
            ),
            (SpendPhase::Signed, SpendEvent::Broadcasted { ok: false }) => (
                SpendPhase::Aborted,
                SpendAction::Reject { err: SpendError::BroadcastFailed },
            ),
            (SpendPhase::Broadcasted, SpendEvent::Persisted { ok: true }) => (
                SpendPhase::Persisted,
                SpendAction::Complete,
            ),
            (SpendPhase::Broadcasted, SpendEvent::Persisted { ok: false }) => (
                SpendPhase::Aborted,
                SpendAction::Reject { err: SpendError::PersistFailed },
            ),
            _ => (SpendPhase::Aborted, SpendAction::Reject { err: SpendError::BuildFailed }),
        };
        self.phase = next;
        action
    }
}

/// Law: a broadcast is only ever requested for a finalized signature. No
/// phase and event other than a finalized signing outcome lead to the
/// broadcast action.
pub proof fn lemma_no_broadcast_unless_finalized(p: SpendPhase, ev: SpendEvent)
    ensures
        step_model(p, ev).1 == SpendAction::RunBroadcast ==> p == SpendPhase::Built && ev == (
        SpendEvent::Signed { finalized: true }),
{
}

/// How a finished spend attempt ended.
#[derive(Clone, Copy, PartialEq, Eq, Structural, Debug)]
pub enum SpendOutcome {
    /// No candidate transaction was built.
    BuildFailed,
    /// Signing did not complete; nothing was broadcast.
    NotFinalized,
    /// A finalized transaction was broadcast but refused or lost.
    BroadcastFailed,
    /// The transaction was broadcast and accepted.
    Broadcasted { txid: u64 },
}

/// Whether the attempt consumed the change index it was built with: true
/// exactly when a finalized transaction went out to the network, whether
/// or not the network accepted it.
pub open spec fn outcome_consumes_index(oc: SpendOutcome) -> bool {
    oc is BroadcastFailed || oc is Broadcasted
}

/// The wallet state a finished attempt leaves behind: the change index
/// advances exactly when the attempt consumed it; nothing else moves.
pub open spec fn spend_effect(m: WalletModel, oc: SpendOutcome) -> WalletModel {
    if outcome_consumes_index(oc) {
        WalletModel { internal_next: (m.internal_next + 1) as u64, ..m }
    } else {
        m
    }
}

/// The change-chain index an attempt used, where it consumed one.
pub open spec fn spend_index(m: WalletModel, oc: SpendOutcome) -> Option<u64> {
    if outcome_consumes_index(oc) {
        Some(m.internal_next)
    } else {
        None
    }
}

/// Records how a spend attempt ended. A broadcast transaction — accepted
/// or not — consumed the change index the candidate was built with, so
/// the counter advances and the index is never handed out again; an
/// attempt that built nothing or failed to finalize leaves the state
/// exactly as it was. The returned flag says whether the state must now
/// be flushed durably: only an accepted broadcast is persisted.
pub fn settle_spend(state: &mut WalletState, outcome: SpendOutcome) -> (persist: bool)
    requires
        old(state)@.internal_next < u64::MAX,
    ensures
        final(state)@ == spend_effect(old(state)@, outcome),
        persist <==> outcome is Broadcasted,
        outcome is NotFinalized ==> final(state)@ == old(state)@,
{
    match outcome {
        SpendOutcome::BuildFailed => false,
        SpendOutcome::NotFinalized => false,
        SpendOutcome::BroadcastFailed => {
            state.internal_next = state.internal_next + 1;
            proof {
                assert(final(state)@ =~= spend_effect(old(state)@, outcome));
            }
            false
        },
        SpendOutcome::Broadcasted { .. } => {
            state.internal_next = state.internal_next + 1;
            proof {
                assert(final(state)@ =~= spend_effect(old(state)@, outcome));
            }
            true
        },
    }
}

/// Law: an attempt whose signature never finalized leaves the wallet
/// state exactly as it found it.
pub proof fn lemma_nonfinalized_leaves_state(m: WalletModel)
    ensures
        spend_effect(m, SpendOutcome::NotFinalized) == m,
{
}

/// Law: change indices strictly increase across attempts that consumed
/// one, even when the first broadcast failed — no change index is ever
/// reused within a session.
pub proof fn lemma_change_index_monotone(m: WalletModel, oc1: SpendOutcome, oc2: SpendOutcome)
    requires
        outcome_consumes_index(oc1),
        outcome_consumes_index(oc2),
        m.internal_next + 1 < u64::MAX,
    ensures
        spend_index(spend_effect(m, oc1), oc2)->0 > spend_index(m, oc1)->0,
{
}

} // verus!
