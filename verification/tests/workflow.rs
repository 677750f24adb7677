use wallet_flow::errors::Failure;
use wallet_flow::readiness::{AccountInfo, RevealAction, RevealPhase, RevealCheck, RevealOutcome};
use wallet_flow::menu::{command_for_choice, parse_choice, Command};
use wallet_flow::store::WalletStore;
use wallet_flow::transfer::{
    generate_ibc_memo, FlowPhase, SubmitOutcome, TransferFlow, TransferKind, TransferRequest,
};

fn revealed_account() -> Option<AccountInfo> {
    Some(AccountInfo { public_keys: vec!["tpknam1qq11".to_string()] })
}

fn unrevealed_account() -> Option<AccountInfo> {
    Some(AccountInfo { public_keys: Vec::new() })
}

#[test]
fn populated_key_map_is_already_revealed() {
    // A non-empty public-key map settles the readiness check at once: zero submissions.
    let mut gate = RevealCheck::new();
    let action = gate.on_account_query(Ok(revealed_account()), &vec!["k1".to_string()]);
    assert_eq!(action, RevealAction::Done(RevealOutcome::AlreadyRevealed));
    assert_eq!(gate.outcome(), Some(RevealOutcome::AlreadyRevealed));
    assert_eq!(gate.submitted_count(), 0);
}

#[test]
fn absent_account_counts_as_unrevealed() {
    let mut gate = RevealCheck::new();
    let action = gate.on_account_query(Ok(None), &vec!["k1".to_string()]);
    assert_eq!(action, RevealAction::Submit("k1".to_string()));
}

#[test]
fn reveal_submits_once_per_candidate_key() {
    // Scenario: empty public-key map, one candidate key; one reveal is
    // submitted and accepted; a second run is already revealed.
    let candidates = vec!["tpknam1qkey".to_string()];
    let mut gate = RevealCheck::new();
    let first = gate.on_account_query(Ok(unrevealed_account()), &candidates);
    assert_eq!(first, RevealAction::Submit("tpknam1qkey".to_string()));
    let done = gate.on_submit_result(true);
    assert_eq!(done, RevealAction::Done(RevealOutcome::Revealed));
    assert_eq!(gate.submitted_count(), 1);

    let mut second = RevealCheck::new();
    let again = second.on_account_query(Ok(revealed_account()), &candidates);
    assert_eq!(again, RevealAction::Done(RevealOutcome::AlreadyRevealed));
    assert_eq!(second.submitted_count(), 0);
}

#[test]
fn reveal_walks_every_candidate_in_order() {
    let candidates = vec!["k1".to_string(), "k2".to_string(), "k3".to_string()];
    let mut gate = RevealCheck::new();
    assert_eq!(
        gate.on_account_query(Ok(unrevealed_account()), &candidates),
        RevealAction::Submit("k1".to_string())
    );
    assert_eq!(gate.on_submit_result(true), RevealAction::Submit("k2".to_string()));
    assert_eq!(gate.on_submit_result(true), RevealAction::Submit("k3".to_string()));
    assert_eq!(gate.on_submit_result(true), RevealAction::Done(RevealOutcome::Revealed));
    assert_eq!(gate.submitted_count(), 3);
    assert_eq!(gate.phase(), RevealPhase::Settled);
}

#[test]
fn reveal_stops_at_first_rejected_submission() {
    let candidates = vec!["k1".to_string(), "k2".to_string(), "k3".to_string()];
    let mut gate = RevealCheck::new();
    assert_eq!(
        gate.on_account_query(Ok(unrevealed_account()), &candidates),
        RevealAction::Submit("k1".to_string())
    );
    assert_eq!(gate.on_submit_result(true), RevealAction::Submit("k2".to_string()));
    assert_eq!(
        gate.on_submit_result(false),
        RevealAction::Done(RevealOutcome::Failed(Failure::ChainRejection))
    );
    // the rejected key was the second and last one handed out
    assert_eq!(gate.submitted_count(), 2);
    assert_eq!(gate.outcome(), Some(RevealOutcome::Failed(Failure::ChainRejection)));
}

#[test]
fn failed_query_propagates_its_own_cause() {
    let mut gate = RevealCheck::new();
    let action = gate.on_account_query(Err(Failure::NetworkFailure), &vec!["k1".to_string()]);
    assert_eq!(action, RevealAction::Done(RevealOutcome::Failed(Failure::NetworkFailure)));
    assert_eq!(gate.submitted_count(), 0);
}

#[test]
fn unrevealed_account_without_candidates_fails() {
    let mut gate = RevealCheck::new();
    let action = gate.on_account_query(Ok(unrevealed_account()), &Vec::new());
    assert_eq!(action, RevealAction::Done(RevealOutcome::Failed(Failure::NotFound)));
    assert_eq!(gate.submitted_count(), 0);
}

fn transparent_request(alias: &str, amount: &str) -> TransferRequest {
    TransferRequest {
        source_alias: alias.to_string(),
        target: "tnam1qqzg5khvcfdgnjg4wghvxcnekxwu4kg5nuwjssjt".to_string(),
        token: "tnam1q9gr66cvu4hrzm0sd5kmlnjje82gs3xlfg3v6nu7".to_string(),
        amount: amount.to_string(),
        kind: TransferKind::Transparent,
        channel: String::new(),
    }
}

fn revealed_store(alias: &str) -> WalletStore {
    let mut store = WalletStore::new();
    assert!(store.insert_address(alias, "tnam1qze5x6au3egfnq7qp963c793cev5z5jvkcufnfhj", true));
    store.add_public_key("ED25519_PK_PREFIXtpknam1qsign");
    store
}

#[test]
fn transfer_runs_build_sign_submit_once_and_rejection_is_final() {
    // Scenario: transparent transfer of "10" from a revealed source; the
    // chain rejects the one submission; the outcome is a chain rejection
    // and no retry happens.
    let store = revealed_store("rilsso-public");
    let mut flow = TransferFlow::new(transparent_request("rilsso-public", "10"));
    assert!(flow.resolve_source(&store));
    assert!(flow.check_reveal(RevealOutcome::AlreadyRevealed));
    let plan = flow.build(&store).expect("a valid request must build");
    assert_eq!(plan.amount_units, 10);
    assert_eq!(plan.source, "tnam1qze5x6au3egfnq7qp963c793cev5z5jvkcufnfhj");
    assert_eq!(plan.signing_keys, vec!["tpknam1qsign".to_string()]);
    assert!(flow.sign(Ok(())));
    flow.submit(Err(Failure::ChainRejection));
    assert_eq!(flow.phase(), FlowPhase::Settled);
    assert_eq!(flow.submit_calls(), 1);
    assert_eq!(
        flow.outcome(),
        &Some(SubmitOutcome::Failed(Failure::ChainRejection))
    );
}

#[test]
fn transfer_success_carries_the_receipt() {
    let store = revealed_store("a");
    let mut flow = TransferFlow::new(transparent_request("a", "1"));
    assert!(flow.resolve_source(&store));
    assert!(flow.check_reveal(RevealOutcome::Revealed));
    assert!(flow.build(&store).is_some());
    assert!(flow.sign(Ok(())));
    flow.submit(Ok("tx-hash-0001".to_string()));
    assert_eq!(flow.outcome(), &Some(SubmitOutcome::Success("tx-hash-0001".to_string())));
    assert_eq!(flow.submit_calls(), 1);
}

#[test]
fn unresolved_alias_settles_before_any_reveal_or_submit() {
    // An alias miss is terminal: the flow settles with NotFound, records
    // no reveal outcome and hands out no submission.
    let store = WalletStore::new();
    let mut flow = TransferFlow::new(transparent_request("missing", "10"));
    assert!(!flow.resolve_source(&store));
    assert_eq!(flow.phase(), FlowPhase::Settled);
    assert_eq!(flow.outcome(), &Some(SubmitOutcome::Failed(Failure::NotFound)));
    assert_eq!(flow.reveal_outcome(), None);
    assert_eq!(flow.submit_calls(), 0);
}

#[test]
fn failed_readiness_check_stops_the_transfer() {
    let store = revealed_store("a");
    let mut flow = TransferFlow::new(transparent_request("a", "10"));
    assert!(flow.resolve_source(&store));
    assert!(!flow.check_reveal(RevealOutcome::Failed(Failure::NetworkFailure)));
    assert_eq!(flow.phase(), FlowPhase::Settled);
    assert_eq!(flow.outcome(), &Some(SubmitOutcome::Failed(Failure::NetworkFailure)));
    assert_eq!(flow.submit_calls(), 0);
}

#[test]
fn signing_failure_settles_without_submission() {
    let store = revealed_store("a");
    let mut flow = TransferFlow::new(transparent_request("a", "10"));
    assert!(flow.resolve_source(&store));
    assert!(flow.check_reveal(RevealOutcome::AlreadyRevealed));
    assert!(flow.build(&store).is_some());
    assert!(!flow.sign(Err(Failure::StorageFailure)));
    assert_eq!(flow.phase(), FlowPhase::Settled);
    assert_eq!(flow.outcome(), &Some(SubmitOutcome::Failed(Failure::StorageFailure)));
    assert_eq!(flow.submit_calls(), 0);
}

#[test]
fn malformed_amount_fails_before_any_submission() {
    let store = revealed_store("a");
    let mut flow = TransferFlow::new(transparent_request("a", "ten"));
    assert!(flow.resolve_source(&store));
    assert!(flow.check_reveal(RevealOutcome::AlreadyRevealed));
    assert!(flow.build(&store).is_none());
    assert_eq!(flow.phase(), FlowPhase::Settled);
    assert_eq!(flow.outcome(), &Some(SubmitOutcome::Failed(Failure::InvalidInput)));
    assert_eq!(flow.submit_calls(), 0);
}

#[test]
fn ibc_transfer_needs_a_channel() {
    let store = revealed_store("a");
    let mut request = transparent_request("a", "10");
    request.kind = TransferKind::Ibc;
    request.target = "cosmos1qqzg5khvcfdgnjg4wghvxcnekxwu4kg5nuwjssjt".to_string();
    let mut flow = TransferFlow::new(request);
    assert!(flow.resolve_source(&store));
    assert!(flow.check_reveal(RevealOutcome::AlreadyRevealed));
    assert!(flow.build(&store).is_none());
    assert_eq!(flow.outcome(), &Some(SubmitOutcome::Failed(Failure::InvalidInput)));

    let mut request2 = transparent_request("a", "10");
    request2.kind = TransferKind::Ibc;
    request2.channel = "channel-0".to_string();
    let mut flow2 = TransferFlow::new(request2);
    assert!(flow2.resolve_source(&store));
    assert!(flow2.check_reveal(RevealOutcome::AlreadyRevealed));
    let plan = flow2.build(&store).expect("channelled request must build");
    assert_eq!(plan.channel, "channel-0");
}

#[test]
fn memo_text_is_exact() {
    let mut store = WalletStore::new();
    assert!(store.insert_address("rilsso-public", "tnam1qsource", true));
    let memo = generate_ibc_memo(
        &store,
        "rilsso-public",
        "1",
        "cosmos1tsf6mvwzgxakzfltdxjlxygkrm2ht8fk5tq4kp",
        "transfer/channel-0",
        "channel-0",
    );
    assert_eq!(
        memo,
        "Transfer of 1 tokens from tnam1qsource to cosmos1tsf6mvwzgxakzfltdxjlxygkrm2ht8fk5tq4kp via port transfer/channel-0 and channel channel-0"
    );
}

#[test]
fn memo_for_unknown_alias_is_empty() {
    let store = WalletStore::new();
    let memo = generate_ibc_memo(&store, "nobody", "1", "r", "p", "c");
    assert_eq!(memo, "");
}

#[test]
fn menu_numbers_name_their_commands() {
    assert_eq!(command_for_choice(1), Some(Command::CreateWallet));
    assert_eq!(command_for_choice(2), Some(Command::AddKey));
    assert_eq!(command_for_choice(3), Some(Command::PrintAddress));
    assert_eq!(command_for_choice(4), Some(Command::CreateSpendingKey));
    assert_eq!(command_for_choice(5), Some(Command::GeneratePaymentAddress));
    assert_eq!(command_for_choice(6), Some(Command::SendShielded));
    assert_eq!(command_for_choice(7), Some(Command::CheckRevealed));
    assert_eq!(command_for_choice(8), Some(Command::ShieldedSync));
    assert_eq!(command_for_choice(9), Some(Command::SendTransparent));
    assert_eq!(command_for_choice(10), Some(Command::SendIbc));
    assert_eq!(command_for_choice(11), Some(Command::Exit));
    assert_eq!(command_for_choice(0), None);
    assert_eq!(command_for_choice(12), None);
}

#[test]
fn choices_parse_like_the_prompt() {
    assert_eq!(parse_choice(" 7 \n"), 7);
    assert_eq!(parse_choice("11"), 11);
    assert_eq!(parse_choice("abc"), 0);
    assert_eq!(parse_choice(""), 0);
    assert_eq!(parse_choice("99999999999999999999999999"), 0);
}
