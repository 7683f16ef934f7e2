use std::str::FromStr;

use wallet_core::num::parse_u64_dec;
use wallet_core::seed::{bootstrap_seed, ensure_seed, SeedStore};
use wallet_core::spend::{
    settle_spend, validate_spend, SpendAction, SpendError, SpendEvent, SpendMachine, SpendOutcome,
    SpendPhase,
};
use wallet_core::state::{ChainUpdate, TxEntry, WalletState};
use wallet_core::view::{
    balance_of, classify_amounts, pos_le_exec, sort_by_position, tx_view_of, Balance, ChainPos,
    TxView, Utxo,
};

// a valid signet/testnet bech32 address, derived rather than hard-coded
fn valid_signet_address() -> bdk_wallet::bitcoin::Address {
    let pk_bytes = [
        0x02, 0x79, 0xbe, 0x66, 0x7e, 0xf9, 0xdc, 0xbb, 0xac, 0x55, 0xa0, 0x62, 0x95, 0xce, 0x87,
        0x0b, 0x07, 0x02, 0x9b, 0xfc, 0xdb, 0x2d, 0xce, 0x28, 0xd9, 0x59, 0xf2, 0x81, 0x5b, 0x16,
        0xf8, 0x17, 0x98,
    ];
    let pk = bdk_wallet::bitcoin::CompressedPublicKey::from_slice(&pk_bytes).unwrap();
    bdk_wallet::bitcoin::Address::p2wpkh(&pk, bdk_wallet::bitcoin::Network::Signet)
}

#[test]
fn parse_accepts_plain_decimals() {
    assert_eq!(parse_u64_dec("0"), Some(0));
    assert_eq!(parse_u64_dec("123"), Some(123));
    assert_eq!(parse_u64_dec("+42"), Some(42));
    assert_eq!(parse_u64_dec("18446744073709551615"), Some(u64::MAX));
}

#[test]
fn parse_rejects_malformed_decimals() {
    assert_eq!(parse_u64_dec(""), None);
    assert_eq!(parse_u64_dec("+"), None);
    assert_eq!(parse_u64_dec("abc"), None);
    assert_eq!(parse_u64_dec("12a"), None);
    assert_eq!(parse_u64_dec("-5"), None);
    assert_eq!(parse_u64_dec("18446744073709551616"), None);
}

#[test]
fn parse_matches_std_parser() {
    for s in ["0", "007", "+9", "99999999999999999999", "4 2", " 1", "1 "] {
        assert_eq!(parse_u64_dec(s), u64::from_str(s).ok());
    }
}

#[test]
fn classify_self_transfer_shows_fee_as_sent() {
    // the wallet owns all inputs (10,000) and one output back to itself
    // (9,900); fee 100: a net spend of exactly the fee
    assert_eq!(classify_amounts(10_000, 9_900), (100, 0));
}

#[test]
fn classify_pure_receive_ignores_fee() {
    // the wallet owns no inputs and receives 5,000
    assert_eq!(classify_amounts(0, 5_000), (0, 5_000));
}

#[test]
fn tx_view_carries_classification() {
    let pos = ChainPos::Confirmed { height: 5, time: 40 };
    let v = tx_view_of(7, 10_000, 9_900, 100, 2, pos);
    assert_eq!(v.txid, 7);
    assert_eq!(v.sent, 100);
    assert_eq!(v.received, 0);
    assert_eq!(v.fee, 100);
    assert_eq!(v.fee_rate, 2);
    assert_eq!(v.pos, pos);
}

fn view_at(txid: u64, pos: ChainPos) -> TxView {
    TxView { txid, sent: 0, received: 1, fee: 0, fee_rate: 1, pos }
}

#[test]
fn ordering_confirmed_before_unconfirmed() {
    let unconf = view_at(1, ChainPos::Unconfirmed { last_seen: 900 });
    let conf200 = view_at(2, ChainPos::Confirmed { height: 200, time: 20 });
    let conf100 = view_at(3, ChainPos::Confirmed { height: 100, time: 10 });
    let mut txs = vec![unconf, conf200, conf100];
    sort_by_position(&mut txs);
    let ids: Vec<u64> = txs.iter().map(|t| t.txid).collect();
    assert_eq!(ids, vec![3, 2, 1]);

    // repeated calls with unchanged input render identically
    let mut again = vec![unconf, conf200, conf100];
    sort_by_position(&mut again);
    assert_eq!(again, txs);
}

#[test]
fn ordering_is_stable_for_equal_positions() {
    let pos = ChainPos::Confirmed { height: 10, time: 10 };
    let a = view_at(1, pos);
    let b = view_at(2, pos);
    let mut txs = vec![a, b];
    sort_by_position(&mut txs);
    assert_eq!(txs[0].txid, 1);
    assert_eq!(txs[1].txid, 2);
}

#[test]
fn position_order_is_total() {
    let positions = [
        ChainPos::Confirmed { height: 1, time: 1 },
        ChainPos::Confirmed { height: 1, time: 2 },
        ChainPos::Confirmed { height: 2, time: 0 },
        ChainPos::Unconfirmed { last_seen: 0 },
        ChainPos::Unconfirmed { last_seen: 5 },
    ];
    for a in positions {
        for b in positions {
            assert!(pos_le_exec(&a, &b) || pos_le_exec(&b, &a));
        }
    }
}

#[test]
fn balance_totals_split_by_confirmation() {
    let utxos = vec![
        Utxo { value: 1_000, confirmed: true },
        Utxo { value: 250, confirmed: false },
        Utxo { value: 4_000, confirmed: true },
    ];
    let b = balance_of(&utxos).unwrap();
    assert_eq!(b, Balance { confirmed: 5_000, unconfirmed: 250 });
    assert_eq!(b.total(), 5_250);
}

#[test]
fn balance_reports_overflow() {
    let utxos = vec![
        Utxo { value: u64::MAX, confirmed: true },
        Utxo { value: 1, confirmed: true },
    ];
    assert!(balance_of(&utxos).is_none());
}

fn sample_update() -> ChainUpdate {
    ChainUpdate {
        external_used: vec![true, false, true],
        txs: vec![
            TxEntry { txid: 1, pos: ChainPos::Confirmed { height: 100, time: 10 } },
            TxEntry { txid: 2, pos: ChainPos::Unconfirmed { last_seen: 50 } },
        ],
    }
}

#[test]
fn apply_update_merges_and_confirms() {
    let mut state = WalletState::new();
    state.txs.push(TxEntry { txid: 1, pos: ChainPos::Unconfirmed { last_seen: 5 } });
    state.external_used.push(false);

    state.apply_update(&sample_update());

    // the known transaction was confirmed in place, the new one appended
    assert_eq!(state.txs.len(), 2);
    assert_eq!(state.txs[0].txid, 1);
    assert_eq!(state.txs[0].pos, ChainPos::Confirmed { height: 100, time: 10 });
    assert_eq!(state.txs[1].txid, 2);
    // activity accumulated and the address list grew to the update's size
    assert_eq!(state.external_used, vec![true, false, true]);
    // the change index is untouched by a sync
    assert_eq!(state.internal_next, 0);
}

#[test]
fn apply_update_twice_changes_nothing() {
    let mut once = WalletState::new();
    once.txs.push(TxEntry { txid: 1, pos: ChainPos::Unconfirmed { last_seen: 5 } });
    once.apply_update(&sample_update());

    let mut twice = WalletState::new();
    twice.txs.push(TxEntry { txid: 1, pos: ChainPos::Unconfirmed { last_seen: 5 } });
    twice.apply_update(&sample_update());
    twice.apply_update(&sample_update());

    assert_eq!(once.txs, twice.txs);
    assert_eq!(once.external_used, twice.external_used);
    assert_eq!(once.internal_next, twice.internal_next);
}

#[test]
fn next_unused_external_picks_lowest_gap() {
    let mut state = WalletState::new();
    state.external_used = vec![true, false, true];
    let before = state.external_used.clone();
    assert_eq!(state.next_unused_external(), 1);
    assert_eq!(state.external_used, before);
}

#[test]
fn next_unused_external_reveals_when_exhausted() {
    let mut state = WalletState::new();
    state.external_used = vec![true, true];
    assert_eq!(state.next_unused_external(), 2);
    assert_eq!(state.external_used, vec![true, true, false]);
}

#[test]
fn ensure_seed_is_idempotent() {
    let mut store = SeedStore::new();
    let name = String::from("primary");
    let first = ensure_seed(&mut store, &name, &[0u8; 32]);
    // a second bootstrap, even with different entropy, returns the stored phrase
    let second = ensure_seed(&mut store, &name, &[7u8; 32]);
    assert_eq!(first, second);
    assert_eq!(store.rows.len(), 1);
    assert_eq!(store.rows[0].name, "primary");
    assert_eq!(store.rows[0].phrase, first);
}

#[test]
fn ensure_seed_derives_the_bip39_phrase() {
    // the twelve-word phrase of all-zero entropy is fixed by BIP-39
    let mut store = SeedStore::new();
    let name = String::from("primary");
    let phrase = ensure_seed(&mut store, &name, &[0u8; 32]);
    assert_eq!(
        phrase,
        "abandon abandon abandon abandon abandon abandon abandon abandon abandon abandon abandon about"
    );
}

#[test]
fn ensure_seed_is_deterministic_in_entropy() {
    let mut store_a = SeedStore::new();
    let mut store_b = SeedStore::new();
    let name = String::from("primary");
    let entropy = [5u8; 32];
    assert_eq!(
        ensure_seed(&mut store_a, &name, &entropy),
        ensure_seed(&mut store_b, &name, &entropy)
    );
}

#[test]
fn bootstrap_with_fresh_entropy_is_idempotent() {
    let mut store = SeedStore::new();
    let name = String::from("primary");
    let first = bootstrap_seed(&mut store, &name);
    let second = bootstrap_seed(&mut store, &name);
    assert_eq!(first, second);
    assert_eq!(store.rows.len(), 1);
    // the phrase is a twelve-word mnemonic
    assert_eq!(first.split(' ').count(), 12);
}

#[test]
fn validation_rejects_bad_amount_without_state_change() {
    let addr = valid_signet_address().to_string();
    let r = validate_spend(&addr, "abc", "2", b"");
    assert!(matches!(r, Err(SpendError::InvalidAmount)));
}

#[test]
fn validation_rejects_bad_address() {
    let r = validate_spend("abc", "1000", "2", b"");
    assert!(matches!(r, Err(SpendError::InvalidAddress)));
}

#[test]
fn validation_rejects_mainnet_address() {
    // a valid address of the wrong network is refused
    let mainnet = "bc1qw508d6qejxtdg4y5r3zarvary0c5xw7kv8f3t4";
    let r = validate_spend(mainnet, "1000", "2", b"");
    assert!(matches!(r, Err(SpendError::InvalidAddress)));
}

#[test]
fn validation_rejects_zero_or_malformed_fee_rate() {
    let addr = valid_signet_address().to_string();
    assert!(matches!(
        validate_spend(&addr, "1000", "0", b""),
        Err(SpendError::InvalidFeeRate)
    ));
    assert!(matches!(
        validate_spend(&addr, "1000", "x", b""),
        Err(SpendError::InvalidFeeRate)
    ));
}

#[test]
fn validation_rejects_oversized_note() {
    let addr = valid_signet_address().to_string();
    let note = [0u8; 81];
    assert!(matches!(
        validate_spend(&addr, "1000", "2", &note),
        Err(SpendError::NoteTooLong)
    ));
}

#[test]
fn validation_accepts_and_decodes_the_address() {
    let address = valid_signet_address();
    let intent = validate_spend(&address.to_string(), "1500", "2", b"hello").unwrap();
    assert_eq!(intent.amount_sat, 1_500);
    assert_eq!(intent.fee_rate, 2);
    assert_eq!(intent.note, b"hello");
    // the script must be the one the address denotes, not an echo of the input
    assert_eq!(intent.script, address.script_pubkey().into_bytes());
}

#[test]
fn spend_machine_happy_path() {
    let mut m = SpendMachine::new();
    assert_eq!(m.step(SpendEvent::Built { ok: true }), SpendAction::RunSign);
    assert_eq!(
        m.step(SpendEvent::Signed { finalized: true }),
        SpendAction::RunBroadcast
    );
    assert_eq!(
        m.step(SpendEvent::Broadcasted { ok: true }),
        SpendAction::RunPersist
    );
    assert_eq!(m.step(SpendEvent::Persisted { ok: true }), SpendAction::Complete);
    assert_eq!(m.phase, SpendPhase::Persisted);
}

#[test]
fn nonfinalized_signature_never_broadcasts() {
    let mut m = SpendMachine::new();
    assert_eq!(m.step(SpendEvent::Built { ok: true }), SpendAction::RunSign);
    let action = m.step(SpendEvent::Signed { finalized: false });
    assert_eq!(action, SpendAction::Reject { err: SpendError::NotFinalized });
    assert_eq!(m.phase, SpendPhase::Aborted);

    // and the wallet state is left byte-for-byte unchanged
    let mut state = WalletState::new();
    state.external_used = vec![true];
    state.internal_next = 3;
    state.txs.push(TxEntry { txid: 9, pos: ChainPos::Unconfirmed { last_seen: 1 } });
    let persist = settle_spend(&mut state, SpendOutcome::NotFinalized);
    assert!(!persist);
    assert_eq!(state.external_used, vec![true]);
    assert_eq!(state.internal_next, 3);
    assert_eq!(
        state.txs,
        vec![TxEntry { txid: 9, pos: ChainPos::Unconfirmed { last_seen: 1 } }]
    );
}

#[test]
fn failed_build_rejects_with_build_error() {
    let mut m = SpendMachine::new();
    assert_eq!(
        m.step(SpendEvent::Built { ok: false }),
        SpendAction::Reject { err: SpendError::BuildFailed }
    );
    let mut state = WalletState::new();
    assert!(!settle_spend(&mut state, SpendOutcome::BuildFailed));
    assert_eq!(state.internal_next, 0);
}

#[test]
fn failed_broadcast_rejects_but_keeps_index() {
    let mut m = SpendMachine::new();
    m.step(SpendEvent::Built { ok: true });
    m.step(SpendEvent::Signed { finalized: true });
    assert_eq!(
        m.step(SpendEvent::Broadcasted { ok: false }),
        SpendAction::Reject { err: SpendError::BroadcastFailed }
    );
}

#[test]
fn failed_persist_is_loud() {
    let mut m = SpendMachine::new();
    m.step(SpendEvent::Built { ok: true });
    m.step(SpendEvent::Signed { finalized: true });
    m.step(SpendEvent::Broadcasted { ok: true });
    assert_eq!(
        m.step(SpendEvent::Persisted { ok: false }),
        SpendAction::Reject { err: SpendError::PersistFailed }
    );
}

#[test]
fn change_indices_increase_even_after_failed_broadcast() {
    let mut state = WalletState::new();
    // first spend: broadcast fails; the index it consumed is not reused
    let used_first = state.internal_next;
    let persist_first = settle_spend(&mut state, SpendOutcome::BroadcastFailed);
    assert!(!persist_first);
    // second spend: succeeds, consuming the next index
    let used_second = state.internal_next;
    let persist_second = settle_spend(&mut state, SpendOutcome::Broadcasted { txid: 77 });
    assert!(persist_second);
    assert!(used_second > used_first);
    assert_eq!(state.internal_next, 2);
}
