use pepemap::claim::Inscription;
use pepemap::entry::{InscriptionId, PepemapEntry, decode_entry};
use pepemap::script::Network;
use pepemap::tables::{InscriptionTable, NumberTable, OwnerTable, TransactionTable};
use pepemap::updater::{
    Action, BlockTx, InscriptionOp, PepemapContext, PepemapError, PepemapUpdater, SatPoint,
    TransactionEvents,
};

fn updater() -> PepemapUpdater {
    PepemapUpdater::new(
        NumberTable::new(),
        InscriptionTable::new(),
        OwnerTable::new(),
        TransactionTable::new(),
    )
    .unwrap()
}

fn tx_id(tag: u8) -> Vec<u8> {
    vec![tag; 32]
}

fn p2pkh_script(tag: u8) -> Vec<u8> {
    let mut script = vec![0x76, 0xa9, 0x14];
    script.extend_from_slice(&[tag; 20]);
    script.extend_from_slice(&[0x88, 0xac]);
    script
}

fn context(height: u32, time: u32) -> PepemapContext {
    PepemapContext { network: Network::Mainnet, block_height: height, block_time: time }
}

fn claim_op(body: &[u8], id_tag: u8, dest: Option<SatPoint>) -> InscriptionOp {
    InscriptionOp {
        action: Action::New {
            inscription: Inscription::new(None, Some(body.to_vec())),
        },
        inscription_id: InscriptionId { txid: tx_id(id_tag), index: 0 },
        new_satpoint: dest,
    }
}

fn transfer_op(id_tag: u8, dest: Option<SatPoint>) -> InscriptionOp {
    InscriptionOp {
        action: Action::Transfer,
        inscription_id: InscriptionId { txid: tx_id(id_tag), index: 0 },
        new_satpoint: dest,
    }
}

fn single_tx_ops(txid: Vec<u8>, op: InscriptionOp) -> Vec<TransactionEvents> {
    vec![TransactionEvents { txid, events: vec![op] }]
}

fn stored_entry(u: &PepemapUpdater, number: u32) -> PepemapEntry {
    decode_entry(&u.number_to_entry.get(number).unwrap()).unwrap()
}

/// Runs the first-claim scenario: block height 42, body `42.pepemap`,
/// destination script controlled by `p2pkh_script(0xAA)`.
fn claim_42(u: &mut PepemapUpdater) -> PepemapEntry {
    let script = p2pkh_script(0xAA);
    let block = vec![BlockTx { txid: tx_id(1), outputs: vec![script] }];
    let op = claim_op(b"42.pepemap", 9, Some(SatPoint { txid: tx_id(1), vout: 0 }));
    u.index_block(context(42, 1000), &block, &single_tx_ops(tx_id(1), op)).unwrap();
    stored_entry(u, 42)
}

#[test]
fn first_valid_claim_creates_entry_in_all_tables() {
    let mut u = updater();
    let entry = claim_42(&mut u);
    assert_eq!(entry.number, 42);
    assert_eq!(entry.inscription_id.txid, tx_id(9));
    assert_eq!(entry.inscription_id.index, 0);
    assert_eq!(entry.txid, tx_id(1));
    assert_eq!(entry.block_height, 42);
    assert_eq!(entry.block_time, 1000);
    // The owner key is an address encoding, not the raw script handed in.
    assert_ne!(entry.owner, p2pkh_script(0xAA));
    assert!(!entry.owner.is_empty());
    let id = InscriptionId { txid: tx_id(9), index: 0 };
    assert_eq!(u.inscription_to_number.get(&id), Some(42));
    assert!(u.owner_to_numbers.owns(&entry.owner, 42));
}

#[test]
fn owner_key_is_deterministic_for_identical_scripts() {
    let mut u1 = updater();
    let mut u2 = updater();
    let e1 = claim_42(&mut u1);
    let e2 = claim_42(&mut u2);
    assert_eq!(e1.owner, e2.owner);
}

#[test]
fn second_claim_for_taken_number_is_a_no_op() {
    let mut u = updater();
    claim_42(&mut u);
    let before = u.number_to_entry.get(42).unwrap();
    // A competing claim in a later block, from a different inscription and
    // to a different destination.
    let script = p2pkh_script(0xBB);
    let block = vec![BlockTx { txid: tx_id(2), outputs: vec![script] }];
    let op = claim_op(b"42.pepemap", 8, Some(SatPoint { txid: tx_id(2), vout: 0 }));
    u.index_block(context(50, 2000), &block, &single_tx_ops(tx_id(2), op)).unwrap();
    let after = u.number_to_entry.get(42).unwrap();
    assert_eq!(after, before);
    let competing_id = InscriptionId { txid: tx_id(8), index: 0 };
    assert_eq!(u.inscription_to_number.get(&competing_id), None);
}

#[test]
fn claim_number_equal_to_block_height_is_accepted() {
    let mut u = updater();
    let block = vec![BlockTx { txid: tx_id(1), outputs: vec![p2pkh_script(0xAA)] }];
    let op = claim_op(b"100.pepemap", 9, Some(SatPoint { txid: tx_id(1), vout: 0 }));
    u.index_block(context(100, 1000), &block, &single_tx_ops(tx_id(1), op)).unwrap();
    assert!(u.number_to_entry.contains(100));
}

#[test]
fn claim_number_past_block_height_is_rejected() {
    let mut u = updater();
    let block = vec![BlockTx { txid: tx_id(1), outputs: vec![p2pkh_script(0xAA)] }];
    let op = claim_op(b"101.pepemap", 9, Some(SatPoint { txid: tx_id(1), vout: 0 }));
    u.index_block(context(100, 1000), &block, &single_tx_ops(tx_id(1), op)).unwrap();
    assert!(!u.number_to_entry.contains(101));
}

#[test]
fn claim_without_destination_is_a_no_op() {
    let mut u = updater();
    let block = vec![BlockTx { txid: tx_id(1), outputs: vec![p2pkh_script(0xAA)] }];
    let op = claim_op(b"42.pepemap", 9, None);
    u.index_block(context(42, 1000), &block, &single_tx_ops(tx_id(1), op)).unwrap();
    assert!(!u.number_to_entry.contains(42));
}

#[test]
fn claim_with_unresolvable_destination_aborts_the_block() {
    let mut u = updater();
    let block = vec![BlockTx { txid: tx_id(1), outputs: vec![p2pkh_script(0xAA)] }];
    let op = claim_op(b"42.pepemap", 9, Some(SatPoint { txid: tx_id(3), vout: 0 }));
    let r = u.index_block(context(42, 1000), &block, &single_tx_ops(tx_id(1), op));
    assert_eq!(r, Err(PepemapError::ResolutionFailure));
}

#[test]
fn claim_with_out_of_range_output_aborts_the_block() {
    let mut u = updater();
    let block = vec![BlockTx { txid: tx_id(1), outputs: vec![p2pkh_script(0xAA)] }];
    let op = claim_op(b"42.pepemap", 9, Some(SatPoint { txid: tx_id(1), vout: 5 }));
    let r = u.index_block(context(42, 1000), &block, &single_tx_ops(tx_id(1), op));
    assert_eq!(r, Err(PepemapError::ResolutionFailure));
}

#[test]
fn transfer_to_new_owner_moves_the_claim() {
    let mut u = updater();
    let first = claim_42(&mut u);
    let new_script = p2pkh_script(0xBB);
    let block = vec![BlockTx { txid: tx_id(2), outputs: vec![new_script.clone()] }];
    let op = transfer_op(9, Some(SatPoint { txid: tx_id(2), vout: 0 }));
    u.index_block(context(100, 2000), &block, &single_tx_ops(tx_id(2), op)).unwrap();
    let moved = stored_entry(&u, 42);
    assert_eq!(moved.number, 42);
    assert_eq!(moved.inscription_id.txid, tx_id(9));
    assert_ne!(moved.owner, first.owner);
    assert_ne!(moved.owner, new_script);
    assert_eq!(moved.txid, tx_id(2));
    assert_eq!(moved.block_height, 100);
    assert_eq!(moved.block_time, 2000);
    assert!(!u.owner_to_numbers.owns(&first.owner, 42));
    assert!(u.owner_to_numbers.owns(&moved.owner, 42));
}

#[test]
fn transfer_to_same_owner_performs_zero_writes() {
    let mut u = updater();
    let first = claim_42(&mut u);
    let before = u.number_to_entry.get(42).unwrap();
    // The same script controls the destination, so the owner is unchanged.
    let block = vec![BlockTx { txid: tx_id(2), outputs: vec![p2pkh_script(0xAA)] }];
    let op = transfer_op(9, Some(SatPoint { txid: tx_id(2), vout: 0 }));
    u.index_block(context(100, 2000), &block, &single_tx_ops(tx_id(2), op)).unwrap();
    assert_eq!(u.number_to_entry.get(42).unwrap(), before);
    assert!(u.owner_to_numbers.owns(&first.owner, 42));
}

#[test]
fn transfer_of_unknown_inscription_performs_zero_writes() {
    let mut u = updater();
    let first = claim_42(&mut u);
    let before = u.number_to_entry.get(42).unwrap();
    let block = vec![BlockTx { txid: tx_id(2), outputs: vec![p2pkh_script(0xBB)] }];
    let op = transfer_op(7, Some(SatPoint { txid: tx_id(2), vout: 0 }));
    u.index_block(context(100, 2000), &block, &single_tx_ops(tx_id(2), op)).unwrap();
    assert_eq!(u.number_to_entry.get(42).unwrap(), before);
    assert!(u.owner_to_numbers.owns(&first.owner, 42));
    let unknown_id = InscriptionId { txid: tx_id(7), index: 0 };
    assert_eq!(u.inscription_to_number.get(&unknown_id), None);
}

#[test]
fn transfer_without_destination_is_a_no_op() {
    let mut u = updater();
    let first = claim_42(&mut u);
    let before = u.number_to_entry.get(42).unwrap();
    let block: Vec<BlockTx> = Vec::new();
    let op = transfer_op(9, None);
    u.index_block(context(100, 2000), &block, &single_tx_ops(tx_id(2), op)).unwrap();
    assert_eq!(u.number_to_entry.get(42).unwrap(), before);
    assert!(u.owner_to_numbers.owns(&first.owner, 42));
}

#[test]
fn dangling_reverse_binding_aborts_the_block() {
    let mut inscription_to_number = InscriptionTable::new();
    inscription_to_number.insert(InscriptionId { txid: tx_id(9), index: 0 }, 7);
    let mut u = PepemapUpdater::new(
        NumberTable::new(),
        inscription_to_number,
        OwnerTable::new(),
        TransactionTable::new(),
    )
    .unwrap();
    let block: Vec<BlockTx> = Vec::new();
    let op = transfer_op(9, Some(SatPoint { txid: tx_id(2), vout: 0 }));
    let r = u.index_block(context(100, 2000), &block, &single_tx_ops(tx_id(2), op));
    assert_eq!(r, Err(PepemapError::ConsistencyFailure));
}

#[test]
fn corrupt_stored_entry_aborts_the_block() {
    let mut number_to_entry = NumberTable::new();
    number_to_entry.insert(7, vec![1, 2, 3]);
    let mut inscription_to_number = InscriptionTable::new();
    inscription_to_number.insert(InscriptionId { txid: tx_id(9), index: 0 }, 7);
    let mut u = PepemapUpdater::new(
        number_to_entry,
        inscription_to_number,
        OwnerTable::new(),
        TransactionTable::new(),
    )
    .unwrap();
    let block: Vec<BlockTx> = Vec::new();
    let op = transfer_op(9, Some(SatPoint { txid: tx_id(2), vout: 0 }));
    let r = u.index_block(context(100, 2000), &block, &single_tx_ops(tx_id(2), op));
    assert_eq!(r, Err(PepemapError::SerializationFailure));
}

#[test]
fn owner_resolves_from_the_persisted_transaction_table() {
    // The destination's transaction is not in the block; its raw bytes sit
    // in the persisted table and are decoded on demand.
    let script = p2pkh_script(0xAA);
    let tx = bitcoin::Transaction {
        version: bitcoin::transaction::Version::TWO,
        lock_time: bitcoin::absolute::LockTime::ZERO,
        input: vec![bitcoin::TxIn {
            previous_output: bitcoin::OutPoint::null(),
            script_sig: bitcoin::ScriptBuf::new(),
            sequence: bitcoin::Sequence::MAX,
            witness: bitcoin::Witness::new(),
        }],
        output: vec![bitcoin::TxOut {
            value: bitcoin::Amount::from_sat(1_000),
            script_pubkey: bitcoin::ScriptBuf::from_bytes(script),
        }],
    };
    let raw = bitcoin::consensus::encode::serialize(&tx);
    let mut transactions = TransactionTable::new();
    transactions.insert(tx_id(5), raw);
    let mut u = PepemapUpdater::new(
        NumberTable::new(),
        InscriptionTable::new(),
        OwnerTable::new(),
        transactions,
    )
    .unwrap();
    let block: Vec<BlockTx> = Vec::new();
    let op = claim_op(b"42.pepemap", 9, Some(SatPoint { txid: tx_id(5), vout: 0 }));
    u.index_block(context(42, 1000), &block, &single_tx_ops(tx_id(1), op)).unwrap();
    let entry = stored_entry(&u, 42);
    // The same script claimed through an in-block transaction must give the
    // same owner key.
    let mut v = updater();
    let in_block = claim_42(&mut v);
    assert_eq!(entry.owner, in_block.owner);
}

#[test]
fn events_apply_in_block_then_event_order() {
    // Two claims for the same number inside one block: the first one in
    // block order wins.
    let mut u = updater();
    let block = vec![
        BlockTx { txid: tx_id(1), outputs: vec![p2pkh_script(0xAA)] },
        BlockTx { txid: tx_id(2), outputs: vec![p2pkh_script(0xBB)] },
    ];
    let ops = vec![
        TransactionEvents {
            txid: tx_id(1),
            events: vec![claim_op(b"42.pepemap", 9, Some(SatPoint { txid: tx_id(1), vout: 0 }))],
        },
        TransactionEvents {
            txid: tx_id(2),
            events: vec![claim_op(b"42.pepemap", 8, Some(SatPoint { txid: tx_id(2), vout: 0 }))],
        },
    ];
    u.index_block(context(42, 1000), &block, &ops).unwrap();
    let entry = stored_entry(&u, 42);
    assert_eq!(entry.inscription_id.txid, tx_id(9));
    let loser = InscriptionId { txid: tx_id(8), index: 0 };
    assert_eq!(u.inscription_to_number.get(&loser), None);
}

#[test]
fn fallback_owner_key_for_non_address_script_is_stable() {
    // An OP_RETURN script has no address form; the raw-script fallback must
    // still be deterministic and distinct from the script bytes themselves.
    let script = vec![0x6a, 0x03, 0x01, 0x02, 0x03];
    let block = vec![BlockTx { txid: tx_id(1), outputs: vec![script.clone()] }];
    let op = claim_op(b"42.pepemap", 9, Some(SatPoint { txid: tx_id(1), vout: 0 }));
    let mut u = updater();
    u.index_block(context(42, 1000), &block, &single_tx_ops(tx_id(1), op)).unwrap();
    let entry = stored_entry(&u, 42);
    assert_ne!(entry.owner, script);
    assert!(!entry.owner.is_empty());
}
