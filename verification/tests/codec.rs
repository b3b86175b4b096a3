use pepemap::entry::{InscriptionId, PepemapEntry, encode_entry, decode_entry};

fn sample_entry() -> PepemapEntry {
    PepemapEntry {
        number: 42,
        inscription_id: InscriptionId { txid: vec![9u8; 32], index: 3 },
        txid: vec![7u8; 32],
        owner: b"bc1qexampleownerkey".to_vec(),
        block_height: 42,
        block_time: 1_700_000_000,
    }
}

#[test]
fn entry_round_trips_through_the_codec() {
    let entry = sample_entry();
    let encoded = encode_entry(&entry).unwrap();
    let decoded = decode_entry(&encoded).unwrap();
    assert_eq!(decoded.number, entry.number);
    assert_eq!(decoded.inscription_id.txid, entry.inscription_id.txid);
    assert_eq!(decoded.inscription_id.index, entry.inscription_id.index);
    assert_eq!(decoded.txid, entry.txid);
    assert_eq!(decoded.owner, entry.owner);
    assert_eq!(decoded.block_height, entry.block_height);
    assert_eq!(decoded.block_time, entry.block_time);
    let reencoded = encode_entry(&decoded).unwrap();
    assert_eq!(reencoded, encoded);
}

#[test]
fn entry_with_empty_owner_round_trips() {
    let mut entry = sample_entry();
    entry.owner = Vec::new();
    let encoded = encode_entry(&entry).unwrap();
    let decoded = decode_entry(&encoded).unwrap();
    assert_eq!(decoded.owner, Vec::<u8>::new());
    assert_eq!(encode_entry(&decoded).unwrap(), encoded);
}

#[test]
fn decode_rejects_truncated_bytes() {
    let entry = sample_entry();
    let mut encoded = encode_entry(&entry).unwrap();
    encoded.pop();
    assert!(decode_entry(&encoded).is_none());
}

#[test]
fn decode_rejects_trailing_bytes() {
    let entry = sample_entry();
    let mut encoded = encode_entry(&entry).unwrap();
    encoded.push(0);
    assert!(decode_entry(&encoded).is_none());
}

#[test]
fn decode_rejects_garbage() {
    assert!(decode_entry(&vec![1, 2, 3]).is_none());
    assert!(decode_entry(&Vec::new()).is_none());
    assert!(decode_entry(&vec![0xFF; 64]).is_none());
}
