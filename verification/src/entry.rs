//! The persisted record for a claim, and its binary encoding.
//!
//! The primary table stores each claim as an encoded byte string. The layout
//! is fixed: the claim number, then the claiming inscription's transaction id
//! and index, then the transaction id of the most recent ownership change,
//! then the canonical owner key, then the block height and time of the most
//! recent change. Variable-length fields carry a 32-bit little-endian length
//! prefix; all integers are 32-bit little-endian.

use vstd::prelude::*;
use crate::bytes::{
    u32_le, u32_from_le, lemma_u32_le_round_trip, push_u32_le, read_u32_le, append_bytes,
    copy_range, clone_bytes, bytes_eq,
};

verus! {

/// Identity of an inscription: the transaction that revealed it and the
/// index of the inscription within that transaction.
pub struct InscriptionId {
    pub txid: Vec<u8>,
    pub index: u32,
}

/// Mathematical value of an [`InscriptionId`].
pub ghost struct InscriptionIdV {
    pub txid: Seq<u8>,
    pub index: u32,
}

impl View for InscriptionId {
    type V = InscriptionIdV;

    open spec fn view(&self) -> InscriptionIdV {
        InscriptionIdV { txid: self.txid@, index: self.index }
    }
}

impl InscriptionId {
    /// A fresh copy of this inscription id.
    pub fn duplicate(&self) -> (r: InscriptionId)
        ensures
            r@ == self@,
    {
        InscriptionId { txid: clone_bytes(&self.txid), index: self.index }
    }
}

/// Whether two inscription ids are the same.
pub fn inscription_id_eq(a: &InscriptionId, b: &InscriptionId) -> (r: bool)
    ensures
        r == (a@ == b@),
{
    let r = bytes_eq(&a.txid, &b.txid) && a.index == b.index;
    r
}

/// The persisted record for one claim number.
pub struct PepemapEntry {
    /// The claim number; never changes once assigned.
    pub number: u32,
    /// The inscription that first validly claimed the number; never changes.
    pub inscription_id: InscriptionId,
    /// The transaction that most recently changed ownership.
    pub txid: Vec<u8>,
    /// Canonical owner key of the script currently controlling the claim.
    pub owner: Vec<u8>,
    /// Block height of the most recent ownership change.
    pub block_height: u32,
    /// Block time of the most recent ownership change.
    pub block_time: u32,
}

/// Mathematical value of a [`PepemapEntry`].
pub ghost struct PepemapEntryV {
    pub number: u32,
    pub inscription_id: InscriptionIdV,
    pub txid: Seq<u8>,
    pub owner: Seq<u8>,
    pub block_height: u32,
    pub block_time: u32,
}

impl View for PepemapEntry {
    type V = PepemapEntryV;

    open spec fn view(&self) -> PepemapEntryV {
        PepemapEntryV {
            number: self.number,
            inscription_id: self.inscription_id@,
            txid: self.txid@,
            owner: self.owner@,
            block_height: self.block_height,
            block_time: self.block_time,
        }
    }
}

/// Whether every variable-length field of `e` fits its 32-bit length prefix.
pub open spec fn encodable(e: PepemapEntryV) -> bool {
    &&& e.inscription_id.txid.len() <= u32::MAX
    &&& e.txid.len() <= u32::MAX
    &&& e.owner.len() <= u32::MAX
}

/// The encoded bytes of entry `e`.
pub open spec fn encode_entry_spec(e: PepemapEntryV) -> Seq<u8> {
    u32_le(e.number) + u32_le(e.inscription_id.txid.len() as u32) + e.inscription_id.txid
        + u32_le(e.inscription_id.index) + u32_le(e.txid.len() as u32) + e.txid + u32_le(
        e.owner.len() as u32,
    ) + e.owner + u32_le(e.block_height) + u32_le(e.block_time)
}

/// The entry stored in the byte string `b`, or `None` where `b` is not a
/// well-formed encoding.
pub open spec fn decode_entry_spec(b: Seq<u8>) -> Option<PepemapEntryV> {
    if b.len() < 8 {
        None
    } else {
        let number = u32_from_le(b[0], b[1], b[2], b[3]);
        let l1 = u32_from_le(b[4], b[5], b[6], b[7]) as int;
        if b.len() < 16 + l1 {
            None
        } else {
            let iid_txid = b.subrange(8, 8 + l1);
            let iid_index = u32_from_le(b[8 + l1], b[9 + l1], b[10 + l1], b[11 + l1]);
            let l2 = u32_from_le(b[12 + l1], b[13 + l1], b[14 + l1], b[15 + l1]) as int;
            if b.len() < 20 + l1 + l2 {
                None
            } else {
                let txid = b.subrange(16 + l1, 16 + l1 + l2);
                let l3 = u32_from_le(
                    b[16 + l1 + l2],
                    b[17 + l1 + l2],
                    b[18 + l1 + l2],
                    b[19 + l1 + l2],
                ) as int;
                if b.len() != 28 + l1 + l2 + l3 {
                    None
                } else {
                    let owner = b.subrange(20 + l1 + l2, 20 + l1 + l2 + l3);
                    let block_height = u32_from_le(
                        b[20 + l1 + l2 + l3],
                        b[21 + l1 + l2 + l3],
                        b[22 + l1 + l2 + l3],
                        b[23 + l1 + l2 + l3],
                    );
                    let block_time = u32_from_le(
                        b[24 + l1 + l2 + l3],
                        b[25 + l1 + l2 + l3],
                        b[26 + l1 + l2 + l3],
                        b[27 + l1 + l2 + l3],
                    );
                    Some(
                        PepemapEntryV {
                            number,
                            inscription_id: InscriptionIdV { txid: iid_txid, index: iid_index },
                            txid,
                            owner,
                            block_height,
                            block_time,
                        },
                    )
                }
            }
        }
    }
}

/// Encodes `e` into its persisted byte form; fails only where a field is too
/// long for its 32-bit length prefix.
pub fn encode_entry(e: &PepemapEntry) -> (r: Option<Vec<u8>>)
    ensures
        match r {
            Some(v) => encodable(e@) && v@ == encode_entry_spec(e@),
            None => !encodable(e@),
        },
{
    let max32: usize = 0xFFFF_FFFF;
    if e.inscription_id.txid.len() > max32 || e.txid.len() > max32 || e.owner.len() > max32 {
        return None;
    }
    let mut out: Vec<u8> = Vec::new();
    push_u32_le(&mut out, e.number);
    push_u32_le(&mut out, e.inscription_id.txid.len() as u32);
    append_bytes(&mut out, &e.inscription_id.txid);
    push_u32_le(&mut out, e.inscription_id.index);
    push_u32_le(&mut out, e.txid.len() as u32);
    append_bytes(&mut out, &e.txid);
    push_u32_le(&mut out, e.owner.len() as u32);
    append_bytes(&mut out, &e.owner);
    push_u32_le(&mut out, e.block_height);
    push_u32_le(&mut out, e.block_time);
    proof {
        assert(out@ =~= encode_entry_spec(e@));
    }
    Some(out)
}

/// Decodes a persisted byte string back into the entry it stores.
#[verifier::loop_isolation(false)]
pub fn decode_entry(bytes: &Vec<u8>) -> (r: Option<PepemapEntry>)
    ensures
        match r {
            Some(e) => decode_entry_spec(bytes@) == Some(e@),
            None => decode_entry_spec(bytes@) is None,
        },
{
    let len = bytes.len();
    if len < 8 {
        return None;
    }
    let number = read_u32_le(bytes, 0);
    let l1 = read_u32_le(bytes, 4) as usize;
    if len - 8 < l1 {
        return None;
    }
    let off1 = 8 + l1;
    if len - off1 < 8 {
        return None;
    }
    let iid_txid = copy_range(bytes, 8, off1);
    let iid_index = read_u32_le(bytes, off1);
    let l2 = read_u32_le(bytes, off1 + 4) as usize;
    let off2 = off1 + 8;
    if len - off2 < l2 {
        return None;
    }
    let off3 = off2 + l2;
    if len - off3 < 4 {
        return None;
    }
    let txid = copy_range(bytes, off2, off3);
    let l3 = read_u32_le(bytes, off3) as usize;
    let off4 = off3 + 4;
    if len - off4 < l3 {
        return None;
    }
    let off5 = off4 + l3;
    if len - off5 != 8 {
        return None;
    }
    let owner = copy_range(bytes, off4, off5);
    let block_height = read_u32_le(bytes, off5);
    let block_time = read_u32_le(bytes, off5 + 4);
    Some(
        PepemapEntry {
            number,
            inscription_id: InscriptionId { txid: iid_txid, index: iid_index },
            txid,
            owner,
            block_height,
            block_time,
        },
    )
}

/// Decoding the encoded form of any entry yields that entry back, so a
/// decode followed by a re-encode reproduces the original bytes exactly.
#[verifier::rlimit(100)]
pub proof fn lemma_entry_round_trip(e: PepemapEntryV)
    requires
        encodable(e),
    ensures
        decode_entry_spec(encode_entry_spec(e)) == Some(e),
{
    let b = encode_entry_spec(e);
    let l1 = e.inscription_id.txid.len() as int;
    let l2 = e.txid.len() as int;
    let l3 = e.owner.len() as int;
    assert(b.len() == 28 + l1 + l2 + l3);
    assert(b.subrange(0, 4) =~= u32_le(e.number));
    assert(b.subrange(4, 8) =~= u32_le(l1 as u32));
    assert(b.subrange(8, 8 + l1) =~= e.inscription_id.txid);
    assert(b.subrange(8 + l1, 12 + l1) =~= u32_le(e.inscription_id.index));
    assert(b.subrange(12 + l1, 16 + l1) =~= u32_le(l2 as u32));
    assert(b.subrange(16 + l1, 16 + l1 + l2) =~= e.txid);
    assert(b.subrange(16 + l1 + l2, 20 + l1 + l2) =~= u32_le(l3 as u32));
    assert(b.subrange(20 + l1 + l2, 20 + l1 + l2 + l3) =~= e.owner);
    assert(b.subrange(20 + l1 + l2 + l3, 24 + l1 + l2 + l3) =~= u32_le(e.block_height));
    assert(b.subrange(24 + l1 + l2 + l3, 28 + l1 + l2 + l3) =~= u32_le(e.block_time));
    lemma_u32_le_round_trip(e.number);
    lemma_u32_le_round_trip(l1 as u32);
    lemma_u32_le_round_trip(e.inscription_id.index);
    lemma_u32_le_round_trip(l2 as u32);
    lemma_u32_le_round_trip(l3 as u32);
    lemma_u32_le_round_trip(e.block_height);
    lemma_u32_le_round_trip(e.block_time);
    assert(u32_from_le(b[0], b[1], b[2], b[3]) == e.number);
    assert(u32_from_le(b[4], b[5], b[6], b[7]) == l1 as u32);
    assert(u32_from_le(b[8 + l1], b[9 + l1], b[10 + l1], b[11 + l1]) == e.inscription_id.index);
    assert(u32_from_le(b[12 + l1], b[13 + l1], b[14 + l1], b[15 + l1]) == l2 as u32);
    assert(u32_from_le(b[16 + l1 + l2], b[17 + l1 + l2], b[18 + l1 + l2], b[19 + l1 + l2])
        == l3 as u32);
    assert(u32_from_le(
        b[20 + l1 + l2 + l3],
        b[21 + l1 + l2 + l3],
        b[22 + l1 + l2 + l3],
        b[23 + l1 + l2 + l3],
    ) == e.block_height);
    assert(u32_from_le(
        b[24 + l1 + l2 + l3],
        b[25 + l1 + l2 + l3],
        b[26 + l1 + l2 + l3],
        b[27 + l1 + l2 + l3],
    ) == e.block_time);
}

} // verus!
