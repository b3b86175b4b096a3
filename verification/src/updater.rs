//! The per-block index updater.
//!
//! For each block the updater consumes an ordered stream of inscription
//! events — claims and transfers — and keeps the three claim tables
//! consistent. Every handler is specified against a functional transition
//! over the tables' views, so the exact effect of a block is pinned down:
//! which events are silent no-ops, which mutate the tables and how, and
//! which abort the block with a fatal error.

use vstd::prelude::*;
use crate::bytes::{bytes_eq, clone_bytes};
use crate::claim::{Inscription, spec_parse_number, parse_number};
use crate::entry::{
    InscriptionId, InscriptionIdV, PepemapEntry, PepemapEntryV, encodable, encode_entry_spec,
    decode_entry_spec, encode_entry, decode_entry,
};
use crate::script::{
    Network, network_code, owner_key_of, tx_outputs_of, script_owner_key, decode_tx_output_scripts,
};
use crate::tables::{NumberTable, InscriptionTable, OwnerTable, TransactionTable, set_at};

verus! {

/// Per-block context: the network and the block's height and time.
#[derive(Clone, Copy)]
pub struct PepemapContext {
    pub network: Network,
    pub block_height: u32,
    pub block_time: u32,
}

/// A reference to a transaction output: transaction id and output index.
pub struct SatPoint {
    pub txid: Vec<u8>,
    pub vout: u32,
}

/// One transaction of the current block: its id and its outputs' scripts.
pub struct BlockTx {
    pub txid: Vec<u8>,
    pub outputs: Vec<Vec<u8>>,
}

/// What an inscription event does: reveal new content, or move an existing
/// inscription.
pub enum Action {
    New { inscription: Inscription },
    Transfer,
}

/// One inscription event: its action, the inscription's identity, and the
/// output the inscription lands on, where one is known.
pub struct InscriptionOp {
    pub action: Action,
    pub inscription_id: InscriptionId,
    pub new_satpoint: Option<SatPoint>,
}

/// The ordered events of one transaction of the block.
pub struct TransactionEvents {
    pub txid: Vec<u8>,
    pub events: Vec<InscriptionOp>,
}

/// A fatal failure; any of these aborts the whole block.
#[derive(PartialEq, Eq, Structural, Clone, Copy, Debug)]
pub enum PepemapError {
    /// A destination could not be resolved to an owning script.
    ResolutionFailure,
    /// The reverse table points at a number with no primary entry.
    ConsistencyFailure,
    /// A stored entry could not be encoded or decoded.
    SerializationFailure,
}

/// The views of the four tables as one state.
pub ghost struct Tables {
    pub primary: Map<u32, Seq<u8>>,
    pub reverse: Map<InscriptionIdV, u32>,
    pub ownership: Map<Seq<u8>, Set<u32>>,
    pub transactions: Map<Seq<u8>, Seq<u8>>,
}

/// The output scripts of the first block transaction with id `txid`.
pub open spec fn lookup_block(block: Seq<BlockTx>, txid: Seq<u8>) -> Option<Seq<Seq<u8>>>
    decreases block.len(),
{
    if block.len() == 0 {
        None
    } else if block[0].txid@ == txid {
        Some(block[0].outputs.deep_view())
    } else {
        lookup_block(block.drop_first(), txid)
    }
}

/// The canonical owner key controlling `sp`, resolved first against the
/// block's own transactions, then against the raw-transaction table; `None`
/// where the transaction is unknown, its bytes do not decode, or the output
/// index is out of range.
pub open spec fn spec_resolve_owner(
    block: Seq<BlockTx>,
    transactions: Map<Seq<u8>, Seq<u8>>,
    sp: SatPoint,
    network: Network,
) -> Option<Seq<u8>> {
    match lookup_block(block, sp.txid@) {
        Some(outs) => if sp.vout < outs.len() {
            Some(owner_key_of(outs[sp.vout as int], network_code(network)))
        } else {
            None
        },
        None => if transactions.contains_key(sp.txid@) {
            match tx_outputs_of(transactions[sp.txid@]) {
                Some(outs) => if sp.vout < outs.len() {
                    Some(owner_key_of(outs[sp.vout as int], network_code(network)))
                } else {
                    None
                },
                None => None,
            }
        } else {
            None
        },
    }
}

/// The entry a successful claim writes.
pub open spec fn claim_entry(
    ctx: PepemapContext,
    txid: Seq<u8>,
    op: InscriptionOp,
    number: u32,
    owner: Seq<u8>,
) -> PepemapEntryV {
    PepemapEntryV {
        number,
        inscription_id: op.inscription_id@,
        txid,
        owner,
        block_height: ctx.block_height,
        block_time: ctx.block_time,
    }
}

/// The effect of one claim event on the tables: a silent no-op where the
/// content is no claim, the number is premature or taken, or no destination
/// is known; a fatal error where the destination cannot be resolved or the
/// new entry cannot be encoded; otherwise one new entry in all three tables.
pub open spec fn spec_handle_claim(
    t: Tables,
    ctx: PepemapContext,
    block: Seq<BlockTx>,
    txid: Seq<u8>,
    op: InscriptionOp,
    inscription: Inscription,
) -> Result<Tables, PepemapError> {
    match spec_parse_number(inscription) {
        None => Ok(t),
        Some(number) => if number > ctx.block_height {
            Ok(t)
        } else if t.primary.contains_key(number) {
            Ok(t)
        } else {
            match op.new_satpoint {
                None => Ok(t),
                Some(sp) => match spec_resolve_owner(block, t.transactions, sp, ctx.network) {
                    None => Err(PepemapError::ResolutionFailure),
                    Some(owner) => {
                        let e = claim_entry(ctx, txid, op, number, owner);
                        if !encodable(e) {
                            Err(PepemapError::SerializationFailure)
                        } else {
                            Ok(
                                Tables {
                                    primary: t.primary.insert(number, encode_entry_spec(e)),
                                    reverse: t.reverse.insert(op.inscription_id@, number),
                                    ownership: t.ownership.insert(
                                        owner,
                                        set_at(t.ownership, owner).insert(number),
                                    ),
                                    transactions: t.transactions,
                                },
                            )
                        }
                    },
                },
            }
        },
    }
}

/// The entry a successful transfer writes: the old entry under the new
/// owner, stamped with the transferring transaction and block.
pub open spec fn transfer_entry(
    ctx: PepemapContext,
    txid: Seq<u8>,
    e: PepemapEntryV,
    new_owner: Seq<u8>,
) -> PepemapEntryV {
    PepemapEntryV {
        number: e.number,
        inscription_id: e.inscription_id,
        txid,
        owner: new_owner,
        block_height: ctx.block_height,
        block_time: ctx.block_time,
    }
}

/// The ownership map after moving `number` from `old_owner` to `new_owner`.
pub open spec fn move_ownership(
    m: Map<Seq<u8>, Set<u32>>,
    old_owner: Seq<u8>,
    new_owner: Seq<u8>,
    number: u32,
) -> Map<Seq<u8>, Set<u32>> {
    let removed = if m.contains_key(old_owner) {
        m.insert(old_owner, m[old_owner].remove(number))
    } else {
        m
    };
    removed.insert(new_owner, set_at(removed, new_owner).insert(number))
}

/// The effect of one transfer event on the tables: a silent no-op where the
/// inscription claimed nothing, no destination is known, or the owner does
/// not change; a fatal error where the tables are inconsistent, an entry
/// does not decode or encode, or the destination cannot be resolved;
/// otherwise the entry moves to the new owner.
pub open spec fn spec_handle_transfer(
    t: Tables,
    ctx: PepemapContext,
    block: Seq<BlockTx>,
    txid: Seq<u8>,
    op: InscriptionOp,
) -> Result<Tables, PepemapError> {
    if !t.reverse.contains_key(op.inscription_id@) {
        Ok(t)
    } else {
        let number = t.reverse[op.inscription_id@];
        if !t.primary.contains_key(number) {
            Err(PepemapError::ConsistencyFailure)
        } else {
            match decode_entry_spec(t.primary[number]) {
                None => Err(PepemapError::SerializationFailure),
                Some(e) => match op.new_satpoint {
                    None => Ok(t),
                    Some(sp) => match spec_resolve_owner(block, t.transactions, sp, ctx.network) {
                        None => Err(PepemapError::ResolutionFailure),
                        Some(new_owner) => if new_owner == e.owner {
                            Ok(t)
                        } else {
                            let e2 = transfer_entry(ctx, txid, e, new_owner);
                            if !encodable(e2) {
                                Err(PepemapError::SerializationFailure)
                            } else {
                                Ok(
                                    Tables {
                                        primary: t.primary.insert(number, encode_entry_spec(e2)),
                                        reverse: t.reverse,
                                        ownership: move_ownership(
                                            t.ownership,
                                            e.owner,
                                            new_owner,
                                            number,
                                        ),
                                        transactions: t.transactions,
                                    },
                                )
                            }
                        },
                    },
                },
            }
        }
    }
}

/// The effect of one event, dispatched on its action.
pub open spec fn spec_apply_event(
    t: Tables,
    ctx: PepemapContext,
    block: Seq<BlockTx>,
    txid: Seq<u8>,
    op: InscriptionOp,
) -> Result<Tables, PepemapError> {
    match op.action {
        Action::New { inscription } => spec_handle_claim(t, ctx, block, txid, op, inscription),
        Action::Transfer => spec_handle_transfer(t, ctx, block, txid, op),
    }
}

/// The effect of one transaction's events, applied in order; the first
/// fatal error aborts.
pub open spec fn spec_apply_events(
    t: Tables,
    ctx: PepemapContext,
    block: Seq<BlockTx>,
    txid: Seq<u8>,
    events: Seq<InscriptionOp>,
) -> Result<Tables, PepemapError>
    decreases events.len(),
{
    if events.len() == 0 {
        Ok(t)
    } else {
        match spec_apply_event(t, ctx, block, txid, events[0]) {
            Ok(t2) => spec_apply_events(t2, ctx, block, txid, events.drop_first()),
            Err(e) => Err(e),
        }
    }
}

/// The effect of a whole block: each transaction's events in block order,
/// events in transaction order; the first fatal error aborts.
pub open spec fn spec_apply_block(
    t: Tables,
    ctx: PepemapContext,
    block: Seq<BlockTx>,
    ops: Seq<TransactionEvents>,
) -> Result<Tables, PepemapError>
    decreases ops.len(),
{
    if ops.len() == 0 {
        Ok(t)
    } else {
        match spec_apply_events(t, ctx, block, ops[0].txid@, ops[0].events@) {
            Ok(t2) => spec_apply_block(t2, ctx, block, ops.drop_first()),
            Err(e) => Err(e),
        }
    }
}

/// The per-block index updater, holding the three claim tables and the
/// raw-transaction table.
pub struct PepemapUpdater {
    pub number_to_entry: NumberTable,
    pub inscription_to_number: InscriptionTable,
    pub owner_to_numbers: OwnerTable,
    pub transaction_id_to_transaction: TransactionTable,
}

impl View for PepemapUpdater {
    type V = Tables;

    open spec fn view(&self) -> Tables {
        Tables {
            primary: self.number_to_entry@,
            reverse: self.inscription_to_number@,
            ownership: self.owner_to_numbers@,
            transactions: self.transaction_id_to_transaction@,
        }
    }
}

/// Index of the first block transaction whose id is `txid`.
#[verifier::loop_isolation(false)]
fn lookup_block_index(block: &Vec<BlockTx>, txid: &Vec<u8>) -> (r: Option<usize>)
    ensures
        match r {
            Some(i) => i < block@.len() && lookup_block(block@, txid@) == Some(
                block@[i as int].outputs.deep_view(),
            ),
            None => lookup_block(block@, txid@) is None,
        },
{
    let n = block.len();
    proof {
        assert(block@.skip(0) =~= block@);
    }
    let mut i: usize = 0;
    while i < n
        invariant
            i <= n,
            lookup_block(block@, txid@) == lookup_block(block@.skip(i as int), txid@),
        decreases n - i,
    {
        if bytes_eq(&block[i].txid, txid) {
            return Some(i);
        }
        proof {
            assert(block@.skip(i as int).drop_first() =~= block@.skip(i as int + 1));
        }
        i += 1;
    }
    None
}

impl PepemapUpdater {
    /// Builds an updater over the four tables.
    pub fn new(
        number_to_entry: NumberTable,
        inscription_to_number: InscriptionTable,
        owner_to_numbers: OwnerTable,
        transaction_id_to_transaction: TransactionTable,
    ) -> (r: Result<Self, PepemapError>)
        ensures
            r matches Ok(u) && u@ == (Tables {
                primary: number_to_entry@,
                reverse: inscription_to_number@,
                ownership: owner_to_numbers@,
                transactions: transaction_id_to_transaction@,
            }),
    {
        Ok(
            PepemapUpdater {
                number_to_entry,
                inscription_to_number,
                owner_to_numbers,
                transaction_id_to_transaction,
            },
        )
    }

    /// Resolves the canonical owner key of the script controlling
    /// `satpoint`, from the block's own transactions or from the persisted
    /// raw-transaction table.
    pub fn resolve_owner(
        &self,
        block: &Vec<BlockTx>,
        satpoint: &SatPoint,
        network: Network,
    ) -> (r: Result<Vec<u8>, PepemapError>)
        ensures
            match spec_resolve_owner(block@, self@.transactions, *satpoint, network) {
                Some(k) => r matches Ok(v) && v@ == k,
                None => r == Err::<Vec<u8>, PepemapError>(PepemapError::ResolutionFailure),
            },
    {
        match lookup_block_index(block, &satpoint.txid) {
            Some(i) => {
                let outs = &block[i].outputs;
                if (satpoint.vout as usize) < outs.len() {
                    let script = &outs[satpoint.vout as usize];
                    proof {
                        assert(outs.deep_view()[satpoint.vout as int] == outs@[satpoint.vout as int]@);
                    }
                    Ok(script_owner_key(script, network))
                } else {
                    Err(PepemapError::ResolutionFailure)
                }
            },
            None => {
                match self.transaction_id_to_transaction.get(&satpoint.txid) {
                    Some(raw) => {
                        match decode_tx_output_scripts(&raw) {
                            Some(outs) => {
                                if (satpoint.vout as usize) < outs.len() {
                                    let script = &outs[satpoint.vout as usize];
                                    proof {
                                        assert(outs.deep_view()[satpoint.vout as int] == outs@[
                                            satpoint.vout as int]@);
                                    }
                                    Ok(script_owner_key(script, network))
                                } else {
                                    Err(PepemapError::ResolutionFailure)
                                }
                            },
                            None => Err(PepemapError::ResolutionFailure),
                        }
                    },
                    None => Err(PepemapError::ResolutionFailure),
                }
            },
        }
    }

    /// Handles one claim event, exactly as [`spec_handle_claim`] describes;
    /// on a fatal error the tables are untouched.
    pub fn handle_claim(
        &mut self,
        context: &PepemapContext,
        block: &Vec<BlockTx>,
        txid: &Vec<u8>,
        op: &InscriptionOp,
        inscription: &Inscription,
    ) -> (r: Result<(), PepemapError>)
        ensures
            match spec_handle_claim(old(self)@, *context, block@, txid@, *op, *inscription) {
                Ok(t) => r == Ok::<(), PepemapError>(()) && final(self)@ == t,
                Err(e) => r == Err::<(), PepemapError>(e) && final(self)@ == old(self)@,
            },
    {
        let number = match parse_number(inscription) {
            Some(n) => n,
            None => {
                return Ok(());
            },
        };
        if number > context.block_height {
            return Ok(());
        }
        if self.number_to_entry.contains(number) {
            return Ok(());
        }
        let satpoint = match &op.new_satpoint {
            Some(sp) => sp,
            None => {
                return Ok(());
            },
        };
        let owner = match self.resolve_owner(block, satpoint, context.network) {
            Ok(o) => o,
            Err(e) => {
                return Err(e);
            },
        };
        let entry = PepemapEntry {
            number,
            inscription_id: op.inscription_id.duplicate(),
            txid: clone_bytes(txid),
            owner: clone_bytes(&owner),
            block_height: context.block_height,
            block_time: context.block_time,
        };
        let encoded = match encode_entry(&entry) {
            Some(v) => v,
            None => {
                return Err(PepemapError::SerializationFailure);
            },
        };
        self.number_to_entry.insert(number, encoded);
        self.inscription_to_number.insert(op.inscription_id.duplicate(), number);
        self.owner_to_numbers.add(&owner, number);
        Ok(())
    }

    /// Handles one transfer event, exactly as [`spec_handle_transfer`]
    /// describes; on a fatal error the tables are untouched.
    pub fn handle_transfer(
        &mut self,
        context: &PepemapContext,
        block: &Vec<BlockTx>,
        txid: &Vec<u8>,
        op: &InscriptionOp,
    ) -> (r: Result<(), PepemapError>)
        ensures
            match spec_handle_transfer(old(self)@, *context, block@, txid@, *op) {
                Ok(t) => r == Ok::<(), PepemapError>(()) && final(self)@ == t,
                Err(e) => r == Err::<(), PepemapError>(e) && final(self)@ == old(self)@,
            },
    {
        let number = match self.inscription_to_number.get(&op.inscription_id) {
            Some(n) => n,
            None => {
                return Ok(());
            },
        };
        let stored = match self.number_to_entry.get(number) {
            Some(v) => v,
            None => {
                return Err(PepemapError::ConsistencyFailure);
            },
        };
        let entry = match decode_entry(&stored) {
            Some(e) => e,
            None => {
                return Err(PepemapError::SerializationFailure);
            },
        };
        let satpoint = match &op.new_satpoint {
            Some(sp) => sp,
            None => {
                return Ok(());
            },
        };
        let new_owner = match self.resolve_owner(block, satpoint, context.network) {
            Ok(o) => o,
            Err(e) => {
                return Err(e);
            },
        };
        if bytes_eq(&entry.owner, &new_owner) {
            return Ok(());
        }
        let new_entry = PepemapEntry {
            number: entry.number,
            inscription_id: entry.inscription_id,
            txid: clone_bytes(txid),
            owner: clone_bytes(&new_owner),
            block_height: context.block_height,
            block_time: context.block_time,
        };
        let encoded = match encode_entry(&new_entry) {
            Some(v) => v,
            None => {
                return Err(PepemapError::SerializationFailure);
            },
        };
        self.owner_to_numbers.remove(&entry.owner, number);
        self.number_to_entry.insert(number, encoded);
        self.owner_to_numbers.add(&new_owner, number);
        Ok(())
    }

    /// Applies a block's events: transactions in block order, each
    /// transaction's events in order, exactly as [`spec_apply_block`]
    /// describes. The first fatal error aborts the block; the caller must
    /// then discard the whole write scope rather than commit partial state.
    #[verifier::loop_isolation(false)]
    pub fn index_block(
        &mut self,
        context: PepemapContext,
        block: &Vec<BlockTx>,
        operations: &Vec<TransactionEvents>,
    ) -> (r: Result<(), PepemapError>)
        ensures
            match r {
                Ok(()) => spec_apply_block(old(self)@, context, block@, operations@)
                    == Ok::<Tables, PepemapError>(final(self)@),
                Err(e) => spec_apply_block(old(self)@, context, block@, operations@)
                    == Err::<Tables, PepemapError>(e),
            },
    {
        let ghost t0 = self@;
        proof {
            assert(operations@.skip(0) =~= operations@);
        }
        let n = operations.len();
        let mut i: usize = 0;
        while i < n
            invariant
                i <= n,
                spec_apply_block(t0, context, block@, operations@) == spec_apply_block(
                    self@,
                    context,
                    block@,
                    operations@.skip(i as int),
                ),
            decreases n - i,
        {
            let tx_events = &operations[i];
            proof {
                assert(operations@.skip(i as int)[0] == operations@[i as int]);
                assert(operations@.skip(i as int).drop_first() =~= operations@.skip(i as int + 1));
                assert(tx_events.events@.skip(0) =~= tx_events.events@);
            }
            let m = tx_events.events.len();
            let mut j: usize = 0;
            while j < m
                invariant
                    j <= m,
                    i < n,
                    m == tx_events.events@.len(),
                    spec_apply_block(t0, context, block@, operations@) == match spec_apply_events(
                        self@,
                        context,
                        block@,
                        tx_events.txid@,
                        tx_events.events@.skip(j as int),
                    ) {
                        Ok(t2) => spec_apply_block(
                            t2,
                            context,
                            block@,
                            operations@.skip(i as int + 1),
                        ),
                        Err(e) => Err(e),
                    },
                decreases m - j,
            {
                let op = &tx_events.events[j];
                let ghost before = self@;
                proof {
                    assert(tx_events.events@.skip(j as int)[0] == tx_events.events@[j as int]);
                    assert(tx_events.events@.skip(j as int).drop_first() =~= tx_events.events@.skip(
                        j as int + 1,
                    ));
                }
                let res = match &op.action {
                    Action::New { inscription } => self.handle_claim(
                        &context,
                        block,
                        &tx_events.txid,
                        op,
                        inscription,
                    ),
                    Action::Transfer => self.handle_transfer(&context, block, &tx_events.txid, op),
                };
                match res {
                    Ok(()) => {
                        proof {
                            assert(spec_apply_event(before, context, block@, tx_events.txid@, *op)
                                == Ok::<Tables, PepemapError>(self@));
                        }
                        j += 1;
                    },
                    Err(e) => {
                        proof {
                            assert(spec_apply_event(before, context, block@, tx_events.txid@, *op)
                                == Err::<Tables, PepemapError>(e));
                        }
                        return Err(e);
                    },
                }
            }
            proof {
                assert(tx_events.events@.skip(m as int) =~= Seq::<InscriptionOp>::empty());
            }
            i += 1;
        }
        proof {
            assert(operations@.skip(n as int) =~= Seq::<TransactionEvents>::empty());
        }
        Ok(())
    }
}

/// The first valid claim for a number creates exactly one entry, visible
/// consistently in all three tables: the primary table maps the number to
/// the encoded entry, the reverse table maps the inscription id to the
/// number, and the resolved owner's set gains the number.
pub proof fn lemma_first_claim_creates_entry(
    t: Tables,
    ctx: PepemapContext,
    block: Seq<BlockTx>,
    txid: Seq<u8>,
    op: InscriptionOp,
    inscription: Inscription,
    number: u32,
    owner: Seq<u8>,
)
    requires
        spec_parse_number(inscription) == Some(number),
        number <= ctx.block_height,
        !t.primary.contains_key(number),
        op.new_satpoint matches Some(sp) && spec_resolve_owner(block, t.transactions, sp, ctx.network)
            == Some(owner),
        encodable(claim_entry(ctx, txid, op, number, owner)),
    ensures
        spec_handle_claim(t, ctx, block, txid, op, inscription) matches Ok(t2) && {
            let e = claim_entry(ctx, txid, op, number, owner);
            &&& t2.primary == t.primary.insert(number, encode_entry_spec(e))
            &&& decode_entry_spec(t2.primary[number]) == Some(e)
            &&& t2.reverse == t.reverse.insert(op.inscription_id@, number)
            &&& t2.ownership == t.ownership.insert(owner, set_at(t.ownership, owner).insert(number))
            &&& t2.ownership[owner].contains(number)
            &&& t2.transactions == t.transactions
        },
{
    let e = claim_entry(ctx, txid, op, number, owner);
    crate::entry::lemma_entry_round_trip(e);
}

/// A claim for an already-claimed number, at any later height, is a no-op:
/// the tables — the original entry's bytes included — are unchanged.
pub proof fn lemma_repeat_claim_is_noop(
    t: Tables,
    ctx: PepemapContext,
    block: Seq<BlockTx>,
    txid: Seq<u8>,
    op: InscriptionOp,
    inscription: Inscription,
    number: u32,
)
    requires
        spec_parse_number(inscription) == Some(number),
        t.primary.contains_key(number),
    ensures
        spec_handle_claim(t, ctx, block, txid, op, inscription) == Ok::<Tables, PepemapError>(t),
{
}

/// A claim whose number exceeds the current block height is a no-op: a
/// number equal to the height is in time, one past it is premature.
pub proof fn lemma_premature_claim_is_noop(
    t: Tables,
    ctx: PepemapContext,
    block: Seq<BlockTx>,
    txid: Seq<u8>,
    op: InscriptionOp,
    inscription: Inscription,
    number: u32,
)
    requires
        spec_parse_number(inscription) == Some(number),
        number > ctx.block_height,
    ensures
        spec_handle_claim(t, ctx, block, txid, op, inscription) == Ok::<Tables, PepemapError>(t),
{
}

/// Transferring a claimed number to a new owner rewrites the entry's owner,
/// txid, block height and block time, removes the number from the old
/// owner's set and adds it to the new owner's: the two sets never
/// simultaneously contain the number, nor simultaneously omit it.
pub proof fn lemma_transfer_moves_ownership(
    t: Tables,
    ctx: PepemapContext,
    block: Seq<BlockTx>,
    txid: Seq<u8>,
    op: InscriptionOp,
    number: u32,
    e: PepemapEntryV,
    new_owner: Seq<u8>,
)
    requires
        t.reverse.contains_key(op.inscription_id@),
        t.reverse[op.inscription_id@] == number,
        t.primary.contains_key(number),
        decode_entry_spec(t.primary[number]) == Some(e),
        op.new_satpoint matches Some(sp) && spec_resolve_owner(block, t.transactions, sp, ctx.network)
            == Some(new_owner),
        new_owner != e.owner,
        encodable(transfer_entry(ctx, txid, e, new_owner)),
    ensures
        spec_handle_transfer(t, ctx, block, txid, op) matches Ok(t2) && {
            let e2 = transfer_entry(ctx, txid, e, new_owner);
            &&& t2.primary == t.primary.insert(number, encode_entry_spec(e2))
            &&& decode_entry_spec(t2.primary[number]) == Some(e2)
            &&& e2.owner == new_owner && e2.txid == txid && e2.block_height == ctx.block_height
                && e2.block_time == ctx.block_time
            &&& e2.number == e.number && e2.inscription_id == e.inscription_id
            &&& t2.ownership[new_owner].contains(number)
            &&& t.ownership.contains_key(e.owner) ==> !t2.ownership[e.owner].contains(number)
            &&& t2.reverse == t.reverse
            &&& t2.transactions == t.transactions
        },
{
    let e2 = transfer_entry(ctx, txid, e, new_owner);
    crate::entry::lemma_entry_round_trip(e2);
}

/// Transferring to the owner that already holds the entry is a no-op: the
/// tables, the entry and the ownership sets are all unchanged.
pub proof fn lemma_transfer_same_owner_is_noop(
    t: Tables,
    ctx: PepemapContext,
    block: Seq<BlockTx>,
    txid: Seq<u8>,
    op: InscriptionOp,
    number: u32,
    e: PepemapEntryV,
)
    requires
        t.reverse.contains_key(op.inscription_id@),
        t.reverse[op.inscription_id@] == number,
        t.primary.contains_key(number),
        decode_entry_spec(t.primary[number]) == Some(e),
        op.new_satpoint matches Some(sp) && spec_resolve_owner(block, t.transactions, sp, ctx.network)
            == Some(e.owner),
    ensures
        spec_handle_transfer(t, ctx, block, txid, op) == Ok::<Tables, PepemapError>(t),
{
}

/// One reverse binding is backed by the primary table: the number it points
/// at has an entry recording the same inscription id and number.
pub open spec fn reverse_entry_ok(t: Tables, iid: InscriptionIdV) -> bool {
    let n = t.reverse[iid];
    &&& t.primary.contains_key(n)
    &&& decode_entry_spec(t.primary[n]) matches Some(e) && e.inscription_id == iid && e.number == n
}

/// One primary entry is backed by the ownership table: it decodes, records
/// its own number, and its number sits in its recorded owner's set.
pub open spec fn primary_entry_ok(t: Tables, n: u32) -> bool {
    decode_entry_spec(t.primary[n]) matches Some(e) && e.number == n && t.ownership.contains_key(
        e.owner,
    ) && t.ownership[e.owner].contains(n)
}

/// One owned number is backed by the primary table: its entry exists and
/// records exactly this owner, so no two owners' sets share a number.
pub open spec fn owned_number_ok(t: Tables, k: Seq<u8>, n: u32) -> bool {
    &&& t.primary.contains_key(n)
    &&& decode_entry_spec(t.primary[n]) matches Some(e) && e.owner == k
}

/// The cross-table consistency that holds between block-processing passes.
pub open spec fn tables_consistent(t: Tables) -> bool {
    &&& forall|iid: InscriptionIdV|
        #[trigger] t.reverse.contains_key(iid) ==> reverse_entry_ok(t, iid)
    &&& forall|n: u32| #[trigger] t.primary.contains_key(n) ==> primary_entry_ok(t, n)
    &&& forall|k: Seq<u8>, n: u32|
        t.ownership.contains_key(k) && #[trigger] t.ownership[k].contains(n) ==> owned_number_ok(
            t,
            k,
            n,
        )
}

/// Empty tables are consistent.
pub proof fn lemma_empty_tables_consistent(t: Tables)
    requires
        t.primary == Map::<u32, Seq<u8>>::empty(),
        t.reverse == Map::<InscriptionIdV, u32>::empty(),
        t.ownership == Map::<Seq<u8>, Set<u32>>::empty(),
    ensures
        tables_consistent(t),
{
}

/// A successful claim event keeps the three tables consistent.
pub proof fn lemma_claim_preserves_consistency(
    t: Tables,
    ctx: PepemapContext,
    block: Seq<BlockTx>,
    txid: Seq<u8>,
    op: InscriptionOp,
    inscription: Inscription,
    t2: Tables,
)
    requires
        tables_consistent(t),
        spec_handle_claim(t, ctx, block, txid, op, inscription) == Ok::<Tables, PepemapError>(t2),
    ensures
        tables_consistent(t2),
{
    if t2 == t {
    } else {
        let number = spec_parse_number(inscription)->Some_0;
        let sp = op.new_satpoint->Some_0;
        let owner = spec_resolve_owner(block, t.transactions, sp, ctx.network)->Some_0;
        let e = claim_entry(ctx, txid, op, number, owner);
        crate::entry::lemma_entry_round_trip(e);
        assert forall|iid: InscriptionIdV| #[trigger]
            t2.reverse.contains_key(iid) implies reverse_entry_ok(t2, iid) by {
            if iid != op.inscription_id@ {
                assert(reverse_entry_ok(t, iid));
                assert(t.reverse[iid] != number);
            }
        }
        assert forall|n: u32| #[trigger] t2.primary.contains_key(n) implies primary_entry_ok(
            t2,
            n,
        ) by {
            if n != number {
                assert(primary_entry_ok(t, n));
                let e0 = decode_entry_spec(t.primary[n])->Some_0;
                assert(t2.ownership.contains_key(e0.owner));
                assert(t2.ownership[e0.owner].contains(n));
            }
        }
        assert forall|k: Seq<u8>, n: u32|
            t2.ownership.contains_key(k) && #[trigger] t2.ownership[k].contains(
                n,
            ) implies owned_number_ok(t2, k, n) by {
            if k == owner {
                if n != number {
                    assert(t.ownership.contains_key(k) && t.ownership[k].contains(n));
                    assert(owned_number_ok(t, k, n));
                }
            } else {
                assert(owned_number_ok(t, k, n));
            }
        }
    }
}

/// A successful transfer event keeps the three tables consistent.
pub proof fn lemma_transfer_preserves_consistency(
    t: Tables,
    ctx: PepemapContext,
    block: Seq<BlockTx>,
    txid: Seq<u8>,
    op: InscriptionOp,
    t2: Tables,
)
    requires
        tables_consistent(t),
        spec_handle_transfer(t, ctx, block, txid, op) == Ok::<Tables, PepemapError>(t2),
    ensures
        tables_consistent(t2),
{
    if t2 == t {
    } else {
        let number = t.reverse[op.inscription_id@];
        let e = decode_entry_spec(t.primary[number])->Some_0;
        let sp = op.new_satpoint->Some_0;
        let new_owner = spec_resolve_owner(block, t.transactions, sp, ctx.network)->Some_0;
        let e2 = transfer_entry(ctx, txid, e, new_owner);
        crate::entry::lemma_entry_round_trip(e2);
        assert(reverse_entry_ok(t, op.inscription_id@));
        assert(e.number == number);
        assert forall|iid: InscriptionIdV| #[trigger]
            t2.reverse.contains_key(iid) implies reverse_entry_ok(t2, iid) by {
            assert(reverse_entry_ok(t, iid));
            if t.reverse[iid] == number {
                assert(decode_entry_spec(t.primary[number]) == Some(e));
                assert(e.inscription_id == iid);
            }
        }
        assert forall|n: u32| #[trigger] t2.primary.contains_key(n) implies primary_entry_ok(
            t2,
            n,
        ) by {
            assert(primary_entry_ok(t, n));
            if n != number {
                let e0 = decode_entry_spec(t.primary[n])->Some_0;
                if e0.owner == e.owner {
                    assert(owned_number_ok(t, e.owner, n));
                    assert(n != number);
                    assert(t2.ownership[e0.owner].contains(n));
                } else if e0.owner == new_owner {
                    assert(t2.ownership[e0.owner].contains(n));
                } else {
                    assert(t2.ownership[e0.owner] == t.ownership[e0.owner]);
                }
            }
        }
        assert forall|k: Seq<u8>, n: u32|
            t2.ownership.contains_key(k) && #[trigger] t2.ownership[k].contains(
                n,
            ) implies owned_number_ok(t2, k, n) by {
            assert(primary_entry_ok(t, number));
            if k == new_owner {
                if n != number {
                    assert(t.ownership.contains_key(k) && t.ownership[k].contains(n));
                    assert(owned_number_ok(t, k, n));
                    assert(decode_entry_spec(t.primary[n])->Some_0.owner == k);
                    assert(n != number);
                }
            } else if k == e.owner {
                assert(t.ownership.contains_key(k) && t.ownership[k].contains(n));
                assert(owned_number_ok(t, k, n));
                assert(n != number);
            } else {
                assert(t.ownership.contains_key(k) && t.ownership[k].contains(n));
                assert(owned_number_ok(t, k, n));
                assert(n != number);
            }
        }
    }
}

/// One event of either kind keeps the three tables consistent.
pub proof fn lemma_event_preserves_consistency(
    t: Tables,
    ctx: PepemapContext,
    block: Seq<BlockTx>,
    txid: Seq<u8>,
    op: InscriptionOp,
    t2: Tables,
)
    requires
        tables_consistent(t),
        spec_apply_event(t, ctx, block, txid, op) == Ok::<Tables, PepemapError>(t2),
    ensures
        tables_consistent(t2),
{
    match op.action {
        Action::New { inscription } => lemma_claim_preserves_consistency(
            t,
            ctx,
            block,
            txid,
            op,
            inscription,
            t2,
        ),
        Action::Transfer => lemma_transfer_preserves_consistency(t, ctx, block, txid, op, t2),
    }
}

/// One transaction's events keep the three tables consistent.
pub proof fn lemma_events_preserve_consistency(
    t: Tables,
    ctx: PepemapContext,
    block: Seq<BlockTx>,
    txid: Seq<u8>,
    events: Seq<InscriptionOp>,
    t2: Tables,
)
    requires
        tables_consistent(t),
        spec_apply_events(t, ctx, block, txid, events) == Ok::<Tables, PepemapError>(t2),
    ensures
        tables_consistent(t2),
    decreases events.len(),
{
    if events.len() > 0 {
        let mid = spec_apply_event(t, ctx, block, txid, events[0])->Ok_0;
        lemma_event_preserves_consistency(t, ctx, block, txid, events[0], mid);
        lemma_events_preserve_consistency(mid, ctx, block, txid, events.drop_first(), t2);
    }
}

/// A whole successfully applied block keeps the three tables consistent:
/// the data-model invariants hold between block-processing passes.
pub proof fn lemma_block_preserves_consistency(
    t: Tables,
    ctx: PepemapContext,
    block: Seq<BlockTx>,
    ops: Seq<TransactionEvents>,
    t2: Tables,
)
    requires
        tables_consistent(t),
        spec_apply_block(t, ctx, block, ops) == Ok::<Tables, PepemapError>(t2),
    ensures
        tables_consistent(t2),
    decreases ops.len(),
{
    if ops.len() > 0 {
        let mid = spec_apply_events(t, ctx, block, ops[0].txid@, ops[0].events@)->Ok_0;
        lemma_events_preserve_consistency(t, ctx, block, ops[0].txid@, ops[0].events@, mid);
        lemma_block_preserves_consistency(mid, ctx, block, ops.drop_first(), t2);
    }
}

/// Transferring an inscription that never claimed a number is a no-op.
pub proof fn lemma_unrelated_transfer_is_noop(
    t: Tables,
    ctx: PepemapContext,
    block: Seq<BlockTx>,
    txid: Seq<u8>,
    op: InscriptionOp,
)
    requires
        !t.reverse.contains_key(op.inscription_id@),
    ensures
        spec_handle_transfer(t, ctx, block, txid, op) == Ok::<Tables, PepemapError>(t),
{
}

} // verus!
