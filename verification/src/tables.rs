//! The three claim index tables and the raw-transaction table.
//!
//! Each table is an append-only association list: a new binding for a key is
//! pushed at the end and the latest binding wins. The view of a table is the
//! finite map it currently represents; the ownership table's view maps each
//! owner key to the set of claim numbers it holds.

use vstd::prelude::*;
use crate::bytes::{bytes_eq, clone_bytes};
use crate::entry::{InscriptionId, InscriptionIdV, inscription_id_eq};

verus! {

/// The map represented by a number-keyed association list, latest binding
/// winning.
pub open spec fn number_map(s: Seq<(u32, Vec<u8>)>) -> Map<u32, Seq<u8>>
    decreases s.len(),
{
    if s.len() == 0 {
        Map::empty()
    } else {
        number_map(s.drop_last()).insert(s.last().0, s.last().1@)
    }
}

/// Primary table: claim number to encoded entry, the source of truth.
pub struct NumberTable {
    pub entries: Vec<(u32, Vec<u8>)>,
}

impl View for NumberTable {
    type V = Map<u32, Seq<u8>>;

    open spec fn view(&self) -> Map<u32, Seq<u8>> {
        number_map(self.entries@)
    }
}

proof fn lemma_number_map_found(s: Seq<(u32, Vec<u8>)>, k: u32, i: int)
    requires
        0 <= i < s.len(),
        s[i].0 == k,
        forall|j: int| i < j < s.len() ==> s[j].0 != k,
    ensures
        number_map(s).contains_key(k),
        number_map(s)[k] == s[i].1@,
    decreases s.len(),
{
    if i < s.len() - 1 {
        assert(s.drop_last()[i] == s[i]);
        lemma_number_map_found(s.drop_last(), k, i);
    }
}

proof fn lemma_number_map_absent(s: Seq<(u32, Vec<u8>)>, k: u32)
    requires
        forall|j: int| 0 <= j < s.len() ==> s[j].0 != k,
    ensures
        !number_map(s).contains_key(k),
    decreases s.len(),
{
    if s.len() > 0 {
        lemma_number_map_absent(s.drop_last(), k);
    }
}

impl NumberTable {
    /// An empty primary table.
    pub fn new() -> (r: Self)
        ensures
            r@ == Map::<u32, Seq<u8>>::empty(),
    {
        NumberTable { entries: Vec::new() }
    }

    /// The encoded entry stored for `number`, if any.
    #[verifier::loop_isolation(false)]
    pub fn get(&self, number: u32) -> (r: Option<Vec<u8>>)
        ensures
            match r {
                Some(v) => self@.contains_key(number) && v@ == self@[number],
                None => !self@.contains_key(number),
            },
    {
        let n = self.entries.len();
        let mut i = n;
        while i > 0
            invariant
                i <= n,
                forall|j: int| i <= j < n ==> self.entries@[j].0 != number,
            decreases i,
        {
            i = i - 1;
            if self.entries[i].0 == number {
                proof {
                    lemma_number_map_found(self.entries@, number, i as int);
                }
                return Some(clone_bytes(&self.entries[i].1));
            }
        }
        proof {
            lemma_number_map_absent(self.entries@, number);
        }
        None
    }

    /// Whether an entry is stored for `number`.
    pub fn contains(&self, number: u32) -> (r: bool)
        ensures
            r == self@.contains_key(number),
    {
        let got = self.get(number);
        got.is_some()
    }

    /// Stores `value` as the entry for `number`, replacing any earlier one.
    pub fn insert(&mut self, number: u32, value: Vec<u8>)
        ensures
            final(self)@ == old(self)@.insert(number, value@),
    {
        let ghost s0 = self.entries@;
        self.entries.push((number, value));
        proof {
            assert(self.entries@.drop_last() =~= s0);
        }
    }
}

/// The map represented by an inscription-id-keyed association list.
pub open spec fn inscription_map(s: Seq<(InscriptionId, u32)>) -> Map<InscriptionIdV, u32>
    decreases s.len(),
{
    if s.len() == 0 {
        Map::empty()
    } else {
        inscription_map(s.drop_last()).insert(s.last().0@, s.last().1)
    }
}

/// Reverse table: inscription id to the claim number it first claimed.
pub struct InscriptionTable {
    pub entries: Vec<(InscriptionId, u32)>,
}

impl View for InscriptionTable {
    type V = Map<InscriptionIdV, u32>;

    open spec fn view(&self) -> Map<InscriptionIdV, u32> {
        inscription_map(self.entries@)
    }
}

proof fn lemma_inscription_map_found(s: Seq<(InscriptionId, u32)>, k: InscriptionIdV, i: int)
    requires
        0 <= i < s.len(),
        s[i].0@ == k,
        forall|j: int| i < j < s.len() ==> s[j].0@ != k,
    ensures
        inscription_map(s).contains_key(k),
        inscription_map(s)[k] == s[i].1,
    decreases s.len(),
{
    if i < s.len() - 1 {
        assert(s.drop_last()[i] == s[i]);
        lemma_inscription_map_found(s.drop_last(), k, i);
    }
}

proof fn lemma_inscription_map_absent(s: Seq<(InscriptionId, u32)>, k: InscriptionIdV)
    requires
        forall|j: int| 0 <= j < s.len() ==> s[j].0@ != k,
    ensures
        !inscription_map(s).contains_key(k),
    decreases s.len(),
{
    if s.len() > 0 {
        lemma_inscription_map_absent(s.drop_last(), k);
    }
}

impl InscriptionTable {
    /// An empty reverse table.
    pub fn new() -> (r: Self)
        ensures
            r@ == Map::<InscriptionIdV, u32>::empty(),
    {
        InscriptionTable { entries: Vec::new() }
    }

    /// The claim number bound to `id`, if any.
    #[verifier::loop_isolation(false)]
    pub fn get(&self, id: &InscriptionId) -> (r: Option<u32>)
        ensures
            match r {
                Some(v) => self@.contains_key(id@) && self@[id@] == v,
                None => !self@.contains_key(id@),
            },
    {
        let n = self.entries.len();
        let mut i = n;
        while i > 0
            invariant
                i <= n,
                forall|j: int| i <= j < n ==> self.entries@[j].0@ != id@,
            decreases i,
        {
            i = i - 1;
            if inscription_id_eq(&self.entries[i].0, id) {
                proof {
                    lemma_inscription_map_found(self.entries@, id@, i as int);
                }
                return Some(self.entries[i].1);
            }
        }
        proof {
            lemma_inscription_map_absent(self.entries@, id@);
        }
        None
    }

    /// Binds `id` to `number`, replacing any earlier binding.
    pub fn insert(&mut self, id: InscriptionId, number: u32)
        ensures
            final(self)@ == old(self)@.insert(id@, number),
    {
        let ghost s0 = self.entries@;
        self.entries.push((id, number));
        proof {
            assert(self.entries@.drop_last() =~= s0);
        }
    }
}

/// The map represented by a txid-keyed association list of raw transactions.
pub open spec fn transaction_map(s: Seq<(Vec<u8>, Vec<u8>)>) -> Map<Seq<u8>, Seq<u8>>
    decreases s.len(),
{
    if s.len() == 0 {
        Map::empty()
    } else {
        transaction_map(s.drop_last()).insert(s.last().0@, s.last().1@)
    }
}

/// Raw-transaction table: transaction id to consensus-encoded bytes, the
/// owner resolver's fallback for outputs of earlier blocks.
pub struct TransactionTable {
    pub entries: Vec<(Vec<u8>, Vec<u8>)>,
}

impl View for TransactionTable {
    type V = Map<Seq<u8>, Seq<u8>>;

    open spec fn view(&self) -> Map<Seq<u8>, Seq<u8>> {
        transaction_map(self.entries@)
    }
}

proof fn lemma_transaction_map_found(s: Seq<(Vec<u8>, Vec<u8>)>, k: Seq<u8>, i: int)
    requires
        0 <= i < s.len(),
        s[i].0@ == k,
        forall|j: int| i < j < s.len() ==> s[j].0@ != k,
    ensures
        transaction_map(s).contains_key(k),
        transaction_map(s)[k] == s[i].1@,
    decreases s.len(),
{
    if i < s.len() - 1 {
        assert(s.drop_last()[i] == s[i]);
        lemma_transaction_map_found(s.drop_last(), k, i);
    }
}

proof fn lemma_transaction_map_absent(s: Seq<(Vec<u8>, Vec<u8>)>, k: Seq<u8>)
    requires
        forall|j: int| 0 <= j < s.len() ==> s[j].0@ != k,
    ensures
        !transaction_map(s).contains_key(k),
    decreases s.len(),
{
    if s.len() > 0 {
        lemma_transaction_map_absent(s.drop_last(), k);
    }
}

impl TransactionTable {
    /// An empty raw-transaction table.
    pub fn new() -> (r: Self)
        ensures
            r@ == Map::<Seq<u8>, Seq<u8>>::empty(),
    {
        TransactionTable { entries: Vec::new() }
    }

    /// The raw transaction stored under `txid`, if any.
    #[verifier::loop_isolation(false)]
    pub fn get(&self, txid: &Vec<u8>) -> (r: Option<Vec<u8>>)
        ensures
            match r {
                Some(v) => self@.contains_key(txid@) && v@ == self@[txid@],
                None => !self@.contains_key(txid@),
            },
    {
        let n = self.entries.len();
        let mut i = n;
        while i > 0
            invariant
                i <= n,
                forall|j: int| i <= j < n ==> self.entries@[j].0@ != txid@,
            decreases i,
        {
            i = i - 1;
            if bytes_eq(&self.entries[i].0, txid) {
                proof {
                    lemma_transaction_map_found(self.entries@, txid@, i as int);
                }
                return Some(clone_bytes(&self.entries[i].1));
            }
        }
        proof {
            lemma_transaction_map_absent(self.entries@, txid@);
        }
        None
    }

    /// Stores `raw` as the transaction bytes for `txid`.
    pub fn insert(&mut self, txid: Vec<u8>, raw: Vec<u8>)
        ensures
            final(self)@ == old(self)@.insert(txid@, raw@),
    {
        let ghost s0 = self.entries@;
        self.entries.push((txid, raw));
        proof {
            assert(self.entries@.drop_last() =~= s0);
        }
    }
}

/// The set of numbers held by a number list.
pub open spec fn nums_set(s: Seq<u32>) -> Set<u32>
    decreases s.len(),
{
    if s.len() == 0 {
        Set::empty()
    } else {
        nums_set(s.drop_last()).insert(s.last())
    }
}

proof fn lemma_nums_set_index(s: Seq<u32>, x: u32)
    ensures
        nums_set(s).contains(x) <==> exists|i: int| 0 <= i < s.len() && s[i] == x,
    decreases s.len(),
{
    if s.len() > 0 {
        lemma_nums_set_index(s.drop_last(), x);
        if s.last() == x {
            assert(s[s.len() - 1] == x);
        } else if nums_set(s.drop_last()).contains(x) {
            let i = choose|i: int| 0 <= i < s.drop_last().len() && s.drop_last()[i] == x;
            assert(s[i] == x);
        } else if exists|i: int| 0 <= i < s.len() && s[i] == x {
            let i = choose|i: int| 0 <= i < s.len() && s[i] == x;
            if i < s.len() - 1 {
                assert(s.drop_last()[i] == x);
            }
        }
    }
}

/// Whether `x` occurs in the number list `v`.
#[verifier::loop_isolation(false)]
fn nums_contains(v: &Vec<u32>, x: u32) -> (r: bool)
    ensures
        r == nums_set(v@).contains(x),
{
    let n = v.len();
    let mut i: usize = 0;
    while i < n
        invariant
            i <= n,
            forall|j: int| 0 <= j < i ==> v@[j] != x,
        decreases n - i,
    {
        if v[i] == x {
            proof {
                lemma_nums_set_index(v@, x);
            }
            return true;
        }
        i += 1;
    }
    proof {
        lemma_nums_set_index(v@, x);
    }
    false
}

/// A fresh copy of the number list `v`.
#[verifier::loop_isolation(false)]
fn copy_nums(v: &Vec<u32>) -> (r: Vec<u32>)
    ensures
        r@ == v@,
{
    let n = v.len();
    let mut r: Vec<u32> = Vec::new();
    let mut i: usize = 0;
    while i < n
        invariant
            i <= n,
            r@ == v@.take(i as int),
        decreases n - i,
    {
        r.push(v[i]);
        proof {
            assert(v@.take(i as int) + seq![v@[i as int]] =~= v@.take(i as int + 1));
        }
        i += 1;
    }
    proof {
        assert(v@.take(n as int) =~= v@);
    }
    r
}

/// The number list `v` with every occurrence of `x` removed.
#[verifier::loop_isolation(false)]
fn nums_without(v: &Vec<u32>, x: u32) -> (r: Vec<u32>)
    ensures
        nums_set(r@) == nums_set(v@).remove(x),
{
    let n = v.len();
    let mut r: Vec<u32> = Vec::new();
    let mut i: usize = 0;
    while i < n
        invariant
            i <= n,
            nums_set(r@) == nums_set(v@.take(i as int)).remove(x),
        decreases n - i,
    {
        proof {
            assert(v@.take(i as int + 1).drop_last() =~= v@.take(i as int));
        }
        if v[i] != x {
            let ghost r0 = r@;
            r.push(v[i]);
            proof {
                assert(r@.drop_last() =~= r0);
                assert(nums_set(r@) =~= nums_set(v@.take(i as int + 1)).remove(x));
            }
        } else {
            proof {
                assert(nums_set(r@) =~= nums_set(v@.take(i as int + 1)).remove(x));
            }
        }
        i += 1;
    }
    proof {
        assert(v@.take(n as int) =~= v@);
    }
    r
}

/// The map represented by an owner-keyed association list of number lists.
pub open spec fn owner_map(s: Seq<(Vec<u8>, Vec<u32>)>) -> Map<Seq<u8>, Set<u32>>
    decreases s.len(),
{
    if s.len() == 0 {
        Map::empty()
    } else {
        owner_map(s.drop_last()).insert(s.last().0@, nums_set(s.last().1@))
    }
}

/// The set held for key `k` in `m`, empty where `k` is unbound.
pub open spec fn set_at(m: Map<Seq<u8>, Set<u32>>, k: Seq<u8>) -> Set<u32> {
    if m.contains_key(k) {
        m[k]
    } else {
        Set::empty()
    }
}

/// Ownership table: owner key to the set of claim numbers it holds.
pub struct OwnerTable {
    pub entries: Vec<(Vec<u8>, Vec<u32>)>,
}

impl View for OwnerTable {
    type V = Map<Seq<u8>, Set<u32>>;

    open spec fn view(&self) -> Map<Seq<u8>, Set<u32>> {
        owner_map(self.entries@)
    }
}

proof fn lemma_owner_map_found(s: Seq<(Vec<u8>, Vec<u32>)>, k: Seq<u8>, i: int)
    requires
        0 <= i < s.len(),
        s[i].0@ == k,
        forall|j: int| i < j < s.len() ==> s[j].0@ != k,
    ensures
        owner_map(s).contains_key(k),
        owner_map(s)[k] == nums_set(s[i].1@),
    decreases s.len(),
{
    if i < s.len() - 1 {
        assert(s.drop_last()[i] == s[i]);
        lemma_owner_map_found(s.drop_last(), k, i);
    }
}

proof fn lemma_owner_map_absent(s: Seq<(Vec<u8>, Vec<u32>)>, k: Seq<u8>)
    requires
        forall|j: int| 0 <= j < s.len() ==> s[j].0@ != k,
    ensures
        !owner_map(s).contains_key(k),
    decreases s.len(),
{
    if s.len() > 0 {
        lemma_owner_map_absent(s.drop_last(), k);
    }
}

impl OwnerTable {
    /// An empty ownership table.
    pub fn new() -> (r: Self)
        ensures
            r@ == Map::<Seq<u8>, Set<u32>>::empty(),
    {
        OwnerTable { entries: Vec::new() }
    }

    /// Index of the latest binding for `key`, if any.
    #[verifier::loop_isolation(false)]
    fn find(&self, key: &Vec<u8>) -> (r: Option<usize>)
        ensures
            match r {
                Some(i) => i < self.entries@.len() && self.entries@[i as int].0@ == key@ && (forall|
                    j: int,
                |
                    i < j < self.entries@.len() ==> self.entries@[j].0@ != key@),
                None => forall|j: int| 0 <= j < self.entries@.len() ==> self.entries@[j].0@ != key@,
            },
    {
        let n = self.entries.len();
        let mut i = n;
        while i > 0
            invariant
                i <= n,
                forall|j: int| i <= j < n ==> self.entries@[j].0@ != key@,
            decreases i,
        {
            i = i - 1;
            if bytes_eq(&self.entries[i].0, key) {
                return Some(i);
            }
        }
        None
    }

    /// Whether `key` currently holds claim `number`.
    pub fn owns(&self, key: &Vec<u8>, number: u32) -> (r: bool)
        ensures
            r == (self@.contains_key(key@) && self@[key@].contains(number)),
    {
        match self.find(key) {
            Some(i) => {
                proof {
                    lemma_owner_map_found(self.entries@, key@, i as int);
                }
                nums_contains(&self.entries[i].1, number)
            },
            None => {
                proof {
                    lemma_owner_map_absent(self.entries@, key@);
                }
                false
            },
        }
    }

    /// Adds claim `number` to the set held by `key`.
    pub fn add(&mut self, key: &Vec<u8>, number: u32)
        ensures
            final(self)@ == old(self)@.insert(key@, set_at(old(self)@, key@).insert(number)),
    {
        let ghost s0 = self.entries@;
        match self.find(key) {
            Some(i) => {
                proof {
                    lemma_owner_map_found(self.entries@, key@, i as int);
                }
                let mut list = copy_nums(&self.entries[i].1);
                if !nums_contains(&list, number) {
                    let ghost l0 = list@;
                    list.push(number);
                    proof {
                        assert(list@.drop_last() =~= l0);
                    }
                } else {
                    proof {
                        assert(nums_set(list@).insert(number) =~= nums_set(list@));
                    }
                }
                self.entries.push((clone_bytes(key), list));
                proof {
                    assert(self.entries@.drop_last() =~= s0);
                }
            },
            None => {
                proof {
                    lemma_owner_map_absent(self.entries@, key@);
                }
                let mut list: Vec<u32> = Vec::new();
                list.push(number);
                proof {
                    assert(list@.drop_last() =~= Seq::<u32>::empty());
                    assert(nums_set(Seq::<u32>::empty()) =~= Set::<u32>::empty());
                    assert(nums_set(list@) =~= Set::empty().insert(number));
                }
                self.entries.push((clone_bytes(key), list));
                proof {
                    assert(self.entries@.drop_last() =~= s0);
                }
            },
        }
    }

    /// Removes claim `number` from the set held by `key`; keys with no
    /// binding are left untouched.
    pub fn remove(&mut self, key: &Vec<u8>, number: u32)
        ensures
            final(self)@ == if old(self)@.contains_key(key@) {
                old(self)@.insert(key@, old(self)@[key@].remove(number))
            } else {
                old(self)@
            },
    {
        let ghost s0 = self.entries@;
        match self.find(key) {
            Some(i) => {
                proof {
                    lemma_owner_map_found(self.entries@, key@, i as int);
                }
                let list = nums_without(&self.entries[i].1, number);
                self.entries.push((clone_bytes(key), list));
                proof {
                    assert(self.entries@.drop_last() =~= s0);
                }
            },
            None => {
                proof {
                    lemma_owner_map_absent(self.entries@, key@);
                }
            },
        }
    }
}

} // verus!
