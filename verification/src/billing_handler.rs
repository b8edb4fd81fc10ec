//! The billing ledger: what each function has cost since the last claim,
//! and the signed claims made from it.

use crate::bytes::append;
use crate::error::{hex_error_display, hex_error_text, owned};
use crate::encoding::{hex_decode_exact, hex_decoded_exact, hex_encode, hex_lower, HexError};
use crate::model::{hex_name_decoded, id_hex, FunctionId};
use crate::signing::{
    be_bytes, sign_data, signed_hex, to_be_bytes, SigningError, SIGNATURE_DIGITS,
};
use vstd::prelude::*;
use vstd::string::StringSliceAdditionalSpecFns;
use vstd::utf8::encode_utf8;

verus! {

/// A request for a claim: a nonce of 32 bytes in hexadecimal, and the
/// hexadecimal names of the functions to bill.
#[derive(Debug)]
pub struct SigningData {
    pub nonce: String,
    pub tx_hashes: Vec<String>,
}

/// The running totals, one for each function that has been served since it
/// was last billed.
#[derive(Debug)]
pub struct BillingLedger {
    ids: Vec<FunctionId>,
    costs: Vec<u128>,
}

/// The identifiers held by a vector.
pub open spec fn id_views(ids: Seq<FunctionId>) -> Seq<Seq<u8>> {
    ids.map_values(|id: FunctionId| id@)
}

/// No identifier stands at two places.
pub open spec fn distinct(keys: Seq<Seq<u8>>) -> bool {
    forall|i: int, j: int| 0 <= i < keys.len() && 0 <= j < keys.len() && i != j ==> keys[i] != keys[j]
}

/// A place at which `key` stands.
pub open spec fn place_of(keys: Seq<Seq<u8>>, key: Seq<u8>) -> int {
    choose|i: int| 0 <= i < keys.len() && keys[i] == key
}

/// The mapping that a list of distinct keys and a list of totals stand for.
pub open spec fn totals(keys: Seq<Seq<u8>>, costs: Seq<u128>) -> Map<Seq<u8>, u128> {
    Map::new(|k: Seq<u8>| keys.contains(k), |k: Seq<u8>| costs[place_of(keys, k)])
}

/// The totals after `cost` is added to the total of `id`, which starts at
/// nothing. A total that would pass the largest number is left as it is.
pub open spec fn recorded(m: Map<Seq<u8>, u128>, id: Seq<u8>, cost: u128) -> Map<Seq<u8>, u128> {
    let before: int = if m.contains_key(id) {
        m[id] as int
    } else {
        0
    };
    if before + cost <= u128::MAX {
        m.insert(id, (before + cost) as u128)
    } else {
        m
    }
}

/// The totals after `amount` is taken off the total of `id`: what exceeds the
/// amount stays, and a total that does not exceed it leaves.
pub open spec fn deducted(m: Map<Seq<u8>, u128>, id: Seq<u8>, amount: u128) -> Map<Seq<u8>, u128> {
    if m.contains_key(id) && m[id] > amount {
        m.insert(id, (m[id] - amount) as u128)
    } else {
        m.remove(id)
    }
}

impl View for BillingLedger {
    type V = Map<Seq<u8>, u128>;

    closed spec fn view(&self) -> Map<Seq<u8>, u128> {
        totals(id_views(self.ids@), self.costs@)
    }
}

impl BillingLedger {
    /// Each function has one total.
    pub closed spec fn wf(&self) -> bool {
        &&& self.ids@.len() == self.costs@.len()
        &&& distinct(id_views(self.ids@))
    }

    /// The functions with a total, in the order in which `inspect` lists them.
    pub closed spec fn keys(&self) -> Seq<Seq<u8>> {
        id_views(self.ids@)
    }

    /// The listed functions are the ledger's functions, each once.
    pub proof fn keys_are_domain(&self)
        requires
            self.wf(),
        ensures
            distinct(self.keys()),
            forall|k: Seq<u8>| self.keys().contains(k) <==> self@.contains_key(k),
    {
    }

    /// A ledger without totals.
    pub fn new() -> (ledger: BillingLedger)
        ensures
            ledger.wf(),
            ledger@ == Map::<Seq<u8>, u128>::empty(),
            ledger.keys().len() == 0,
    {
        let ledger = BillingLedger { ids: Vec::new(), costs: Vec::new() };
        assert(ledger@ =~= Map::<Seq<u8>, u128>::empty());
        ledger
    }

    /// Finds the place of `id`.
    fn find(&self, id: &FunctionId) -> (res: Option<usize>)
        requires
            self.wf(),
        ensures
            match res {
                Some(i) => i < self.ids@.len() && self.ids@[i as int]@ == id@
                    && self@.contains_key(id@) && self@[id@] == self.costs@[i as int],
                None => !self@.contains_key(id@),
            },
    {
        let mut i: usize = 0;
        while i < self.ids.len()
            invariant
                i <= self.ids.len(),
                self.wf(),
                forall|j: int| 0 <= j < i ==> id_views(self.ids@)[j] != id@,
            decreases self.ids.len() - i,
        {
            if self.ids[i].same(id) {
                proof {
                    let keys = id_views(self.ids@);
                    assert(keys[i as int] == id@);
                    assert(keys.contains(id@));
                    let p = place_of(keys, id@);
                    assert(p == i);
                }
                return Some(i);
            }
            i += 1;
        }
        proof {
            let keys = id_views(self.ids@);
            if keys.contains(id@) {
                let k = choose|k: int| 0 <= k < keys.len() && keys[k] == id@;
                assert(keys[k] != id@);
            }
        }
        None
    }

    /// Adds `cost` to the total of the function `id`, which starts at
    /// nothing. A total that would pass the largest number is left as it is,
    /// and the answer is `false`.
    pub fn record(&mut self, id: &FunctionId, cost: u128) -> (done: bool)
        requires
            old(self).wf(),
        ensures
            final(self).wf(),
            final(self)@ == recorded(old(self)@, id@, cost),
            ({
                let before: int = if old(self)@.contains_key(id@) {
                    old(self)@[id@] as int
                } else {
                    0
                };
                if before + cost <= u128::MAX {
                    done && final(self)@ == old(self)@.insert(id@, (before + cost) as u128)
                } else {
                    !done && final(self)@ == old(self)@
                }
            }),
    {
        match self.find(id) {
            Some(i) => {
                let total = self.costs[i];
                if cost > u128::MAX - total {
                    return false;
                }
                self.costs.set(i, total + cost);
                proof {
                    let keys = id_views(self.ids@);
                    assert(keys[i as int] == id@);
                    assert forall|k: Seq<u8>| keys.contains(k) implies #[trigger] totals(
                        keys,
                        self.costs@,
                    )[k] == old(self)@.insert(id@, (total + cost) as u128)[k] by {
                        let p = place_of(keys, k);
                        if k != id@ {
                            assert(p != i);
                        } else {
                            assert(p == i);
                        }
                    }
                    assert(self@ =~= old(self)@.insert(id@, (total + cost) as u128));
                }
                true
            },
            None => {
                self.ids.push(id.duplicate());
                self.costs.push(cost);
                proof {
                    let old_keys = id_views(old(self).ids@);
                    let keys = id_views(self.ids@);
                    assert(keys =~= old_keys.push(id@));
                    assert(!old_keys.contains(id@));
                    assert(distinct(keys)) by {
                        assert forall|a: int, b: int|
                            0 <= a < keys.len() && 0 <= b < keys.len() && a != b implies keys[a]
                            != keys[b] by {
                            if a < old_keys.len() {
                                assert(old_keys.contains(old_keys[a]));
                            }
                            if b < old_keys.len() {
                                assert(old_keys.contains(old_keys[b]));
                            }
                        }
                    }
                    assert forall|k: Seq<u8>| keys.contains(k) <==> old_keys.contains(k) || k
                        == id@ by {
                        if keys.contains(k) {
                            let p = choose|p: int| 0 <= p < keys.len() && keys[p] == k;
                            if p < old_keys.len() {
                                assert(old_keys[p] == k);
                            }
                        }
                        if old_keys.contains(k) {
                            let p = choose|p: int| 0 <= p < old_keys.len() && old_keys[p] == k;
                            assert(keys[p] == k);
                        }
                        if k == id@ {
                            assert(keys[keys.len() - 1] == k);
                        }
                    }
                    assert forall|k: Seq<u8>| keys.contains(k) implies #[trigger] totals(
                        keys,
                        self.costs@,
                    )[k] == old(self)@.insert(id@, cost)[k] by {
                        let p = place_of(keys, k);
                        if k != id@ {
                            let q = place_of(old_keys, k);
                            assert(keys[q] == k);
                            assert(p == q);
                        } else {
                            assert(keys[keys.len() - 1] == k);
                            assert(p == keys.len() - 1);
                        }
                    }
                    assert(self@ =~= old(self)@.insert(id@, cost));
                }
                true
            },
        }
    }

    /// Takes the total of the function `id` out of the ledger.
    pub fn remove(&mut self, id: &FunctionId) -> (res: Option<u128>)
        requires
            old(self).wf(),
        ensures
            final(self).wf(),
            final(self)@ == old(self)@.remove(id@),
            res == (if old(self)@.contains_key(id@) {
                Some(old(self)@[id@])
            } else {
                None
            }),
    {
        match self.find(id) {
            None => {
                assert(self@ =~= old(self)@.remove(id@));
                None
            },
            Some(i) => {
                let _ = self.ids.remove(i);
                let cost = self.costs.remove(i);
                proof {
                    let old_keys = id_views(old(self).ids@);
                    let keys = id_views(self.ids@);
                    assert(keys =~= old_keys.remove(i as int));
                    assert(old_keys[i as int] == id@);
                    assert(distinct(keys));
                    assert forall|k: Seq<u8>| keys.contains(k) <==> old_keys.contains(k) && k
                        != id@ by {
                        if keys.contains(k) {
                            let p = choose|p: int| 0 <= p < keys.len() && keys[p] == k;
                            if p < i {
                                assert(old_keys[p] == k);
                            } else {
                                assert(old_keys[p + 1] == k);
                            }
                        }
                        if old_keys.contains(k) && k != id@ {
                            let p = choose|p: int| 0 <= p < old_keys.len() && old_keys[p] == k;
                            if p < i {
                                assert(keys[p] == k);
                            } else {
                                assert(keys[p - 1] == k);
                            }
                        }
                    }
                    assert forall|k: Seq<u8>| keys.contains(k) implies #[trigger] totals(
                        keys,
                        self.costs@,
                    )[k] == old(self)@[k] by {
                        let p = place_of(keys, k);
                        let q = place_of(old_keys, k);
                        if p < i {
                            assert(old_keys[p] == k);
                            assert(q == p);
                        } else {
                            assert(old_keys[p + 1] == k);
                            assert(q == p + 1);
                        }
                    }
                    assert(self@ =~= old(self)@.remove(id@));
                }
                Some(cost)
            },
        }
    }

    /// Takes `amount` off the total of the function `id`. A total that does
    /// not exceed the amount leaves the ledger.
    pub fn deduct(&mut self, id: &FunctionId, amount: u128)
        requires
            old(self).wf(),
        ensures
            final(self).wf(),
            final(self)@ == deducted(old(self)@, id@, amount),
    {
        match self.remove(id) {
            Some(total) => {
                if total > amount {
                    let _ = self.record(id, total - amount);
                    assert(self@ =~= deducted(old(self)@, id@, amount));
                }
            },
            None => {},
        }
    }

    /// A ledger lists no function exactly when it holds no total.
    pub proof fn empty_without_keys(&self)
        requires
            self.wf(),
        ensures
            self.keys().len() == 0 <==> self@ == Map::<Seq<u8>, u128>::empty(),
    {
        let keys = self.keys();
        if keys.len() > 0 {
            assert(keys.contains(keys[0]));
            assert(self@.contains_key(keys[0]));
        } else {
            assert(self@ =~= Map::<Seq<u8>, u128>::empty());
        }
    }

    /// Forgets every total.
    pub fn clear(&mut self)
        ensures
            final(self).wf(),
            final(self)@ == Map::<Seq<u8>, u128>::empty(),
            final(self).keys().len() == 0,
    {
        self.ids.clear();
        self.costs.clear();
        assert(self@ =~= Map::<Seq<u8>, u128>::empty());
    }

    /// The function at place `i` of the listing, and its total.
    pub fn entry(&self, i: usize) -> (res: (&FunctionId, u128))
        requires
            self.wf(),
            i < self.keys().len(),
        ensures
            res.0@ == self.keys()[i as int],
            res.0@.len() == 32,
            self@.contains_key(res.0@),
            res.1 == self@[res.0@],
    {
        proof {
            let keys = id_views(self.ids@);
            assert(keys.contains(keys[i as int]));
            assert(place_of(keys, keys[i as int]) == i);
        }
        let id = &self.ids[i];
        let _ = id.as_bytes();
        (id, self.costs[i])
    }

    /// The number of functions with a total.
    pub fn len(&self) -> (n: usize)
        requires
            self.wf(),
        ensures
            n == self.keys().len(),
    {
        self.ids.len()
    }

    /// The totals as they stand: for each function its hexadecimal name and
    /// its total.
    pub fn inspect(&self) -> (bill: Vec<(String, u128)>)
        requires
            self.wf(),
        ensures
            bill@.len() == self.keys().len(),
            forall|i: int|
                0 <= i < bill@.len() ==> {
                    &&& (#[trigger] bill@[i]).0@ == id_hex(self.keys()[i])
                    &&& self@.contains_key(self.keys()[i])
                    &&& bill@[i].1 == self@[self.keys()[i]]
                },
    {
        let mut bill: Vec<(String, u128)> = Vec::new();
        let mut i: usize = 0;
        while i < self.ids.len()
            invariant
                i <= self.ids.len(),
                self.wf(),
                bill@.len() == i,
                forall|j: int|
                    0 <= j < i ==> {
                        &&& (#[trigger] bill@[j]).0@ == id_hex(self.keys()[j])
                        &&& self@.contains_key(self.keys()[j])
                        &&& bill@[j].1 == self@[self.keys()[j]]
                    },
            decreases self.ids.len() - i,
        {
            proof {
                let keys = id_views(self.ids@);
                assert(keys.contains(keys[i as int]));
                assert(place_of(keys, keys[i as int]) == i);
            }
            bill.push((self.ids[i].to_hex(), self.costs[i]));
            i += 1;
        }
        bill
    }
}

/// A signed claim as it is handed out: the payload and the signature over
/// it, both in hexadecimal.
#[derive(Debug)]
pub struct BillClaim {
    pub bill_claim_data: String,
    pub signature: String,
}

/// The payload of the last claim, and its signature once there is one.
#[derive(Debug)]
pub struct LastClaim {
    pub payload: Vec<u8>,
    pub signature: Option<String>,
}

/// The last claim that was made, if any.
#[derive(Debug)]
pub struct ClaimStore {
    pub last: Option<LastClaim>,
}

/// Why no claim was made.
#[derive(Debug, Clone, Copy, PartialEq, Eq, Structural)]
pub enum ExportError {
    /// The nonce is the empty text.
    EmptyNonce,
    /// No function was named.
    EmptyList,
    /// The nonce is not 32 bytes in hexadecimal.
    BadNonce(HexError),
    /// None of the named functions has a total.
    NothingToClaim,
    /// The payload was made and kept, but could not be signed.
    Signing(SigningError),
}

/// Why no claim was handed out.
#[derive(Debug, Clone, Copy, PartialEq, Eq, Structural)]
pub enum LatestError {
    /// No claim has been made yet.
    NoClaim,
    /// The last payload still could not be signed.
    Signing(SigningError),
}

/// What the named texts give as identifiers, `None` for a text that names
/// none.
pub open spec fn requested_ids(hashes: Seq<String>) -> Seq<Option<Seq<u8>>> {
    hashes.map_values(|h: String| hex_name_decoded(encode_utf8(h@)))
}

/// The ledger without the totals of the requested functions.
pub open spec fn ledger_without(m: Map<Seq<u8>, u128>, ids: Seq<Option<Seq<u8>>>) -> Map<
    Seq<u8>,
    u128,
> {
    Map::new(|k: Seq<u8>| m.contains_key(k) && !ids.contains(Some(k)), |k: Seq<u8>| m[k])
}

/// Request `n` is billed when it names a function that has a total and that
/// no earlier request named.
pub open spec fn is_billed(m: Map<Seq<u8>, u128>, ids: Seq<Option<Seq<u8>>>, n: int) -> bool {
    &&& 0 <= n < ids.len()
    &&& ids[n] is Some
    &&& m.contains_key(ids[n]->Some_0)
    &&& !ids.subrange(0, n).contains(ids[n])
}

/// The record of request `n`: the identifier and the total as 16 bytes with
/// the high byte first; nothing where the request is not billed.
pub open spec fn record_at(m: Map<Seq<u8>, u128>, ids: Seq<Option<Seq<u8>>>, n: int) -> Seq<u8> {
    if is_billed(m, ids, n) {
        ids[n]->Some_0 + be_bytes(m[ids[n]->Some_0] as nat, 16)
    } else {
        Seq::empty()
    }
}

/// The records of the first `n` requests, in their order.
pub open spec fn claim_records(m: Map<Seq<u8>, u128>, ids: Seq<Option<Seq<u8>>>, n: nat) -> Seq<u8>
    decreases n,
{
    if n == 0 {
        Seq::empty()
    } else {
        claim_records(m, ids, (n - 1) as nat) + record_at(m, ids, n - 1)
    }
}

/// What a request for a claim yields from the ledger `m`: the payload, which
/// is the nonce and then the records, or the first reason to refuse.
pub open spec fn claim_payload(m: Map<Seq<u8>, u128>, data: SigningData) -> Result<
    Seq<u8>,
    ExportError,
> {
    let ids = requested_ids(data.tx_hashes@);
    if data.nonce@.len() == 0 {
        Err(ExportError::EmptyNonce)
    } else if data.tx_hashes@.len() == 0 {
        Err(ExportError::EmptyList)
    } else {
        match hex_decoded_exact(encode_utf8(data.nonce@), 32) {
            Err(e) => Err(ExportError::BadNonce(e)),
            Ok(nonce) => if claim_records(m, ids, ids.len()).len() == 0 {
                Err(ExportError::NothingToClaim)
            } else {
                Ok(nonce + claim_records(m, ids, ids.len()))
            },
        }
    }
}

/// The ledger after a request for a claim: the billed totals have left it,
/// unless the request was refused before any function was looked up.
pub open spec fn ledger_after_claim(m: Map<Seq<u8>, u128>, data: SigningData) -> Map<
    Seq<u8>,
    u128,
> {
    if data.nonce@.len() == 0 || data.tx_hashes@.len() == 0 || hex_decoded_exact(
        encode_utf8(data.nonce@),
        32,
    ) is Err {
        m
    } else {
        ledger_without(m, requested_ids(data.tx_hashes@))
    }
}

/// Makes the payload of a claim and takes the billed totals out of the
/// ledger.
pub fn build_claim(ledger: &mut BillingLedger, data: &SigningData) -> (res: Result<
    Vec<u8>,
    ExportError,
>)
    requires
        old(ledger).wf(),
    ensures
        final(ledger).wf(),
        final(ledger)@ == ledger_after_claim(old(ledger)@, *data),
        match claim_payload(old(ledger)@, *data) {
            Ok(payload) => res is Ok && res->Ok_0@ == payload,
            Err(e) => res == Err::<Vec<u8>, ExportError>(e),
        },
{
    if data.nonce.as_str().is_empty() {
        return Err(ExportError::EmptyNonce);
    }
    if data.tx_hashes.len() == 0 {
        return Err(ExportError::EmptyList);
    }
    let mut payload = match hex_decode_exact(data.nonce.as_str().as_bytes(), 32) {
        Err(e) => {
            return Err(ExportError::BadNonce(e));
        },
        Ok(nonce) => nonce,
    };
    let ghost nonce = payload@;
    let ghost m = ledger@;
    let ghost ids = requested_ids(data.tx_hashes@);
    let mut i: usize = 0;
    proof {
        assert(ledger@ =~= ledger_without(m, ids.subrange(0, 0)));
    }
    while i < data.tx_hashes.len()
        invariant
            i <= data.tx_hashes.len(),
            ids == requested_ids(data.tx_hashes@),
            ledger.wf(),
            ledger@ == ledger_without(m, ids.subrange(0, i as int)),
            payload@ == nonce + claim_records(m, ids, i as nat),
        decreases data.tx_hashes.len() - i,
    {
        let ghost before = ids.subrange(0, i as int);
        let ghost after = ids.subrange(0, i + 1);
        proof {
            assert(after =~= before.push(ids[i as int]));
            assert forall|k: Seq<u8>| after.contains(Some(k)) <==> before.contains(Some(k))
                || ids[i as int] == Some(k) by {
                if after.contains(Some(k)) {
                    let p = choose|p: int| 0 <= p < after.len() && after[p] == Some(k);
                    if p < i {
                        assert(before[p] == Some(k));
                    }
                }
                if before.contains(Some(k)) {
                    let p = choose|p: int| 0 <= p < before.len() && before[p] == Some(k);
                    assert(after[p] == Some(k));
                }
                if ids[i as int] == Some(k) {
                    assert(after[i as int] == Some(k));
                }
            }
        }
        match FunctionId::from_hex(data.tx_hashes[i].as_str()) {
            None => {
                proof {
                    assert(ids[i as int] is None);
                    assert(ledger@ =~= ledger_without(m, after));
                    assert(record_at(m, ids, i as int) =~= Seq::<u8>::empty());
                    assert(payload@ =~= nonce + claim_records(m, ids, (i + 1) as nat));
                }
            },
            Some(id) => {
                proof {
                    assert(ids[i as int] == Some(id@));
                }
                match ledger.remove(&id) {
                    None => {
                        proof {
                            assert(ledger@ =~= ledger_without(m, after));
                            assert(!is_billed(m, ids, i as int));
                            assert(payload@ =~= nonce + claim_records(m, ids, (i + 1) as nat));
                        }
                    },
                    Some(cost) => {
                        append(&mut payload, id.as_bytes().as_slice());
                        let total = to_be_bytes(cost, 16);
                        append(&mut payload, total.as_slice());
                        proof {
                            assert(ledger@ =~= ledger_without(m, after));
                            assert(is_billed(m, ids, i as int));
                            assert(payload@ =~= nonce + claim_records(m, ids, (i + 1) as nat));
                        }
                    },
                }
            },
        }
        i += 1;
    }
    proof {
        assert(ids.subrange(0, i as int) =~= ids);
        assert(i == ids.len());
    }
    if payload.len() == 32 {
        assert(claim_records(m, ids, ids.len()).len() == 0);
        return Err(ExportError::NothingToClaim);
    }
    Ok(payload)
}

impl LastClaim {
    /// The payload and the signature as mathematical values.
    pub open spec fn view(&self) -> (Seq<u8>, Option<Seq<char>>) {
        (
            self.payload@,
            match self.signature {
                Some(s) => Some(s@),
                None => None,
            },
        )
    }
}

impl ClaimStore {
    /// The last payload and its signature as mathematical values.
    pub open spec fn view(&self) -> Option<(Seq<u8>, Option<Seq<char>>)> {
        match self.last {
            Some(claim) => Some(claim@),
            None => None,
        }
    }

    /// A store that holds no claim.
    pub fn new() -> (store: ClaimStore)
        ensures
            store@ is None,
    {
        ClaimStore { last: None }
    }
}

/// What a request for a claim leaves in the store when its payload was made:
/// the payload, with the signature where there is one.
pub open spec fn store_after_export(payload: Seq<u8>, signature: Option<Seq<char>>) -> Option<
    (Seq<u8>, Option<Seq<char>>),
> {
    Some((payload, signature))
}

/// Keeps the payload of a claim together with what signing gave, and hands
/// the claim out where it is signed.
pub fn finish_export(
    claims: &mut ClaimStore,
    payload: Vec<u8>,
    signature: Result<String, SigningError>,
) -> (res: Result<BillClaim, ExportError>)
    ensures
        match signature {
            Ok(s) => {
                &&& final(claims)@ == store_after_export(payload@, Some(s@))
                &&& res is Ok
                &&& res->Ok_0.bill_claim_data@ == hex_lower(payload@)
                &&& res->Ok_0.signature@ == s@
            },
            Err(e) => {
                &&& final(claims)@ == store_after_export(payload@, None)
                &&& res == Err::<BillClaim, ExportError>(ExportError::Signing(e))
            },
        },
{
    match signature {
        Ok(s) => {
            let text = hex_encode(payload.as_slice());
            let kept = s.clone();
            claims.last = Some(LastClaim { payload, signature: Some(kept) });
            Ok(BillClaim { bill_claim_data: text, signature: s })
        },
        Err(e) => {
            claims.last = Some(LastClaim { payload, signature: None });
            Err(ExportError::Signing(e))
        },
    }
}

/// Makes a claim: the nonce and the records of the named functions that have
/// a total, signed with `signer`. The billed totals leave the ledger, also
/// where signing fails; the payload is then kept unsigned.
pub fn export_bill(
    ledger: &mut BillingLedger,
    claims: &mut ClaimStore,
    data: &SigningData,
    signer: &[u8],
) -> (res: Result<BillClaim, ExportError>)
    requires
        old(ledger).wf(),
    ensures
        final(ledger).wf(),
        final(ledger)@ == ledger_after_claim(old(ledger)@, *data),
        match claim_payload(old(ledger)@, *data) {
            Err(e) => res == Err::<BillClaim, ExportError>(e) && final(claims)@ == old(claims)@,
            Ok(payload) => match signed_hex(signer@, payload) {
                Some(signature) => {
                    &&& res is Ok
                    &&& res->Ok_0.bill_claim_data@ == hex_lower(payload)
                    &&& res->Ok_0.signature@ == signature
                    &&& final(claims)@ == store_after_export(payload, Some(signature))
                },
                None => {
                    &&& res == Err::<BillClaim, ExportError>(ExportError::Signing(SigningError))
                    &&& final(claims)@ == store_after_export(payload, None)
                },
            },
        },
        res is Ok ==> res->Ok_0.signature@.len() == SIGNATURE_DIGITS,
{
    match build_claim(ledger, data) {
        Err(e) => Err(e),
        Ok(payload) => {
            let signature = sign_data(payload.as_slice(), signer);
            finish_export(claims, payload, signature)
        },
    }
}

/// What asking for the last claim yields from a store, where `signature` is
/// what signing the kept payload gives: a signed claim is handed out as it
/// is; an unsigned one is signed now.
pub open spec fn latest_claim(
    store: Option<(Seq<u8>, Option<Seq<char>>)>,
    signature: Option<Seq<char>>,
) -> Result<(Seq<char>, Seq<char>), LatestError> {
    match store {
        None => Err(LatestError::NoClaim),
        Some((payload, Some(kept))) => Ok((hex_lower(payload), kept)),
        Some((payload, None)) => match signature {
            Some(s) => Ok((hex_lower(payload), s)),
            None => Err(LatestError::Signing(SigningError)),
        },
    }
}

/// The store after the last claim was asked for: a signature that was made
/// now is kept.
pub open spec fn store_after_latest(
    store: Option<(Seq<u8>, Option<Seq<char>>)>,
    signature: Option<Seq<char>>,
) -> Option<(Seq<u8>, Option<Seq<char>>)> {
    match store {
        Some((payload, None)) => Some((payload, signature)),
        _ => store,
    }
}

/// Hands out the last claim. A payload that is still unsigned is signed with
/// `signer`, and the signature is kept.
pub fn get_last_bill_claim(claims: &mut ClaimStore, signer: &[u8]) -> (res: Result<
    BillClaim,
    LatestError,
>)
    ensures
        ({
            let signature = match old(claims)@ {
                Some((payload, _)) => signed_hex(signer@, payload),
                None => None,
            };
            &&& final(claims)@ == store_after_latest(old(claims)@, signature)
            &&& match latest_claim(old(claims)@, signature) {
                Ok((data, sig)) => {
                    &&& res is Ok
                    &&& res->Ok_0.bill_claim_data@ == data
                    &&& res->Ok_0.signature@ == sig
                },
                Err(e) => res == Err::<BillClaim, LatestError>(e),
            }
        }),
        (old(claims)@ is Some && old(claims)@->Some_0.1 is None && res is Ok) ==> res->Ok_0.signature@.len()
            == SIGNATURE_DIGITS,
{
    let last = match &claims.last {
        None => {
            return Err(LatestError::NoClaim);
        },
        Some(last) => last,
    };
    let text = hex_encode(last.payload.as_slice());
    match &last.signature {
        Some(kept) => Ok(BillClaim { bill_claim_data: text, signature: kept.clone() }),
        None => match sign_data(last.payload.as_slice(), signer) {
            Err(e) => Err(LatestError::Signing(e)),
            Ok(s) => {
                let mut payload: Vec<u8> = Vec::new();
                append(&mut payload, last.payload.as_slice());
                let kept = s.clone();
                claims.last = Some(LastClaim { payload, signature: Some(kept) });
                Ok(BillClaim { bill_claim_data: text, signature: s })
            },
        },
    }
}

/// The totals as they stand: for each function its hexadecimal name and its
/// total.
pub fn inspect_bill(ledger: &BillingLedger) -> (bill: Vec<(String, u128)>)
    requires
        ledger.wf(),
    ensures
        bill@.len() == ledger.keys().len(),
        forall|i: int|
            0 <= i < bill@.len() ==> {
                &&& (#[trigger] bill@[i]).0@ == id_hex(ledger.keys()[i])
                &&& ledger@.contains_key(ledger.keys()[i])
                &&& bill@[i].1 == ledger@[ledger.keys()[i]]
            },
{
    ledger.inspect()
}

/// A payload that could not be signed when the claim was made is handed out
/// unchanged once signing works, and is kept with its signature from then on.
pub proof fn unsigned_claim_is_signed_later(payload: Seq<u8>, signature: Seq<char>)
    ensures
        latest_claim(store_after_export(payload, None), Some(signature)) == Ok::<
            (Seq<char>, Seq<char>),
            LatestError,
        >((hex_lower(payload), signature)),
        store_after_latest(store_after_export(payload, None), Some(signature))
            == store_after_export(payload, Some(signature)),
        latest_claim(store_after_export(payload, Some(signature)), None) == Ok::<
            (Seq<char>, Seq<char>),
            LatestError,
        >((hex_lower(payload), signature)),
{
}

/// A requested function is named by some request before which no request
/// named it.
pub proof fn first_request_exists(ids: Seq<Option<Seq<u8>>>, k: Seq<u8>, upto: int)
    requires
        0 <= upto < ids.len(),
        ids[upto] == Some(k),
    ensures
        exists|n: int| 0 <= n <= upto && ids[n] == Some(k) && !ids.subrange(0, n).contains(Some(k)),
    decreases upto,
{
    if ids.subrange(0, upto).contains(Some(k)) {
        let p = choose|p: int| 0 <= p < upto && ids.subrange(0, upto)[p] == Some(k);
        assert(ids[p] == Some(k));
        first_request_exists(ids, k, p);
    }
}

/// What a claim holds, and what it takes. The payload of a claim begins with
/// the 32 bytes of the nonce. Each record behind it is the identifier and the
/// total of a function that had a total before the claim and has none after
/// it; each function that lost its total has a record; and every other total
/// stays as it was.
pub proof fn claim_matches_ledger(m: Map<Seq<u8>, u128>, data: SigningData)
    requires
        claim_payload(m, data) is Ok,
    ensures
        ({
            let ids = requested_ids(data.tx_hashes@);
            let payload = claim_payload(m, data)->Ok_0;
            let after = ledger_after_claim(m, data);
            let nonce = hex_decoded_exact(encode_utf8(data.nonce@), 32)->Ok_0;
            &&& nonce.len() == 32
            &&& payload.subrange(0, 32) == nonce
            &&& payload.subrange(32, payload.len() as int) == claim_records(m, ids, ids.len())
            &&& forall|n: int| #[trigger]
                is_billed(m, ids, n) ==> {
                    &&& m.contains_key(ids[n]->Some_0)
                    &&& !after.contains_key(ids[n]->Some_0)
                    &&& record_at(m, ids, n) == ids[n]->Some_0 + be_bytes(
                        m[ids[n]->Some_0] as nat,
                        16,
                    )
                }
            &&& forall|k: Seq<u8>|
                m.contains_key(k) && !#[trigger] after.contains_key(k) ==> exists|n: int|
                    is_billed(m, ids, n) && ids[n] == Some(k)
            &&& forall|k: Seq<u8>| #[trigger]
                after.contains_key(k) ==> m.contains_key(k) && after[k] == m[k]
        }),
{
    let ids = requested_ids(data.tx_hashes@);
    let payload = claim_payload(m, data)->Ok_0;
    let after = ledger_after_claim(m, data);
    let nonce = hex_decoded_exact(encode_utf8(data.nonce@), 32)->Ok_0;
    let records = claim_records(m, ids, ids.len());
    assert(payload == nonce + records);
    assert(payload.subrange(0, 32) =~= nonce);
    assert(payload.subrange(32, payload.len() as int) =~= records);
    assert forall|n: int| #[trigger] is_billed(m, ids, n) implies !after.contains_key(
        ids[n]->Some_0,
    ) by {
        assert(ids.contains(ids[n]));
    }
    assert forall|k: Seq<u8>| m.contains_key(k) && !#[trigger] after.contains_key(k) implies exists|
        n: int,
    |
        is_billed(m, ids, n) && ids[n] == Some(k) by {
        assert(ids.contains(Some(k)));
        let p = choose|p: int| 0 <= p < ids.len() && ids[p] == Some(k);
        first_request_exists(ids, k, p);
        let n = choose|n: int|
            0 <= n <= p && ids[n] == Some(k) && !ids.subrange(0, n).contains(Some(k));
        assert(is_billed(m, ids, n));
    }
}

impl ExportError {
    /// The status that a refused claim is answered with: the fault lies with
    /// the request, except where signing failed.
    pub fn status(&self) -> (code: u16)
        ensures
            code == (if *self is Signing {
                500u16
            } else {
                400u16
            }),
    {
        match self {
            ExportError::Signing(_) => 500,
            _ => 400,
        }
    }

    /// What a refused claim is answered with.
    pub open spec fn message_spec(self) -> Seq<u8> {
        match self {
            ExportError::EmptyNonce => "Nonce must not be empty!".spec_bytes(),
            ExportError::EmptyList => "List of transaction hashes must not be empty!".spec_bytes(),
            ExportError::BadNonce(e) => "Failed to decode nonce into 32 bytes: ".spec_bytes()
                + encode_utf8(hex_error_display(e)),
            ExportError::NothingToClaim => "no billed functions in claim".spec_bytes(),
            ExportError::Signing(_) => "Failed to sign billing data: signature error".spec_bytes(),
        }
    }

    /// Writes what a refused claim is answered with.
    pub fn message(&self) -> (body: Vec<u8>)
        ensures
            body@ == self.message_spec(),
    {
        match self {
            ExportError::EmptyNonce => owned("Nonce must not be empty!"),
            ExportError::EmptyList => owned("List of transaction hashes must not be empty!"),
            ExportError::BadNonce(e) => {
                let mut body = owned("Failed to decode nonce into 32 bytes: ");
                let text = hex_error_text(*e);
                append(&mut body, text.as_str().as_bytes());
                body
            },
            ExportError::NothingToClaim => owned("no billed functions in claim"),
            ExportError::Signing(_) => owned("Failed to sign billing data: signature error"),
        }
    }
}

impl LatestError {
    /// The status that the request for the last claim is answered with where
    /// there is none to hand out.
    pub fn status(&self) -> (code: u16)
        ensures
            code == (if *self is Signing {
                500u16
            } else {
                400u16
            }),
    {
        match self {
            LatestError::Signing(_) => 500,
            LatestError::NoClaim => 400,
        }
    }

    /// What the request for the last claim is answered with where there is
    /// none to hand out.
    pub open spec fn message_spec(self) -> Seq<u8> {
        match self {
            LatestError::NoClaim => "No bill claimed yet!".spec_bytes(),
            LatestError::Signing(_) => "Failed to sign billing data: signature error".spec_bytes(),
        }
    }

    /// Writes what the request for the last claim is answered with where
    /// there is none to hand out.
    pub fn message(&self) -> (body: Vec<u8>)
        ensures
            body@ == self.message_spec(),
    {
        match self {
            LatestError::NoClaim => owned("No bill claimed yet!"),
            LatestError::Signing(_) => owned("Failed to sign billing data: signature error"),
        }
    }
}

/// The number of requests among the first `n` that are billed.
pub open spec fn billed_count(m: Map<Seq<u8>, u128>, ids: Seq<Option<Seq<u8>>>, n: nat) -> nat
    decreases n,
{
    if n == 0 {
        0
    } else {
        billed_count(m, ids, (n - 1) as nat) + (if is_billed(m, ids, n - 1) {
            1nat
        } else {
            0nat
        })
    }
}

/// A number written with the high byte first fills its width.
pub proof fn be_bytes_fill_width(x: nat, width: nat)
    ensures
        be_bytes(x, width).len() == width,
    decreases width,
{
    if width > 0 {
        be_bytes_fill_width(x / 256, (width - 1) as nat);
    }
}

/// Each billed request adds a record of 48 bytes to a claim: 32 for the
/// identifier and 16 for the total.
pub proof fn records_are_48_bytes(m: Map<Seq<u8>, u128>, hashes: Seq<String>, n: nat)
    requires
        n <= hashes.len(),
    ensures
        claim_records(m, requested_ids(hashes), n).len() == 48 * billed_count(
            m,
            requested_ids(hashes),
            n,
        ),
    decreases n,
{
    if n > 0 {
        let ids = requested_ids(hashes);
        records_are_48_bytes(m, hashes, (n - 1) as nat);
        if is_billed(m, ids, n - 1) {
            let id = ids[n - 1]->Some_0;
            assert(ids[n - 1] == hex_name_decoded(encode_utf8(hashes[n - 1]@)));
            assert(id.len() == 32);
            be_bytes_fill_width(m[id] as nat, 16);
        }
    }
}

} // verus!
