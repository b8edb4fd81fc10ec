//! Settlement: from time to time the totals of the ledger are put before the
//! billing contract, and forgotten once the chain has confirmed them.

use crate::billing_handler::{deducted, distinct, BillingLedger};
use crate::model::FunctionId;
use crate::bytes::append;
use crate::signing::{
    be_bytes, sign_data, signed_hex, to_be_bytes, SigningError, SIGNATURE_DIGITS,
};
use vstd::prelude::*;

verus! {

/// The time between two settlements, in seconds.
pub const SETTLE_SECONDS: u64 = 600;

/// The number of blocks after which a settlement counts as confirmed.
pub const CONFIRMATIONS: usize = 7;

/// The arguments of one call of the contract's `settle`: the functions, the
/// amount for each, and the signature over both.
#[derive(Debug)]
pub struct Settlement {
    pub tx_hashes: Vec<Vec<u8>>,
    pub amounts: Vec<u128>,
    pub signature: String,
}

/// What a settlement round does.
#[derive(Debug)]
pub enum SettleStep {
    /// Nothing: the ledger is empty.
    Idle,
    /// Call `settle` with these arguments and wait for the confirmations.
    Submit(Settlement),
    /// Nothing: the totals could not be signed.
    Unsigned(SigningError),
}

/// The bytes that are signed for a settlement: for each of the first `n`
/// functions its identifier and its total as 16 bytes with the high byte
/// first.
pub open spec fn settlement_bytes(keys: Seq<Seq<u8>>, m: Map<Seq<u8>, u128>, n: nat) -> Seq<u8>
    decreases n,
{
    if n == 0 {
        Seq::empty()
    } else {
        settlement_bytes(keys, m, (n - 1) as nat) + keys[n - 1] + be_bytes(m[keys[n - 1]] as nat, 16)
    }
}

/// The byte strings held by a vector.
pub open spec fn byte_views(v: Seq<Vec<u8>>) -> Seq<Seq<u8>> {
    v.map_values(|x: Vec<u8>| x@)
}

/// Starts a settlement round: with totals in the ledger, the call that puts
/// all of them before the contract, signed with `signer`. The ledger stays as
/// it is until the round is confirmed.
pub fn billing_scheduler(ledger: &BillingLedger, signer: &[u8]) -> (step: SettleStep)
    requires
        ledger.wf(),
    ensures
        ledger.keys().len() == 0 ==> step is Idle,
        ledger.keys().len() > 0 ==> match signed_hex(
            signer@,
            settlement_bytes(ledger.keys(), ledger@, ledger.keys().len()),
        ) {
            Some(signature) => {
                &&& step is Submit
                &&& byte_views(step->Submit_0.tx_hashes@) == ledger.keys()
                &&& step->Submit_0.amounts@.len() == ledger.keys().len()
                &&& forall|i: int|
                    0 <= i < ledger.keys().len() ==> #[trigger] step->Submit_0.amounts@[i]
                        == ledger@[ledger.keys()[i]]
                &&& step->Submit_0.signature@ == signature
                &&& forall|i: int|
                    0 <= i < ledger.keys().len() ==> (#[trigger] ledger.keys()[i]).len() == 32
            },
            None => step == SettleStep::Unsigned(SigningError),
        },
        step is Submit ==> step->Submit_0.signature@.len() == SIGNATURE_DIGITS,
{
    let n = ledger.len();
    if n == 0 {
        return SettleStep::Idle;
    }
    let mut tx_hashes: Vec<Vec<u8>> = Vec::new();
    let mut amounts: Vec<u128> = Vec::new();
    let mut payload: Vec<u8> = Vec::new();
    let mut i: usize = 0;
    while i < n
        invariant
            i <= n,
            n == ledger.keys().len(),
            ledger.wf(),
            byte_views(tx_hashes@) == ledger.keys().subrange(0, i as int),
            amounts@.len() == i,
            forall|j: int| 0 <= j < i ==> #[trigger] amounts@[j] == ledger@[ledger.keys()[j]],
            payload@ == settlement_bytes(ledger.keys(), ledger@, i as nat),
            forall|j: int| 0 <= j < i ==> (#[trigger] ledger.keys()[j]).len() == 32,
        decreases n - i,
    {
        let (id, cost) = ledger.entry(i);
        let mut hash: Vec<u8> = Vec::new();
        append(&mut hash, id.as_bytes().as_slice());
        append(&mut payload, hash.as_slice());
        let total = to_be_bytes(cost, 16);
        append(&mut payload, total.as_slice());
        let ghost before = byte_views(tx_hashes@);
        tx_hashes.push(hash);
        amounts.push(cost);
        proof {
            assert(byte_views(tx_hashes@) =~= before.push(id@));
            assert(byte_views(tx_hashes@) =~= ledger.keys().subrange(0, i + 1));
        }
        i += 1;
    }
    assert(ledger.keys().subrange(0, n as int) =~= ledger.keys());
    match sign_data(payload.as_slice(), signer) {
        Ok(signature) => SettleStep::Submit(Settlement { tx_hashes, amounts, signature }),
        Err(e) => SettleStep::Unsigned(e),
    }
}

/// The totals after the first `n` amounts of a settled call are taken off:
/// each amount off the total of its function.
pub open spec fn settled_totals(
    m: Map<Seq<u8>, u128>,
    ids: Seq<Seq<u8>>,
    amounts: Seq<u128>,
    n: nat,
) -> Map<Seq<u8>, u128>
    decreases n,
{
    if n == 0 {
        m
    } else {
        let before = settled_totals(m, ids, amounts, (n - 1) as nat);
        if ids[n - 1].len() == 32 {
            deducted(before, ids[n - 1], amounts[n - 1])
        } else {
            before
        }
    }
}

/// The number of functions that a call settles: those that have both an
/// identifier and an amount.
pub open spec fn settled_count(call: Settlement) -> nat {
    if call.tx_hashes@.len() <= call.amounts@.len() {
        call.tx_hashes@.len()
    } else {
        call.amounts@.len()
    }
}

/// Ends a settlement round. Where the chain has confirmed the call, what the
/// call settled is taken off the totals, so that what was recorded since the
/// call was made stays for the next round; where it has not, the totals stay
/// as they are.
pub fn settled(ledger: &mut BillingLedger, call: &Settlement, confirmed: bool)
    requires
        old(ledger).wf(),
    ensures
        final(ledger).wf(),
        confirmed ==> final(ledger)@ == settled_totals(
            old(ledger)@,
            byte_views(call.tx_hashes@),
            call.amounts@,
            settled_count(*call),
        ),
        !confirmed ==> final(ledger)@ == old(ledger)@ && final(ledger).keys() == old(ledger).keys(),
        final(ledger).keys().len() == 0 <==> final(ledger)@ == Map::<Seq<u8>, u128>::empty(),
{
    if confirmed {
        let n = if call.tx_hashes.len() <= call.amounts.len() {
            call.tx_hashes.len()
        } else {
            call.amounts.len()
        };
        let mut i: usize = 0;
        while i < n
            invariant
                i <= n,
                n == settled_count(*call),
                ledger.wf(),
                ledger@ == settled_totals(
                    old(ledger)@,
                    byte_views(call.tx_hashes@),
                    call.amounts@,
                    i as nat,
                ),
            decreases n - i,
        {
            assert(byte_views(call.tx_hashes@)[i as int] == call.tx_hashes@[i as int]@);
            match FunctionId::from_bytes(call.tx_hashes[i].as_slice()) {
                Some(id) => {
                    ledger.deduct(&id, call.amounts[i]);
                },
                None => {},
            }
            i += 1;
        }
    }
    proof {
        ledger.empty_without_keys();
    }
}

/// What is left of the totals `m` when the first `n` of the functions `ids`
/// are taken out.
pub open spec fn without_first(m: Map<Seq<u8>, u128>, ids: Seq<Seq<u8>>, n: nat) -> Map<
    Seq<u8>,
    u128,
> {
    Map::new(
        |k: Seq<u8>| m.contains_key(k) && !ids.subrange(0, n as int).contains(k),
        |k: Seq<u8>| m[k],
    )
}

/// A call that was made from the totals as they still stand takes each of its
/// functions out of the ledger.
pub proof fn settled_call_takes_its_functions(
    m: Map<Seq<u8>, u128>,
    ids: Seq<Seq<u8>>,
    amounts: Seq<u128>,
    n: nat,
)
    requires
        n <= ids.len() == amounts.len(),
        distinct(ids),
        forall|i: int|
            0 <= i < ids.len() ==> (#[trigger] ids[i]).len() == 32 && m.contains_key(ids[i])
                && amounts[i] == m[ids[i]],
    ensures
        settled_totals(m, ids, amounts, n) == without_first(m, ids, n),
    decreases n,
{
    if n == 0 {
        assert(ids.subrange(0, 0) =~= Seq::<Seq<u8>>::empty());
        assert(settled_totals(m, ids, amounts, n) =~= without_first(m, ids, n));
    } else {
        settled_call_takes_its_functions(m, ids, amounts, (n - 1) as nat);
        let before = without_first(m, ids, (n - 1) as nat);
        let id = ids[n - 1];
        let head = ids.subrange(0, n - 1);
        let upto = ids.subrange(0, n as int);
        assert(upto =~= head.push(id));
        assert(!head.contains(id)) by {
            if head.contains(id) {
                let p = choose|p: int| 0 <= p < head.len() && head[p] == id;
                assert(ids[p] == ids[n - 1]);
            }
        }
        assert forall|k: Seq<u8>| upto.contains(k) <==> head.contains(k) || k == id by {
            if upto.contains(k) {
                let p = choose|p: int| 0 <= p < upto.len() && upto[p] == k;
                if p < head.len() {
                    assert(head[p] == k);
                }
            }
            if head.contains(k) {
                let p = choose|p: int| 0 <= p < head.len() && head[p] == k;
                assert(upto[p] == k);
            }
            if k == id {
                assert(upto[n - 1] == k);
            }
        }
        assert(before.contains_key(id) && before[id] == amounts[n - 1]);
        assert(deducted(before, id, amounts[n - 1]) =~= without_first(m, ids, n));
    }
}

/// A round that is confirmed before anything else is recorded clears the
/// ledger: a call made from all the totals, as `billing_scheduler` makes it,
/// leaves none when it is settled.
pub proof fn confirmed_round_clears_the_ledger(
    m: Map<Seq<u8>, u128>,
    ids: Seq<Seq<u8>>,
    amounts: Seq<u128>,
)
    requires
        ids.len() == amounts.len(),
        distinct(ids),
        forall|i: int|
            0 <= i < ids.len() ==> (#[trigger] ids[i]).len() == 32 && m.contains_key(ids[i])
                && amounts[i] == m[ids[i]],
        forall|k: Seq<u8>| m.contains_key(k) ==> ids.contains(k),
    ensures
        settled_totals(m, ids, amounts, ids.len()) == Map::<Seq<u8>, u128>::empty(),
{
    settled_call_takes_its_functions(m, ids, amounts, ids.len());
    assert(ids.subrange(0, ids.len() as int) =~= ids);
    assert(without_first(m, ids, ids.len()) =~= Map::<Seq<u8>, u128>::empty());
}

} // verus!
