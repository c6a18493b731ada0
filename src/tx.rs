//! Transactions, their parts, and the unspent outputs they spend.

use vstd::prelude::*;
use crate::error::Error;

verus! {

/// A locking script together with its version.
#[derive(Clone, Debug)]
pub struct ScriptPublicKey {
    pub version: u16,
    pub script: Vec<u8>,
}

impl ScriptPublicKey {
    pub fn new(version: u16, script: Vec<u8>) -> (r: Self)
        ensures
            r.version == version,
            r.script@ == script@,
    {
        ScriptPublicKey { version, script }
    }

    /// A copy with the same version and script.
    pub fn duplicate(&self) -> (r: Self)
        ensures
            r.version == self.version,
            r.script@ == self.script@,
    {
        ScriptPublicKey { version: self.version, script: self.script.clone() }
    }
}

/// The transaction and the output index that an unspent output comes from.
#[derive(Clone, Copy, Debug)]
pub struct TransactionOutpoint {
    pub transaction_id: [u8; 32],
    pub index: u32,
}

/// An unspent output that a transaction may consume.
#[derive(Clone, Debug)]
pub struct UtxoEntry {
    pub outpoint: TransactionOutpoint,
    pub amount: u64,
    pub script_public_key: ScriptPublicKey,
    pub block_daa_score: u64,
    pub is_coinbase: bool,
}

impl UtxoEntry {
    pub fn new(
        outpoint: TransactionOutpoint,
        amount: u64,
        script_public_key: ScriptPublicKey,
        block_daa_score: u64,
        is_coinbase: bool,
    ) -> (r: Self)
        ensures
            r.outpoint == outpoint,
            r.amount == amount,
            r.script_public_key.version == script_public_key.version,
            r.script_public_key.script@ == script_public_key.script@,
            r.block_daa_score == block_daa_score,
            r.is_coinbase == is_coinbase,
    {
        UtxoEntry { outpoint, amount, script_public_key, block_daa_score, is_coinbase }
    }

    /// A copy with the same fields.
    pub fn duplicate(&self) -> (r: Self)
        ensures
            r.same_as(*self),
    {
        UtxoEntry {
            outpoint: self.outpoint,
            amount: self.amount,
            script_public_key: self.script_public_key.duplicate(),
            block_daa_score: self.block_daa_score,
            is_coinbase: self.is_coinbase,
        }
    }

    pub open spec fn same_as(self, o: UtxoEntry) -> bool {
        &&& self.outpoint == o.outpoint
        &&& self.amount == o.amount
        &&& self.script_public_key.version == o.script_public_key.version
        &&& self.script_public_key.script@ == o.script_public_key.script@
        &&& self.block_daa_score == o.block_daa_score
        &&& self.is_coinbase == o.is_coinbase
    }
}

/// An input of a transaction: the output it spends and, once signed, the
/// script that unlocks it.
#[derive(Clone, Debug)]
pub struct TransactionInput {
    pub previous_outpoint: TransactionOutpoint,
    pub signature_script: Vec<u8>,
    pub sequence: u64,
    pub sig_op_count: u8,
    pub utxo: Option<UtxoEntry>,
}

/// An output of a transaction: an amount behind a locking script.
#[derive(Clone, Debug)]
pub struct TransactionOutput {
    pub value: u64,
    pub script_public_key: ScriptPublicKey,
}

impl TransactionOutput {
    pub fn new(value: u64, script_public_key: ScriptPublicKey) -> (r: Self)
        ensures
            r.value == value,
            r.script_public_key.version == script_public_key.version,
            r.script_public_key.script@ == script_public_key.script@,
    {
        TransactionOutput { value, script_public_key }
    }
}

/// A payment that a caller asks for: an amount to a locking script.
#[derive(Clone, Debug)]
pub struct PaymentOutput {
    pub script_public_key: ScriptPublicKey,
    pub amount: u64,
}

impl PaymentOutput {
    pub fn new(script_public_key: ScriptPublicKey, amount: u64) -> (r: Self)
        ensures
            r.amount == amount,
            r.script_public_key.version == script_public_key.version,
            r.script_public_key.script@ == script_public_key.script@,
    {
        PaymentOutput { script_public_key, amount }
    }
}

/// The native subnetwork, the one that ordinary transfers belong to: all zeros.
pub open spec fn is_native_subnetwork(id: [u8; 20]) -> bool {
    forall|i: int| 0 <= i < 20 ==> #[trigger] id@[i] == 0
}

/// A transaction under construction. Its mass is not authoritative until it
/// has been computed.
#[derive(Clone, Debug)]
pub struct Transaction {
    pub version: u16,
    pub inputs: Vec<TransactionInput>,
    pub outputs: Vec<TransactionOutput>,
    pub lock_time: u64,
    pub subnetwork_id: [u8; 20],
    pub gas: u64,
    pub payload: Vec<u8>,
    pub mass: u64,
}

/// The sum of the amounts of a sequence of entries.
pub open spec fn entries_total(s: Seq<UtxoEntry>) -> int
    decreases s.len(),
{
    if s.len() == 0 {
        0
    } else {
        entries_total(s.drop_last()) + s.last().amount
    }
}

/// The sum of the values of a sequence of outputs.
pub open spec fn outputs_total(s: Seq<TransactionOutput>) -> int
    decreases s.len(),
{
    if s.len() == 0 {
        0
    } else {
        outputs_total(s.drop_last()) + s.last().value
    }
}

/// The sum of the amounts of a sequence of payments.
pub open spec fn payments_total(s: Seq<PaymentOutput>) -> int
    decreases s.len(),
{
    if s.len() == 0 {
        0
    } else {
        payments_total(s.drop_last()) + s.last().amount
    }
}

/// Every input of `inputs` spends the matching entry of `entries`, with its
/// position as its sequence number, no signature yet, and `sig_op_count`.
pub open spec fn spends_in_order(
    inputs: Seq<TransactionInput>,
    entries: Seq<UtxoEntry>,
    sig_op_count: u8,
) -> bool {
    &&& inputs.len() == entries.len()
    &&& forall|i: int|
        0 <= i < inputs.len() ==> {
            &&& (#[trigger] inputs[i]).previous_outpoint == entries[i].outpoint
            &&& inputs[i].signature_script@.len() == 0
            &&& inputs[i].sequence == i
            &&& inputs[i].sig_op_count == sig_op_count
            &&& inputs[i].utxo matches Some(u) && u.same_as(entries[i])
        }
}

/// Every output of `outputs` pays the matching payment of `payments`.
pub open spec fn pays_in_order(outputs: Seq<TransactionOutput>, payments: Seq<PaymentOutput>) -> bool {
    &&& outputs.len() == payments.len()
    &&& forall|i: int|
        0 <= i < outputs.len() ==> {
            &&& (#[trigger] outputs[i]).value == payments[i].amount
            &&& outputs[i].script_public_key.version == payments[i].script_public_key.version
            &&& outputs[i].script_public_key.script@ == payments[i].script_public_key.script@
        }
}

/// The sum of the amounts of `entries`, or `None` when it does not fit in 64 bits.
pub fn total_amount(entries: &Vec<UtxoEntry>) -> (r: Option<u64>)
    ensures
        match r {
            Some(t) => t == entries_total(entries@),
            None => entries_total(entries@) > u64::MAX,
        },
{
    let mut total: u64 = 0;
    let mut i: usize = 0;
    while i < entries.len()
        invariant
            i <= entries@.len(),
            total == entries_total(entries@.subrange(0, i as int)),
        decreases entries.len() - i,
    {
        assert(entries@.subrange(0, i + 1).drop_last() =~= entries@.subrange(0, i as int));
        match total.checked_add(entries[i].amount) {
            Some(t) => {
                total = t;
            },
            None => {
                proof {
                    lemma_entries_total_prefix_grows(entries@, i + 1);
                }
                return None;
            },
        }
        i += 1;
    }
    assert(entries@.subrange(0, i as int) =~= entries@);
    Some(total)
}

/// The sum over a prefix is at most the sum over the whole.
pub proof fn lemma_entries_total_prefix_grows(s: Seq<UtxoEntry>, k: int)
    requires
        0 <= k <= s.len(),
    ensures
        entries_total(s.subrange(0, k)) <= entries_total(s),
    decreases s.len() - k,
{
    if k < s.len() {
        assert(s.subrange(0, k + 1).drop_last() =~= s.subrange(0, k));
        lemma_entries_total_prefix_grows(s, k + 1);
    } else {
        assert(s.subrange(0, k) =~= s);
    }
}

/// One input for each entry, in order, with its position as its sequence
/// number and no signature yet.
pub fn inputs_for(entries: &Vec<UtxoEntry>, sig_op_count: u8) -> (r: Vec<TransactionInput>)
    ensures
        spends_in_order(r@, entries@, sig_op_count),
{
    let mut inputs: Vec<TransactionInput> = Vec::new();
    let mut i: usize = 0;
    while i < entries.len()
        invariant
            i <= entries@.len(),
            spends_in_order(inputs@, entries@.subrange(0, i as int), sig_op_count),
        decreases entries.len() - i,
    {
        let e = &entries[i];
        inputs.push(
            TransactionInput {
                previous_outpoint: e.outpoint,
                signature_script: Vec::new(),
                sequence: i as u64,
                sig_op_count,
                utxo: Some(e.duplicate()),
            },
        );
        i += 1;
    }
    assert(entries@.subrange(0, i as int) =~= entries@);
    inputs
}

/// One output for each payment, in order.
pub fn outputs_for(payments: &Vec<PaymentOutput>) -> (r: Vec<TransactionOutput>)
    ensures
        pays_in_order(r@, payments@),
{
    let mut outputs: Vec<TransactionOutput> = Vec::new();
    let mut i: usize = 0;
    while i < payments.len()
        invariant
            i <= payments@.len(),
            pays_in_order(outputs@, payments@.subrange(0, i as int)),
        decreases payments.len() - i,
    {
        let p = &payments[i];
        outputs.push(TransactionOutput::new(p.amount, p.script_public_key.duplicate()));
        i += 1;
    }
    assert(payments@.subrange(0, i as int) =~= payments@);
    outputs
}

/// Payments paid in order add up to the same total.
pub proof fn lemma_pays_in_order_total(outputs: Seq<TransactionOutput>, payments: Seq<PaymentOutput>)
    requires
        pays_in_order(outputs, payments),
    ensures
        outputs_total(outputs) == payments_total(payments),
    decreases outputs.len(),
{
    if outputs.len() > 0 {
        assert(pays_in_order(outputs.drop_last(), payments.drop_last()));
        lemma_pays_in_order_total(outputs.drop_last(), payments.drop_last());
    }
}

/// A single unsigned transaction that spends every entry, in order, and pays
/// the outputs; the difference is left to the fee. Fails when the amounts of
/// the entries do not fit in 64 bits, or when the priority fee is larger than
/// their sum.
pub fn create_transaction(
    entries: &Vec<UtxoEntry>,
    outputs: &Vec<PaymentOutput>,
    priority_fee: u64,
    payload: Vec<u8>,
    sig_op_count: u8,
) -> (r: Result<Transaction, Error>)
    ensures
        entries_total(entries@) > u64::MAX ==> r == Err::<Transaction, Error>(Error::AmountOverflow),
        entries_total(entries@) <= u64::MAX && priority_fee > entries_total(entries@) ==> r == Err::<
            Transaction,
            Error,
        >(Error::PriorityFeeExceedsInputs),
        r is Ok <==> (entries_total(entries@) <= u64::MAX && priority_fee <= entries_total(entries@)),
        r matches Ok(tx) ==> {
            &&& spends_in_order(tx.inputs@, entries@, sig_op_count)
            &&& pays_in_order(tx.outputs@, outputs@)
            &&& tx.version == 0 && tx.lock_time == 0 && tx.gas == 0 && tx.mass == 0
            &&& is_native_subnetwork(tx.subnetwork_id)
            &&& tx.payload@ == payload@
        },
{
    let total = match total_amount(entries) {
        Some(t) => t,
        None => {
            return Err(Error::AmountOverflow);
        },
    };
    if priority_fee > total {
        return Err(Error::PriorityFeeExceedsInputs);
    }
    Ok(
        Transaction {
            version: 0,
            inputs: inputs_for(entries, sig_op_count),
            outputs: outputs_for(outputs),
            lock_time: 0,
            subnetwork_id: [0u8; 20],
            gas: 0,
            payload,
            mass: 0,
        },
    )
}

} // verus!
