//! A transaction that awaits its signatures, with what was computed for it.

use vstd::prelude::*;
use crate::crypto::{
    hash_for_signing, hash_transaction_id, keypair_accepts, schnorr_public_key, schnorr_signature,
    schnorr_verifies, sign_schnorr, signing_hash, transaction_id_hash, verify_schnorr, wipe,
    x_only_public_key,
};
use crate::encode::{encode_transaction, le_bytes, push_le, push_script, script_bytes, transaction_bytes};
use crate::error::Error;
use crate::tx::{ScriptPublicKey, Transaction, TransactionInput, UtxoEntry};
use crate::convert::chars_of;

verus! {

/// Which parts of a transaction a signature commits to.
#[derive(Clone, Copy, Debug, PartialEq, Eq, Structural)]
pub enum SighashType {
    All,
    NoOutputs,
    Single,
    AllAnyOneCanPay,
    NoOutputsAnyOneCanPay,
    SingleAnyOneCanPay,
}

impl SighashType {
    pub open spec fn byte(self) -> u8 {
        match self {
            SighashType::All => 0x01,
            SighashType::NoOutputs => 0x02,
            SighashType::Single => 0x04,
            SighashType::AllAnyOneCanPay => 0x81,
            SighashType::NoOutputsAnyOneCanPay => 0x82,
            SighashType::SingleAnyOneCanPay => 0x84,
        }
    }

    /// The byte that stands for the type at the end of a signature script.
    pub fn to_u8(self) -> (r: u8)
        ensures
            r == self.byte(),
    {
        match self {
            SighashType::All => 0x01,
            SighashType::NoOutputs => 0x02,
            SighashType::Single => 0x04,
            SighashType::AllAnyOneCanPay => 0x81,
            SighashType::NoOutputsAnyOneCanPay => 0x82,
            SighashType::SingleAnyOneCanPay => 0x84,
        }
    }

    /// The type that a byte stands for, if any.
    pub open spec fn of_byte(b: u8) -> Option<SighashType> {
        if b == 0x01 {
            Some(SighashType::All)
        } else if b == 0x02 {
            Some(SighashType::NoOutputs)
        } else if b == 0x04 {
            Some(SighashType::Single)
        } else if b == 0x81 {
            Some(SighashType::AllAnyOneCanPay)
        } else if b == 0x82 {
            Some(SighashType::NoOutputsAnyOneCanPay)
        } else if b == 0x84 {
            Some(SighashType::SingleAnyOneCanPay)
        } else {
            None
        }
    }

    /// The type that a byte stands for, if any.
    pub fn from_u8(b: u8) -> (r: Option<SighashType>)
        ensures
            r == SighashType::of_byte(b),
            r matches Some(t) ==> t.byte() == b,
    {
        if b == 0x01 {
            Some(SighashType::All)
        } else if b == 0x02 {
            Some(SighashType::NoOutputs)
        } else if b == 0x04 {
            Some(SighashType::Single)
        } else if b == 0x81 {
            Some(SighashType::AllAnyOneCanPay)
        } else if b == 0x82 {
            Some(SighashType::NoOutputsAnyOneCanPay)
        } else if b == 0x84 {
            Some(SighashType::SingleAnyOneCanPay)
        } else {
            None
        }
    }
}

/// The locking script that pays to an x-only public key with a Schnorr
/// signature check.
pub open spec fn pay_to_pubkey_script(key: Seq<u8>) -> Seq<u8> {
    seq![0x20u8] + key + seq![0xacu8]
}

/// The bytes that the signature of input `index` commits to: the transaction
/// without signature scripts, the index, the type, and the output spent.
pub open spec fn sighash_preimage(tx: Transaction, index: int, t: SighashType) -> Seq<u8> {
    let u = tx.inputs@[index].utxo->0;
    transaction_bytes(tx) + le_bytes(index as nat, 8) + seq![t.byte()] + le_bytes(u.amount as nat, 8)
        + script_bytes(u.script_public_key)
}

/// The signature script of input `index` under a secret key: a push of 65
/// bytes, the signature, and the type.
pub open spec fn signature_script(tx: Transaction, index: int, secret: Seq<u8>, t: SighashType) -> Seq<
    u8,
> {
    seq![65u8] + schnorr_signature(signing_hash(sighash_preimage(tx, index, t)), secret) + seq![
        t.byte(),
    ]
}

/// The position of the first key in `keys` that is valid and whose
/// pay-to-pubkey script is `script`.
pub open spec fn first_key_for(keys: Seq<[u8; 32]>, spk: ScriptPublicKey) -> Option<int>
    decreases keys.len(),
{
    if keys.len() == 0 {
        None
    } else {
        match first_key_for(keys.drop_last(), spk) {
            Some(j) => Some(j),
            None => if keypair_accepts(keys.last()@) && spk.version == 0 && spk.script@
                == pay_to_pubkey_script(schnorr_public_key(keys.last()@)) {
                Some(keys.len() - 1)
            } else {
                None
            },
        }
    }
}

/// The signature script that signing with `keys` leaves on input `i`: a new
/// signature under the first key that unlocks it, where it had none.
pub open spec fn script_after_signing(tx: Transaction, keys: Seq<[u8; 32]>, i: int) -> Seq<u8> {
    let inp = tx.inputs@[i];
    if inp.signature_script@.len() == 0 && inp.utxo is Some {
        match first_key_for(keys, inp.utxo->0.script_public_key) {
            Some(j) => signature_script(tx, i, keys[j]@, SighashType::All),
            None => inp.signature_script@,
        }
    } else {
        inp.signature_script@
    }
}

/// Whether the signature script of input `i` is a Schnorr signature, over
/// the digest it names, that verifies against the key its locking script pays to.
pub open spec fn input_signature_verifies(tx: Transaction, i: int) -> bool {
    script_verifies(tx, i, tx.inputs@[i].signature_script@)
}

/// Whether `s`, as the signature script of input `i` of `tx`, is a Schnorr
/// signature over the digest it names that verifies against the key the
/// spent output pays to.
pub open spec fn script_verifies(tx: Transaction, i: int, s: Seq<u8>) -> bool {
    let inp = tx.inputs@[i];
    let spk = inp.utxo->0.script_public_key;
    &&& inp.utxo is Some
    &&& s.len() == 66
    &&& s[0] == 65
    &&& spk.version == 0
    &&& spk.script@.len() == 34
    &&& spk.script@[0] == 0x20
    &&& spk.script@[33] == 0xac
    &&& match SighashType::of_byte(s[65]) {
        Some(t) => schnorr_verifies(
            s.subrange(1, 65),
            signing_hash(sighash_preimage(tx, i, t)),
            spk.script@.subrange(1, 33),
        ),
        None => false,
    }
}

/// A first key found in a prefix stays the first key of the whole.
proof fn lemma_first_key_prefix(keys: Seq<[u8; 32]>, k: int, spk: ScriptPublicKey)
    requires
        0 <= k <= keys.len(),
        first_key_for(keys.subrange(0, k), spk) is Some,
    ensures
        first_key_for(keys, spk) == first_key_for(keys.subrange(0, k), spk),
    decreases keys.len() - k,
{
    if k < keys.len() {
        assert(keys.subrange(0, k + 1).drop_last() =~= keys.subrange(0, k));
        lemma_first_key_prefix(keys, k + 1, spk);
    } else {
        assert(keys.subrange(0, k) =~= keys);
    }
}

/// The first key that `first_key_for` finds is valid and unlocks the script.
proof fn lemma_first_key_valid(keys: Seq<[u8; 32]>, spk: ScriptPublicKey)
    ensures
        first_key_for(keys, spk) matches Some(j) ==> 0 <= j < keys.len() && keypair_accepts(
            keys[j]@,
        ) && spk.version == 0 && spk.script@ == pay_to_pubkey_script(schnorr_public_key(keys[j]@)),
    decreases keys.len(),
{
    if keys.len() > 0 {
        lemma_first_key_valid(keys.drop_last(), spk);
    }
}

/// The x-only public key of a secret key, when the key is valid.
pub fn public_key_of(secret_key: &[u8; 32]) -> (r: Option<[u8; 32]>)
    ensures
        r is Some == keypair_accepts(secret_key@),
        r matches Some(k) ==> k@ == schnorr_public_key(secret_key@),
{
    x_only_public_key(secret_key)
}

/// The version-zero locking script that pays to an x-only public key.
pub fn pay_to_pubkey(key: &[u8; 32]) -> (r: ScriptPublicKey)
    ensures
        r.version == 0,
        r.script@ == pay_to_pubkey_script(key@),
{
    let mut script: Vec<u8> = Vec::new();
    script.push(0x20u8);
    crate::encode::push_slice(&mut script, key.as_slice());
    script.push(0xacu8);
    assert(script@ =~= pay_to_pubkey_script(key@));
    ScriptPublicKey::new(0, script)
}

/// Whether two byte vectors hold the same bytes.
pub fn bytes_equal(a: &Vec<u8>, b: &Vec<u8>) -> (r: bool)
    ensures
        r == (a@ == b@),
{
    if a.len() != b.len() {
        return false;
    }
    let mut i: usize = 0;
    while i < a.len()
        invariant
            a@.len() == b@.len(),
            i <= a@.len(),
            forall|k: int| 0 <= k < i ==> a@[k] == b@[k],
        decreases a.len() - i,
    {
        if a[i] != b[i] {
            return false;
        }
        i += 1;
    }
    assert(a@ =~= b@);
    true
}

/// The bytes of `v` from `from` to `to`.
pub fn sub_bytes(v: &Vec<u8>, from: usize, to: usize) -> (r: Vec<u8>)
    requires
        from <= to <= v@.len(),
    ensures
        r@ == v@.subrange(from as int, to as int),
{
    let mut r: Vec<u8> = Vec::new();
    let mut i = from;
    while i < to
        invariant
            from <= i <= to <= v@.len(),
            r@ == v@.subrange(from as int, i as int),
        decreases to - i,
    {
        r.push(v[i]);
        i += 1;
        assert(r@ =~= v@.subrange(from as int, i as int));
    }
    r
}

/// The position of the first key in `keys` whose pay-to-pubkey script is `spk`.
pub fn key_for(keys: &Vec<[u8; 32]>, spk: &ScriptPublicKey) -> (r: Option<usize>)
    ensures
        match r {
            Some(j) => first_key_for(keys@, *spk) == Some(j as int),
            None => first_key_for(keys@, *spk) is None,
        },
{
    let mut j: usize = 0;
    assert(keys@.subrange(0, 0) =~= Seq::<[u8; 32]>::empty());
    while j < keys.len()
        invariant
            j <= keys@.len(),
            first_key_for(keys@.subrange(0, j as int), *spk) is None,
        decreases keys.len() - j,
    {
        assert(keys@.subrange(0, j + 1).drop_last() =~= keys@.subrange(0, j as int));
        assert(keys@.subrange(0, j + 1).last() == keys@[j as int]);
        match x_only_public_key(&keys[j]) {
            Some(pk) => {
                let mut expected: Vec<u8> = Vec::new();
                expected.push(0x20u8);
                crate::encode::push_slice(&mut expected, pk.as_slice());
                expected.push(0xacu8);
                assert(expected@ =~= pay_to_pubkey_script(schnorr_public_key(keys@[j as int]@)));
                if spk.version == 0 && bytes_equal(&spk.script, &expected) {
                    proof {
                        lemma_first_key_prefix(keys@, j + 1, *spk);
                    }
                    return Some(j);
                }
            },
            None => {},
        }
        j += 1;
    }
    assert(keys@.subrange(0, j as int) =~= keys@);
    None
}

/// The unspent outputs that the inputs spend.
pub open spec fn spent_entries(s: Seq<TransactionInput>) -> Seq<UtxoEntry> {
    s.map_values(|i: TransactionInput| i.utxo->0)
}

/// Two sequences of inputs that differ at most in their signature scripts.
pub open spec fn same_but_scripts(a: Seq<TransactionInput>, b: Seq<TransactionInput>) -> bool {
    &&& a.len() == b.len()
    &&& forall|i: int|
        0 <= i < a.len() ==> {
            &&& (#[trigger] a[i]).previous_outpoint == b[i].previous_outpoint
            &&& a[i].sequence == b[i].sequence
            &&& a[i].sig_op_count == b[i].sig_op_count
            &&& a[i].utxo == b[i].utxo
        }
}

/// Changing only signature scripts leaves the bytes that signatures commit to
/// as they were.
pub proof fn lemma_scripts_not_committed(a: Transaction, b: Transaction)
    requires
        same_but_scripts(a.inputs@, b.inputs@),
        a.outputs == b.outputs,
        a.version == b.version,
        a.lock_time == b.lock_time,
        a.subnetwork_id == b.subnetwork_id,
        a.gas == b.gas,
        a.payload == b.payload,
    ensures
        transaction_bytes(a) == transaction_bytes(b),
        forall|i: int, t: SighashType|
            0 <= i < a.inputs@.len() ==> #[trigger] sighash_preimage(a, i, t) == sighash_preimage(b, i, t),
{
    lemma_inputs_bytes_ignore_scripts(a.inputs@, b.inputs@);
}

proof fn lemma_inputs_bytes_ignore_scripts(a: Seq<TransactionInput>, b: Seq<TransactionInput>)
    requires
        same_but_scripts(a, b),
    ensures
        crate::encode::inputs_bytes(a) == crate::encode::inputs_bytes(b),
    decreases a.len(),
{
    if a.len() > 0 {
        assert(same_but_scripts(a.drop_last(), b.drop_last()));
        lemma_inputs_bytes_ignore_scripts(a.drop_last(), b.drop_last());
    }
}

/// Installing a signature script on one input leaves the signature of every
/// input as it was: recomputing it over the signed transaction gives the
/// same bytes as before.
pub proof fn lemma_signature_stable(
    before: PendingTransaction,
    after: PendingTransaction,
    signed: int,
    script: Seq<u8>,
    index: int,
    secret: Seq<u8>,
    t: SighashType,
)
    requires
        after.signed_input(before, signed, script),
        0 <= index < before.transaction.inputs@.len(),
    ensures
        signature_script(after.transaction, index, secret, t) == signature_script(
            before.transaction,
            index,
            secret,
            t,
        ),
{
    lemma_scripts_not_committed(after.transaction, before.transaction);
    assert(sighash_preimage(after.transaction, index, t) == sighash_preimage(
        before.transaction,
        index,
        t,
    ));
}

/// A transaction that awaits its signatures, with the amounts, fee and mass
/// that were computed for it.
#[derive(Clone, Debug)]
pub struct PendingTransaction {
    pub transaction: Transaction,
    /// What the transaction pays out, or `None` for a sweep or a batch.
    pub payment_amount: Option<u64>,
    pub change_amount: u64,
    pub fee_amount: u64,
    pub mass: u64,
    pub minimum_signatures: u16,
    pub aggregate_input_amount: u64,
    pub aggregate_output_amount: u64,
    /// An intermediate transaction that only gathers inputs for the next one.
    pub is_batch: bool,
}

impl PendingTransaction {
    /// Its inputs spend exactly what it holds, the outputs and the fee.
    pub open spec fn balanced(&self) -> bool {
        &&& self.aggregate_input_amount == crate::tx::entries_total(
            spent_entries(self.transaction.inputs@),
        )
        &&& self.aggregate_output_amount == crate::tx::outputs_total(self.transaction.outputs@)
        &&& self.aggregate_input_amount == self.aggregate_output_amount + self.fee_amount
        &&& crate::mass::inputs_resolved(self.transaction.inputs@)
    }

    /// The id of the transaction: the hash of its bytes without signature
    /// scripts.
    pub fn id(&self) -> (r: [u8; 32])
        ensures
            r@ == transaction_id_hash(transaction_bytes(self.transaction)),
    {
        hash_transaction_id(&encode_transaction(&self.transaction))
    }

    /// `batch` for an intermediate transaction, `final` for the last one.
    pub fn transaction_type(&self) -> (r: String)
        ensures
            r@ == if self.is_batch {
                "batch"@
            } else {
                "final"@
            },
    {
        if self.is_batch {
            String::from_str("batch")
        } else {
            String::from_str("final")
        }
    }

    /// The unspent outputs that the inputs spend, in input order.
    pub fn utxo_entries(&self) -> (r: Vec<UtxoEntry>)
        ensures
            r@.len() <= self.transaction.inputs@.len(),
            crate::mass::inputs_resolved(self.transaction.inputs@) ==> r@.len()
                == self.transaction.inputs@.len() && forall|i: int|
                0 <= i < r@.len() ==> (#[trigger] r@[i]).same_as(
                    self.transaction.inputs@[i].utxo->0,
                ),
    {
        let mut r: Vec<UtxoEntry> = Vec::new();
        let mut i: usize = 0;
        while i < self.transaction.inputs.len()
            invariant
                i <= self.transaction.inputs@.len(),
                r@.len() <= i,
                crate::mass::inputs_resolved(self.transaction.inputs@) ==> r@.len() == i
                    && forall|k: int|
                    0 <= k < r@.len() ==> (#[trigger] r@[k]).same_as(
                        self.transaction.inputs@[k].utxo->0,
                    ),
            decreases self.transaction.inputs.len() - i,
        {
            match &self.transaction.inputs[i].utxo {
                Some(u) => r.push(u.duplicate()),
                None => {},
            }
            i += 1;
        }
        r
    }

    /// The digest that the signature of input `input_index` signs.
    pub fn signature_hash(&self, input_index: usize, sighash_type: SighashType) -> (r: Result<
        [u8; 32],
        Error,
    >)
        ensures
            input_index >= self.transaction.inputs@.len() ==> r == Err::<[u8; 32], Error>(
                Error::InputIndexOutOfRange,
            ),
            input_index < self.transaction.inputs@.len()
                && self.transaction.inputs@[input_index as int].utxo is None ==> r == Err::<
                [u8; 32],
                Error,
            >(Error::MissingUtxoEntry),
            input_index < self.transaction.inputs@.len()
                && self.transaction.inputs@[input_index as int].utxo is Some ==> (r matches Ok(d)
                && d@ == signing_hash(
                sighash_preimage(self.transaction, input_index as int, sighash_type),
            )),
    {
        if input_index >= self.transaction.inputs.len() {
            return Err(Error::InputIndexOutOfRange);
        }
        let u = match &self.transaction.inputs[input_index].utxo {
            Some(u) => u,
            None => {
                return Err(Error::MissingUtxoEntry);
            },
        };
        let mut pre = encode_transaction(&self.transaction);
        push_le(&mut pre, input_index as u64, 8);
        pre.push(sighash_type.to_u8());
        push_le(&mut pre, u.amount, 8);
        push_script(&mut pre, &u.script_public_key);
        assert(pre@ =~= sighash_preimage(self.transaction, input_index as int, sighash_type));
        Ok(hash_for_signing(&pre))
    }

    /// The signature script for input `input_index` under `secret_key`,
    /// computed without changing the transaction. The copy of the key made
    /// here is wiped before returning.
    pub fn create_input_signature(
        &self,
        input_index: usize,
        secret_key: &[u8; 32],
        sighash_type: SighashType,
    ) -> (r: Result<Vec<u8>, Error>)
        ensures
            input_index >= self.transaction.inputs@.len() ==> r == Err::<Vec<u8>, Error>(
                Error::InputIndexOutOfRange,
            ),
            input_index < self.transaction.inputs@.len()
                && self.transaction.inputs@[input_index as int].utxo is None ==> r == Err::<
                Vec<u8>,
                Error,
            >(Error::MissingUtxoEntry),
            input_index < self.transaction.inputs@.len()
                && self.transaction.inputs@[input_index as int].utxo is Some ==> if keypair_accepts(
                secret_key@,
            ) {
                (r matches Ok(s) && s@ == signature_script(
                    self.transaction,
                    input_index as int,
                    secret_key@,
                    sighash_type,
                ) && s@.len() == 66 && s@[0] == 65 && s@[65] == sighash_type.byte())
            } else {
                r == Err::<Vec<u8>, Error>(Error::InvalidSecretKey)
            },
    {
        let digest = match self.signature_hash(input_index, sighash_type) {
            Ok(d) => d,
            Err(e) => {
                return Err(e);
            },
        };
        let mut key = *secret_key;
        let signed = sign_schnorr(&digest, &key);
        wipe(&mut key);
        match signed {
            Some(sig) => {
                let mut script: Vec<u8> = Vec::new();
                script.push(65u8);
                assert(sig@.len() == 64);
                crate::encode::push_slice(&mut script, sig.as_slice());
                script.push(sighash_type.to_u8());
                assert(script@ =~= signature_script(
                    self.transaction,
                    input_index as int,
                    secret_key@,
                    sighash_type,
                ));
                Ok(script)
            },
            None => Err(Error::InvalidSecretKey),
        }
    }

    /// Installs a signature script that was put together elsewhere, for
    /// example for a multi-signature spend.
    pub fn fill_input(&mut self, input_index: usize, signature_script: Vec<u8>) -> (r: Result<
        (),
        Error,
    >)
        ensures
            input_index >= old(self).transaction.inputs@.len() ==> r == Err::<(), Error>(
                Error::InputIndexOutOfRange,
            ),
            input_index < old(self).transaction.inputs@.len()
                && old(self).transaction.inputs@[input_index as int].signature_script@.len() > 0
                ==> r == Err::<(), Error>(Error::AlreadySigned),
            input_index < old(self).transaction.inputs@.len()
                && old(self).transaction.inputs@[input_index as int].signature_script@.len() == 0
                ==> r is Ok,
            r is Err ==> *final(self) == *old(self),
            r is Ok ==> final(self).signed_input(*old(self), input_index as int, signature_script@),
    {
        if input_index >= self.transaction.inputs.len() {
            return Err(Error::InputIndexOutOfRange);
        }
        if self.transaction.inputs[input_index].signature_script.len() > 0 {
            return Err(Error::AlreadySigned);
        }
        self.set_script(input_index, signature_script);
        Ok(())
    }

    /// `self` is `old` with the signature script of input `index` set to
    /// `script`, and nothing else changed.
    pub open spec fn signed_input(self, old: PendingTransaction, index: int, script: Seq<u8>) -> bool {
        &&& 0 <= index < old.transaction.inputs@.len()
        &&& self.transaction.inputs@.len() == old.transaction.inputs@.len()
        &&& self.transaction.inputs@[index].signature_script@ == script
        &&& forall|k: int|
            0 <= k < old.transaction.inputs@.len() && k != index ==> #[trigger] self.transaction.inputs@[k]
                == old.transaction.inputs@[k]
        &&& same_but_scripts(self.transaction.inputs@, old.transaction.inputs@)
        &&& self == (PendingTransaction {
            transaction: Transaction { inputs: self.transaction.inputs, ..old.transaction },
            ..old
        })
    }

    fn set_script(&mut self, index: usize, script: Vec<u8>)
        requires
            index < old(self).transaction.inputs@.len(),
        ensures
            final(self).signed_input(*old(self), index as int, script@),
    {
        let ghost script_view = script@;
        self.transaction.inputs[index].signature_script = script;
        assert(self.transaction.inputs@[index as int].signature_script@ == script_view);
    }

    /// Computes the signature script of input `input_index` under
    /// `secret_key` and installs it. The copy of the key made here is wiped
    /// before returning.
    pub fn sign_input(&mut self, input_index: usize, secret_key: &[u8; 32], sighash_type: SighashType) -> (r:
        Result<(), Error>)
        ensures
            input_index >= old(self).transaction.inputs@.len() ==> r == Err::<(), Error>(
                Error::InputIndexOutOfRange,
            ),
            input_index < old(self).transaction.inputs@.len() ==> {
                let i = old(self).transaction.inputs@[input_index as int];
                &&& i.signature_script@.len() > 0 ==> r == Err::<(), Error>(Error::AlreadySigned)
                &&& i.signature_script@.len() == 0 && i.utxo is None ==> r == Err::<(), Error>(
                    Error::MissingUtxoEntry,
                )
                &&& i.signature_script@.len() == 0 && i.utxo is Some && !keypair_accepts(secret_key@)
                    ==> r == Err::<(), Error>(Error::InvalidSecretKey)
                &&& i.signature_script@.len() == 0 && i.utxo is Some && keypair_accepts(secret_key@)
                    ==> r is Ok
            },
            r is Err ==> *final(self) == *old(self),
            r is Ok ==> final(self).signed_input(
                *old(self),
                input_index as int,
                signature_script(old(self).transaction, input_index as int, secret_key@, sighash_type),
            ),
            r is Ok ==> final(self).transaction.inputs@[input_index as int].signature_script@.len()
                == 66,
    {
        if input_index >= self.transaction.inputs.len() {
            return Err(Error::InputIndexOutOfRange);
        }
        if self.transaction.inputs[input_index].signature_script.len() > 0 {
            return Err(Error::AlreadySigned);
        }
        let script = match self.create_input_signature(input_index, secret_key, sighash_type) {
            Ok(s) => s,
            Err(e) => {
                return Err(e);
            },
        };
        self.set_script(input_index, script);
        Ok(())
    }

    /// Signs every input that has no signature yet and whose locking script
    /// pays to one of `secret_keys`, with the first such key. Inputs that no
    /// key unlocks are left as they were: a partial signing is allowed, unless
    /// `check_fully_signed` asks that every input end up signed, in which
    /// case `NotFullySigned` reports one that did not.
    pub fn sign(&mut self, secret_keys: &Vec<[u8; 32]>, check_fully_signed: bool) -> (r: Result<
        (),
        Error,
    >)
        ensures
            same_but_scripts(final(self).transaction.inputs@, old(self).transaction.inputs@),
            *final(self) == (PendingTransaction {
                transaction: Transaction {
                    inputs: final(self).transaction.inputs,
                    ..old(self).transaction
                },
                ..*old(self)
            }),
            forall|i: int|
                0 <= i < old(self).transaction.inputs@.len() ==> #[trigger] final(self).transaction.inputs@[i].signature_script@ == script_after_signing(
                    old(self).transaction,
                    secret_keys@,
                    i,
                ),
            r == if check_fully_signed && exists|i: int|
                0 <= i < final(self).transaction.inputs@.len()
                    && #[trigger] final(self).transaction.inputs@[i].signature_script@.len() == 0 {
                Err::<(), Error>(Error::NotFullySigned)
            } else {
                Ok::<(), Error>(())
            },
    {
        let n = self.transaction.inputs.len();
        let mut i: usize = 0;
        while i < n
            invariant
                n == old(self).transaction.inputs@.len(),
                i <= n,
                same_but_scripts(self.transaction.inputs@, old(self).transaction.inputs@),
                *self == (PendingTransaction {
                    transaction: Transaction {
                        inputs: self.transaction.inputs,
                        ..old(self).transaction
                    },
                    ..*old(self)
                }),
                forall|k: int|
                    0 <= k < i ==> #[trigger] self.transaction.inputs@[k].signature_script@
                        == script_after_signing(old(self).transaction, secret_keys@, k),
                forall|k: int|
                    i <= k < n ==> #[trigger] self.transaction.inputs@[k]
                        == old(self).transaction.inputs@[k],
            decreases n - i,
        {
            proof {
                lemma_scripts_not_committed(self.transaction, old(self).transaction);
            }
            let unsigned = self.transaction.inputs[i].signature_script.len() == 0;
            let found = match &self.transaction.inputs[i].utxo {
                Some(u) => key_for(secret_keys, &u.script_public_key),
                None => None,
            };
            if unsigned {
                match found {
                    Some(j) => {
                        proof {
                            lemma_first_key_valid(
                                secret_keys@,
                                self.transaction.inputs@[i as int].utxo->0.script_public_key,
                            );
                        }
                        let ghost before = *self;
                        let signed = self.sign_input(i, &secret_keys[j], SighashType::All);
                        assert(signed is Ok);
                        assert(sighash_preimage(before.transaction, i as int, SighashType::All)
                            == sighash_preimage(old(self).transaction, i as int, SighashType::All));
                    },
                    None => {},
                }
            }
            i += 1;
        }
        if check_fully_signed && self.has_unsigned_input() {
            return Err(Error::NotFullySigned);
        }
        Ok(())
    }

    /// Whether some input has no signature script yet.
    pub fn has_unsigned_input(&self) -> (r: bool)
        ensures
            r == exists|i: int|
                0 <= i < self.transaction.inputs@.len()
                    && #[trigger] self.transaction.inputs@[i].signature_script@.len() == 0,
    {
        let n = self.transaction.inputs.len();
        let mut k: usize = 0;
        while k < n
            invariant
                n == self.transaction.inputs@.len(),
                k <= n,
                forall|m: int|
                    0 <= m < k ==> #[trigger] self.transaction.inputs@[m].signature_script@.len() != 0,
            decreases n - k,
        {
            if self.transaction.inputs[k].signature_script.len() == 0 {
                return true;
            }
            k += 1;
        }
        false
    }

    /// Whether the signature script of input `input_index` verifies, as
    /// `input_signature_verifies` states it.
    pub fn verify_input(&self, input_index: usize) -> (r: Result<bool, Error>)
        ensures
            input_index >= self.transaction.inputs@.len() ==> r == Err::<bool, Error>(
                Error::InputIndexOutOfRange,
            ),
            input_index < self.transaction.inputs@.len()
                && self.transaction.inputs@[input_index as int].utxo is None ==> r == Err::<
                bool,
                Error,
            >(Error::MissingUtxoEntry),
            input_index < self.transaction.inputs@.len()
                && self.transaction.inputs@[input_index as int].utxo is Some ==> r == Ok::<
                bool,
                Error,
            >(input_signature_verifies(self.transaction, input_index as int)),
    {
        if input_index >= self.transaction.inputs.len() {
            return Err(Error::InputIndexOutOfRange);
        }
        let inp = &self.transaction.inputs[input_index];
        let spk = match &inp.utxo {
            Some(u) => &u.script_public_key,
            None => {
                return Err(Error::MissingUtxoEntry);
            },
        };
        let s = &inp.signature_script;
        if s.len() != 66 || s[0] != 65 || spk.version != 0 || spk.script.len() != 34
            || spk.script[0] != 0x20 || spk.script[33] != 0xac {
            return Ok(false);
        }
        let t = match SighashType::from_u8(s[65]) {
            Some(t) => t,
            None => {
                return Ok(false);
            },
        };
        let digest = match self.signature_hash(input_index, t) {
            Ok(d) => d,
            Err(e) => {
                return Err(e);
            },
        };
        let sig = sub_bytes(s, 1, 65);
        let key = sub_bytes(&spk.script, 1, 33);
        Ok(verify_schnorr(sig.as_slice(), &digest, key.as_slice()))
    }
}

/// `tx` signed with `secret_keys` as `PendingTransaction::sign` signs:
/// each unsigned input that one of the keys unlocks gets a signature under
/// the first such key; the rest is left as it was, so the result may be
/// partially signed. With `verify_sig`, every input must then verify, or the
/// result is `InvalidSignature`.
pub fn sign_transaction(tx: Transaction, secret_keys: &Vec<[u8; 32]>, verify_sig: bool) -> (r: Result<
    Transaction,
    Error,
>)
    ensures
        r matches Ok(t) ==> {
            &&& same_but_scripts(t.inputs@, tx.inputs@)
            &&& t == (Transaction { inputs: t.inputs, ..tx })
            &&& forall|i: int|
                0 <= i < tx.inputs@.len() ==> #[trigger] t.inputs@[i].signature_script@
                    == script_after_signing(tx, secret_keys@, i)
            &&& verify_sig ==> forall|i: int|
                0 <= i < t.inputs@.len() ==> input_signature_verifies(t, i)
        },
        !verify_sig ==> r is Ok,
        verify_sig ==> (r is Ok <==> forall|i: int|
            0 <= i < tx.inputs@.len() ==> #[trigger] script_verifies(
                tx,
                i,
                script_after_signing(tx, secret_keys@, i),
            )),
        r is Err ==> r == Err::<Transaction, Error>(Error::InvalidSignature),
{
    let mut p = PendingTransaction {
        transaction: tx,
        payment_amount: None,
        change_amount: 0,
        fee_amount: 0,
        mass: 0,
        minimum_signatures: 1,
        aggregate_input_amount: 0,
        aggregate_output_amount: 0,
        is_batch: false,
    };
    let ghost original = p;
    let _ = p.sign(secret_keys, false);
    let ghost after = p;
    proof {
        lemma_scripts_not_committed(after.transaction, tx);
        assert forall|k: int| 0 <= k < tx.inputs@.len() implies #[trigger] input_signature_verifies(
            after.transaction,
            k,
        ) == script_verifies(tx, k, script_after_signing(tx, secret_keys@, k)) by {
            assert(sighash_preimage(after.transaction, k, SighashType::All) == sighash_preimage(
                tx,
                k,
                SighashType::All,
            ));
            let s = after.transaction.inputs@[k].signature_script@;
            if s.len() == 66 {
                match SighashType::of_byte(s[65]) {
                    Some(t) => {
                        assert(sighash_preimage(after.transaction, k, t) == sighash_preimage(tx, k, t));
                    },
                    None => {},
                }
            }
        }
    }
    if verify_sig {
        let mut i: usize = 0;
        while i < p.transaction.inputs.len()
            invariant
                verify_sig,
                p == after,
                i <= p.transaction.inputs@.len(),
                p.transaction.inputs@.len() == tx.inputs@.len(),
                forall|k: int| 0 <= k < i ==> input_signature_verifies(p.transaction, k),
                forall|k: int|
                    0 <= k < tx.inputs@.len() ==> #[trigger] input_signature_verifies(
                        after.transaction,
                        k,
                    ) == script_verifies(tx, k, script_after_signing(tx, secret_keys@, k)),
            decreases p.transaction.inputs.len() - i,
        {
            match p.verify_input(i) {
                Ok(true) => {},
                _ => {
                    assert(!input_signature_verifies(p.transaction, i as int));
                    assert(!script_verifies(
                        tx,
                        i as int,
                        script_after_signing(tx, secret_keys@, i as int),
                    ));
                    return Err(Error::InvalidSignature);
                },
            }
            i += 1;
        }
    }
    proof {
        if verify_sig {
            assert forall|k: int| 0 <= k < tx.inputs@.len() implies #[trigger] script_verifies(
                tx,
                k,
                script_after_signing(tx, secret_keys@, k),
            ) by {
                assert(input_signature_verifies(after.transaction, k));
            }
        }
    }
    Ok(p.transaction)
}

/// The signature script of a 32-byte hash under a secret key: a push of 65
/// bytes, the signature, and the type that commits to everything.
pub fn sign_hash(hash: &[u8; 32], secret_key: &[u8; 32]) -> (r: Result<Vec<u8>, Error>)
    ensures
        keypair_accepts(secret_key@) ==> (r matches Ok(s) && s@ == seq![65u8] + schnorr_signature(
            hash@,
            secret_key@,
        ) + seq![SighashType::All.byte()] && s@.len() == 66),
        !keypair_accepts(secret_key@) ==> r == Err::<Vec<u8>, Error>(Error::InvalidSecretKey),
{
    let mut key = *secret_key;
    let signed = sign_schnorr(hash, &key);
    wipe(&mut key);
    match signed {
        Some(sig) => {
            let mut script: Vec<u8> = Vec::new();
            script.push(65u8);
            assert(sig@.len() == 64);
            crate::encode::push_slice(&mut script, sig.as_slice());
            script.push(SighashType::All.to_u8());
            assert(script@ =~= seq![65u8] + schnorr_signature(hash@, secret_key@) + seq![
                SighashType::All.byte(),
            ]);
            Ok(script)
        },
        None => Err(Error::InvalidSecretKey),
    }
}

} // verus!
