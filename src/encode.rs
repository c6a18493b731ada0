//! The byte layout of a transaction that its id and its signature hashes
//! commit to.

use vstd::prelude::*;
use crate::tx::{ScriptPublicKey, Transaction, TransactionInput, TransactionOutpoint, TransactionOutput};

verus! {

/// The `n` low bytes of `x`, least significant first.
pub open spec fn le_bytes(x: nat, n: nat) -> Seq<u8>
    decreases n,
{
    if n == 0 {
        Seq::empty()
    } else {
        seq![(x % 256) as u8] + le_bytes(x / 256, (n - 1) as nat)
    }
}

pub open spec fn outpoint_bytes(o: TransactionOutpoint) -> Seq<u8> {
    o.transaction_id@ + le_bytes(o.index as nat, 4)
}

/// An input without its signature script.
pub open spec fn input_bytes(i: TransactionInput) -> Seq<u8> {
    outpoint_bytes(i.previous_outpoint) + le_bytes(i.sequence as nat, 8) + seq![i.sig_op_count]
}

pub open spec fn script_bytes(s: ScriptPublicKey) -> Seq<u8> {
    le_bytes(s.version as nat, 2) + le_bytes(s.script@.len(), 8) + s.script@
}

pub open spec fn output_bytes(o: TransactionOutput) -> Seq<u8> {
    le_bytes(o.value as nat, 8) + script_bytes(o.script_public_key)
}

pub open spec fn inputs_bytes(s: Seq<TransactionInput>) -> Seq<u8>
    decreases s.len(),
{
    if s.len() == 0 {
        Seq::empty()
    } else {
        inputs_bytes(s.drop_last()) + input_bytes(s.last())
    }
}

pub open spec fn outputs_bytes(s: Seq<TransactionOutput>) -> Seq<u8>
    decreases s.len(),
{
    if s.len() == 0 {
        Seq::empty()
    } else {
        outputs_bytes(s.drop_last()) + output_bytes(s.last())
    }
}

/// A transaction without its signature scripts and its mass.
pub open spec fn transaction_bytes(tx: Transaction) -> Seq<u8> {
    le_bytes(tx.version as nat, 2) + le_bytes(tx.inputs@.len(), 8) + inputs_bytes(tx.inputs@)
        + le_bytes(tx.outputs@.len(), 8) + outputs_bytes(tx.outputs@) + le_bytes(
        tx.lock_time as nat,
        8,
    ) + tx.subnetwork_id@ + le_bytes(tx.gas as nat, 8) + le_bytes(tx.payload@.len(), 8)
        + tx.payload@
}

/// Appends the `n` low bytes of `x`, least significant first.
pub fn push_le(out: &mut Vec<u8>, x: u64, n: usize)
    ensures
        final(out)@ == old(out)@ + le_bytes(x as nat, n as nat),
{
    let mut v = x;
    let mut k: usize = 0;
    while k < n
        invariant
            k <= n,
            out@ + le_bytes(v as nat, (n - k) as nat) == old(out)@ + le_bytes(x as nat, n as nat),
        decreases n - k,
    {
        let ghost before = out@;
        let ghost vb = v;
        assert(le_bytes(vb as nat, (n - k) as nat) == seq![(vb % 256) as u8] + le_bytes(
            (vb / 256) as nat,
            (n - k - 1) as nat,
        ));
        out.push((v % 256) as u8);
        v = v / 256;
        k += 1;
        assert(out@ + le_bytes(v as nat, (n - k) as nat) =~= before + le_bytes(
            vb as nat,
            (n - k + 1) as nat,
        ));
    }
}

/// Appends the bytes of `src`.
pub fn push_slice(out: &mut Vec<u8>, src: &[u8])
    ensures
        final(out)@ == old(out)@ + src@,
{
    let mut i: usize = 0;
    while i < src.len()
        invariant
            i <= src@.len(),
            out@ == old(out)@ + src@.subrange(0, i as int),
        decreases src.len() - i,
    {
        out.push(src[i]);
        i += 1;
        assert(out@ =~= old(out)@ + src@.subrange(0, i as int));
    }
    assert(src@.subrange(0, i as int) =~= src@);
}

pub fn push_input(out: &mut Vec<u8>, i: &TransactionInput)
    ensures
        final(out)@ == old(out)@ + input_bytes(*i),
{
    push_slice(out, i.previous_outpoint.transaction_id.as_slice());
    push_le(out, i.previous_outpoint.index as u64, 4);
    push_le(out, i.sequence, 8);
    out.push(i.sig_op_count);
    assert(out@ =~= old(out)@ + input_bytes(*i));
}

pub fn push_script(out: &mut Vec<u8>, s: &ScriptPublicKey)
    ensures
        final(out)@ == old(out)@ + script_bytes(*s),
{
    push_le(out, s.version as u64, 2);
    push_le(out, s.script.len() as u64, 8);
    push_slice(out, s.script.as_slice());
    assert(out@ =~= old(out)@ + script_bytes(*s));
}

pub fn push_output(out: &mut Vec<u8>, o: &TransactionOutput)
    ensures
        final(out)@ == old(out)@ + output_bytes(*o),
{
    push_le(out, o.value, 8);
    push_script(out, &o.script_public_key);
    assert(out@ =~= old(out)@ + output_bytes(*o));
}

/// The bytes of a transaction without its signature scripts and its mass.
pub fn encode_transaction(tx: &Transaction) -> (r: Vec<u8>)
    ensures
        r@ == transaction_bytes(*tx),
{
    let mut out: Vec<u8> = Vec::new();
    push_le(&mut out, tx.version as u64, 2);
    push_le(&mut out, tx.inputs.len() as u64, 8);
    let ghost head = out@;
    let mut i: usize = 0;
    while i < tx.inputs.len()
        invariant
            i <= tx.inputs@.len(),
            out@ == head + inputs_bytes(tx.inputs@.subrange(0, i as int)),
        decreases tx.inputs.len() - i,
    {
        assert(tx.inputs@.subrange(0, i + 1).drop_last() =~= tx.inputs@.subrange(0, i as int));
        push_input(&mut out, &tx.inputs[i]);
        i += 1;
        assert(out@ =~= head + inputs_bytes(tx.inputs@.subrange(0, i as int)));
    }
    assert(tx.inputs@.subrange(0, i as int) =~= tx.inputs@);
    push_le(&mut out, tx.outputs.len() as u64, 8);
    let ghost mid = out@;
    let mut j: usize = 0;
    while j < tx.outputs.len()
        invariant
            j <= tx.outputs@.len(),
            out@ == mid + outputs_bytes(tx.outputs@.subrange(0, j as int)),
        decreases tx.outputs.len() - j,
    {
        assert(tx.outputs@.subrange(0, j + 1).drop_last() =~= tx.outputs@.subrange(0, j as int));
        push_output(&mut out, &tx.outputs[j]);
        j += 1;
        assert(out@ =~= mid + outputs_bytes(tx.outputs@.subrange(0, j as int)));
    }
    assert(tx.outputs@.subrange(0, j as int) =~= tx.outputs@);
    push_le(&mut out, tx.lock_time, 8);
    push_slice(&mut out, tx.subnetwork_id.as_slice());
    push_le(&mut out, tx.gas, 8);
    push_le(&mut out, tx.payload.len() as u64, 8);
    push_slice(&mut out, tx.payload.as_slice());
    assert(out@ =~= transaction_bytes(*tx));
    out
}

} // verus!
