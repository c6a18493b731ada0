//! The mass of a transaction: a weight that combines its serialized size,
//! its signature operations, and its effect on the set of unspent outputs.
//! Every constant that the network decides is a field of `MassParams`.

use vstd::prelude::*;
use crate::error::Error;
use crate::tx::{Transaction, TransactionInput, TransactionOutput};

verus! {

/// Bytes of a transaction without inputs, outputs or payload.
pub const BLANK_TRANSACTION_SIZE: u64 = 94;

/// Bytes of an input without its signature script.
pub const INPUT_BASE_SIZE: u64 = 53;

/// Bytes that one Schnorr signature adds to a signature script.
pub const SIGNATURE_SIZE: u64 = 66;

/// Bytes of an output without its locking script.
pub const OUTPUT_BASE_SIZE: u64 = 18;

/// The network parameters that mass and fees are computed from.
#[derive(Clone, Copy, Debug)]
pub struct MassParams {
    pub mass_per_tx_byte: u64,
    pub mass_per_script_pub_key_byte: u64,
    pub mass_per_sig_op: u64,
    pub storage_mass_parameter: u64,
    /// Fee, in the smallest unit, for each unit of mass.
    pub fee_per_mass: u64,
    pub maximum_standard_mass: u64,
    /// Change below this amount is left to the fee instead of paid out.
    pub minimum_change: u64,
}

impl MassParams {
    /// The fee of any mass up to the limit fits in 64 bits.
    pub open spec fn wf(&self) -> bool {
        self.maximum_standard_mass * self.fee_per_mass <= u64::MAX
    }
}

pub open spec fn input_mass_of(p: MassParams, script_len: int, sig_op_count: int) -> int {
    (INPUT_BASE_SIZE + script_len) * p.mass_per_tx_byte + sig_op_count * p.mass_per_sig_op
}

/// The mass of an input before it is signed, counting `minimum_signatures`
/// signatures in its script.
pub open spec fn unsigned_input_mass(p: MassParams, sig_op_count: int, minimum_signatures: int) -> int {
    input_mass_of(p, SIGNATURE_SIZE * minimum_signatures, sig_op_count)
}

pub open spec fn output_mass_of(p: MassParams, script_len: int) -> int {
    (OUTPUT_BASE_SIZE + script_len) * p.mass_per_tx_byte + (2 + script_len)
        * p.mass_per_script_pub_key_byte
}

pub open spec fn base_mass(p: MassParams, payload_len: int) -> int {
    (BLANK_TRANSACTION_SIZE + payload_len) * p.mass_per_tx_byte
}

pub open spec fn inputs_mass(p: MassParams, s: Seq<TransactionInput>, minimum_signatures: Option<int>) -> int
    decreases s.len(),
{
    if s.len() == 0 {
        0
    } else {
        let i = s.last();
        inputs_mass(p, s.drop_last(), minimum_signatures) + match minimum_signatures {
            Some(m) => unsigned_input_mass(p, i.sig_op_count as int, m),
            None => input_mass_of(p, i.signature_script@.len() as int, i.sig_op_count as int),
        }
    }
}

pub open spec fn outputs_mass(p: MassParams, s: Seq<TransactionOutput>) -> int
    decreases s.len(),
{
    if s.len() == 0 {
        0
    } else {
        outputs_mass(p, s.drop_last()) + output_mass_of(
            p,
            s.last().script_public_key.script@.len() as int,
        )
    }
}

/// The compute mass of a transaction: its size and its signature operations.
/// With `Some(m)`, each input counts `m` signatures in place of its script.
pub open spec fn compute_mass(p: MassParams, tx: Transaction, minimum_signatures: Option<int>) -> int {
    base_mass(p, tx.payload@.len() as int) + inputs_mass(p, tx.inputs@, minimum_signatures)
        + outputs_mass(p, tx.outputs@)
}

/// The fee that a mass asks for.
pub open spec fn fee_for_mass(p: MassParams, mass: int) -> int {
    mass * p.fee_per_mass
}

/// `a + b`, or `None` when it does not fit in 64 bits.
pub fn add_mass(a: Option<u64>, b: Option<u64>) -> (r: Option<u64>)
    ensures
        r == match (a, b) {
            (Some(x), Some(y)) => if x + y <= u64::MAX {
                Some((x + y) as u64)
            } else {
                None
            },
            _ => None,
        },
{
    match (a, b) {
        (Some(x), Some(y)) => x.checked_add(y),
        _ => None,
    }
}

/// `a * b`, or `None` when it does not fit in 64 bits.
pub fn mul_mass(a: u64, b: u64) -> (r: Option<u64>)
    ensures
        r == if a * b <= u64::MAX {
            Some((a * b) as u64)
        } else {
            None::<u64>
        },
{
    a.checked_mul(b)
}

/// `x` if it fits in 64 bits.
fn narrow(x: Option<u128>) -> (r: Option<u64>)
    ensures
        r == match x {
            Some(v) => if v <= u64::MAX {
                Some(v as u64)
            } else {
                None
            },
            None => None::<u64>,
        },
{
    match x {
        Some(v) => if v <= u64::MAX as u128 {
            Some(v as u64)
        } else {
            None
        },
        None => None,
    }
}

/// The mass of one input, or `None` when it does not fit in 64 bits.
pub fn input_mass(p: &MassParams, script_len: u64, sig_op_count: u8) -> (r: Option<u64>)
    ensures
        r == if input_mass_of(*p, script_len as int, sig_op_count as int) <= u64::MAX {
            Some(input_mass_of(*p, script_len as int, sig_op_count as int) as u64)
        } else {
            None::<u64>
        },
{
    let size = INPUT_BASE_SIZE as u128 + script_len as u128;
    assert(sig_op_count as int * p.mass_per_sig_op as int <= 255 * u64::MAX) by (nonlinear_arith)
        requires
            sig_op_count < 256,
            p.mass_per_sig_op <= u64::MAX,
    ;
    let ops = sig_op_count as u128 * p.mass_per_sig_op as u128;
    assert(0 <= size * p.mass_per_tx_byte) by (nonlinear_arith)
        requires
            size >= 0,
    ;
    let total = match size.checked_mul(p.mass_per_tx_byte as u128) {
        Some(b) => b.checked_add(ops),
        None => None,
    };
    narrow(total)
}

/// The mass of one output, or `None` when it does not fit in 64 bits.
pub fn output_mass(p: &MassParams, script_len: u64) -> (r: Option<u64>)
    ensures
        r == if output_mass_of(*p, script_len as int) <= u64::MAX {
            Some(output_mass_of(*p, script_len as int) as u64)
        } else {
            None::<u64>
        },
{
    let size = OUTPUT_BASE_SIZE as u128 + script_len as u128;
    let spk = 2u128 + script_len as u128;
    assert(0 <= size * p.mass_per_tx_byte) by (nonlinear_arith)
        requires
            size >= 0,
    ;
    assert(0 <= spk * p.mass_per_script_pub_key_byte) by (nonlinear_arith)
        requires
            spk >= 0,
    ;
    let total = match (
        size.checked_mul(p.mass_per_tx_byte as u128),
        spk.checked_mul(p.mass_per_script_pub_key_byte as u128),
    ) {
        (Some(a), Some(b)) => a.checked_add(b),
        _ => None,
    };
    narrow(total)
}

/// `C / o` summed over the outputs, each step saturating at the largest
/// 64-bit value.
pub open spec fn harmonic_outputs(outs: Seq<u64>, c: int) -> int
    decreases outs.len(),
{
    if outs.len() == 0 {
        0
    } else {
        let t = harmonic_outputs(outs.drop_last(), c) + c / (outs.last() as int);
        if t > u64::MAX {
            u64::MAX as int
        } else {
            t
        }
    }
}

pub open spec fn values_total(s: Seq<u64>) -> int
    decreases s.len(),
{
    if s.len() == 0 {
        0
    } else {
        values_total(s.drop_last()) + s.last()
    }
}

/// The storage mass of a transaction that spends `ins` and creates `outs`:
/// `C / o` summed over the outputs, less `|I| * (C / mean(I))`, and not below
/// zero. It is not defined where an output is zero or the inputs have no
/// positive mean.
pub open spec fn storage_mass(ins: Seq<u64>, outs: Seq<u64>, c: int) -> Option<int> {
    let mean = if ins.len() > 0 {
        values_total(ins) / (ins.len() as int)
    } else {
        0
    };
    if exists|i: int| 0 <= i < outs.len() && outs[i] == 0 {
        None
    } else if mean == 0 {
        None
    } else {
        let arithmetic = ins.len() * (c / mean);
        let a = if arithmetic > u64::MAX {
            u64::MAX as int
        } else {
            arithmetic
        };
        let h = harmonic_outputs(outs, c);
        Some(if h > a {
            h - a
        } else {
            0
        })
    }
}

/// The storage mass of spending `input_values` to create `output_values`,
/// as `storage_mass` states it.
pub fn calculate_storage_mass(
    params: &MassParams,
    input_values: &Vec<u64>,
    output_values: &Vec<u64>,
) -> (r: Option<u64>)
    ensures
        r matches Some(v) ==> storage_mass(input_values@, output_values@, params.storage_mass_parameter as int)
            == Some(v as int),
        r is None ==> storage_mass(input_values@, output_values@, params.storage_mass_parameter as int) is None,
{
    let c = params.storage_mass_parameter;
    let mut h: u64 = 0;
    let mut i: usize = 0;
    while i < output_values.len()
        invariant
            i <= output_values@.len(),
            h == harmonic_outputs(output_values@.subrange(0, i as int), c as int),
            forall|k: int| 0 <= k < i ==> output_values@[k] != 0,
        decreases output_values.len() - i,
    {
        let o = output_values[i];
        if o == 0 {
            return None;
        }
        assert(output_values@.subrange(0, i + 1).drop_last() =~= output_values@.subrange(0, i as int));
        h = h.saturating_add(c / o);
        i += 1;
    }
    assert(output_values@.subrange(0, i as int) =~= output_values@);
    let n = input_values.len();
    let mut sum: u128 = 0;
    let mut j: usize = 0;
    while j < n
        invariant
            n == input_values@.len(),
            j <= n,
            sum == values_total(input_values@.subrange(0, j as int)),
            sum <= j * (u64::MAX as int),
        decreases n - j,
    {
        assert(input_values@.subrange(0, j + 1).drop_last() =~= input_values@.subrange(0, j as int));
        assert(j * (u64::MAX as int) + u64::MAX == (j + 1) * (u64::MAX as int)) by (nonlinear_arith);
        assert((j + 1) * (u64::MAX as int) <= usize::MAX as int * (u64::MAX as int)) by (nonlinear_arith)
            requires
                j < usize::MAX,
        ;
        sum = sum + input_values[j] as u128;
        j += 1;
    }
    assert(input_values@.subrange(0, j as int) =~= input_values@);
    if n == 0 {
        return None;
    }
    let mean = sum / (n as u128);
    assert(mean <= u64::MAX) by (nonlinear_arith)
        requires
            mean as int == sum as int / (n as int),
            sum <= n * (u64::MAX as int),
            n > 0,
    ;
    if mean == 0 {
        return None;
    }
    let per_input = (c as u128) / mean;
    let arithmetic = (n as u128).checked_mul(per_input);
    let a: u64 = match arithmetic {
        Some(v) => if v <= u64::MAX as u128 {
            v as u64
        } else {
            u64::MAX
        },
        None => u64::MAX,
    };
    Some(h.saturating_sub(a))
}

pub proof fn lemma_input_mass_nonnegative(p: MassParams, script_len: int, sig_op_count: int)
    requires
        script_len >= 0,
        sig_op_count >= 0,
    ensures
        input_mass_of(p, script_len, sig_op_count) >= 0,
{
    assert(0 <= (INPUT_BASE_SIZE + script_len) * p.mass_per_tx_byte) by (nonlinear_arith)
        requires
            script_len >= 0,
    ;
    assert(0 <= sig_op_count * p.mass_per_sig_op) by (nonlinear_arith)
        requires
            sig_op_count >= 0,
    ;
}

pub proof fn lemma_output_mass_nonnegative(p: MassParams, script_len: int)
    requires
        script_len >= 0,
    ensures
        output_mass_of(p, script_len) >= 0,
{
    assert(0 <= (OUTPUT_BASE_SIZE + script_len) * p.mass_per_tx_byte) by (nonlinear_arith)
        requires
            script_len >= 0,
    ;
    assert(0 <= (2 + script_len) * p.mass_per_script_pub_key_byte) by (nonlinear_arith)
        requires
            script_len >= 0,
    ;
}

/// The mass of an input as `inputs_mass` counts it.
pub open spec fn counted_input_mass(p: MassParams, i: TransactionInput, minimum_signatures: Option<int>) -> int {
    match minimum_signatures {
        Some(m) => unsigned_input_mass(p, i.sig_op_count as int, m),
        None => input_mass_of(p, i.signature_script@.len() as int, i.sig_op_count as int),
    }
}

/// Adding an input never lowers the mass of the inputs.
pub proof fn lemma_inputs_mass_grows(
    p: MassParams,
    s: Seq<TransactionInput>,
    x: TransactionInput,
    minimum_signatures: Option<int>,
)
    requires
        minimum_signatures matches Some(m) ==> m >= 0,
    ensures
        inputs_mass(p, s.push(x), minimum_signatures) == inputs_mass(p, s, minimum_signatures)
            + counted_input_mass(p, x, minimum_signatures),
        inputs_mass(p, s.push(x), minimum_signatures) >= inputs_mass(p, s, minimum_signatures),
{
    assert(s.push(x).drop_last() =~= s);
    match minimum_signatures {
        Some(m) => {
            assert(SIGNATURE_SIZE * m >= 0) by (nonlinear_arith)
                requires
                    m >= 0,
            ;
            lemma_input_mass_nonnegative(p, SIGNATURE_SIZE * m, x.sig_op_count as int);
        },
        None => lemma_input_mass_nonnegative(
            p,
            x.signature_script@.len() as int,
            x.sig_op_count as int,
        ),
    }
}

/// Adding an output never lowers the mass of the outputs.
pub proof fn lemma_outputs_mass_grows(p: MassParams, s: Seq<TransactionOutput>, x: TransactionOutput)
    ensures
        outputs_mass(p, s.push(x)) == outputs_mass(p, s) + output_mass_of(
            p,
            x.script_public_key.script@.len() as int,
        ),
        outputs_mass(p, s.push(x)) >= outputs_mass(p, s),
{
    assert(s.push(x).drop_last() =~= s);
    lemma_output_mass_nonnegative(p, x.script_public_key.script@.len() as int);
}

proof fn lemma_inputs_mass_prefix(p: MassParams, s: Seq<TransactionInput>, k: int, ms: Option<int>)
    requires
        0 <= k <= s.len(),
        ms matches Some(m) ==> m >= 0,
    ensures
        inputs_mass(p, s.subrange(0, k), ms) <= inputs_mass(p, s, ms),
    decreases s.len() - k,
{
    if k < s.len() {
        assert(s.subrange(0, k + 1) =~= s.subrange(0, k).push(s[k]));
        lemma_inputs_mass_grows(p, s.subrange(0, k), s[k], ms);
        lemma_inputs_mass_prefix(p, s, k + 1, ms);
    } else {
        assert(s.subrange(0, k) =~= s);
    }
}

proof fn lemma_outputs_mass_prefix(p: MassParams, s: Seq<TransactionOutput>, k: int)
    requires
        0 <= k <= s.len(),
    ensures
        outputs_mass(p, s.subrange(0, k)) <= outputs_mass(p, s),
    decreases s.len() - k,
{
    if k < s.len() {
        assert(s.subrange(0, k + 1) =~= s.subrange(0, k).push(s[k]));
        lemma_outputs_mass_grows(p, s.subrange(0, k), s[k]);
        lemma_outputs_mass_prefix(p, s, k + 1);
    } else {
        assert(s.subrange(0, k) =~= s);
    }
}

/// The compute mass of an unsigned transaction, counting `minimum_signatures`
/// signatures for each input; `MassExceeded` when it does not fit in 64 bits.
pub fn calculate_compute_mass(params: &MassParams, tx: &Transaction, minimum_signatures: u16) -> (r:
    Result<u64, Error>)
    ensures
        r matches Ok(m) ==> m == compute_mass(*params, *tx, Some(minimum_signatures as int)),
        r is Err <==> compute_mass(*params, *tx, Some(minimum_signatures as int)) > u64::MAX,
        r is Err ==> r == Err::<u64, Error>(Error::MassExceeded),
{
    let ghost ms = Some(minimum_signatures as int);
    let p = *params;
    assert(0 <= (BLANK_TRANSACTION_SIZE + tx.payload@.len()) * p.mass_per_tx_byte) by (nonlinear_arith);
    let base = (BLANK_TRANSACTION_SIZE as u128 + tx.payload.len() as u128).checked_mul(
        p.mass_per_tx_byte as u128,
    );
    let mut total: u64 = match narrow(base) {
        Some(b) => b,
        None => {
            proof {
                lemma_inputs_mass_prefix(p, tx.inputs@, 0, ms);
                lemma_outputs_mass_prefix(p, tx.outputs@, 0);
                assert(inputs_mass(p, tx.inputs@.subrange(0, 0), ms) == 0);
                assert(outputs_mass(p, tx.outputs@.subrange(0, 0)) == 0);
            }
            return Err(Error::MassExceeded);
        },
    };
    assert(SIGNATURE_SIZE == 66);
    let script_len: u128 = 66 * (minimum_signatures as u128);
    let mut i: usize = 0;
    while i < tx.inputs.len()
        invariant
            i <= tx.inputs@.len(),
            total == base_mass(p, tx.payload@.len() as int) + inputs_mass(
                p,
                tx.inputs@.subrange(0, i as int),
                ms,
            ),
            script_len == SIGNATURE_SIZE * minimum_signatures,
            ms == Some(minimum_signatures as int),
            p == *params,
        decreases tx.inputs.len() - i,
    {
        assert(tx.inputs@.subrange(0, i + 1) =~= tx.inputs@.subrange(0, i as int).push(tx.inputs@[i as int]));
        proof {
            lemma_inputs_mass_grows(p, tx.inputs@.subrange(0, i as int), tx.inputs@[i as int], ms);
            lemma_inputs_mass_prefix(p, tx.inputs@, i + 1, ms);
            lemma_outputs_mass_prefix(p, tx.outputs@, 0);
            assert(outputs_mass(p, tx.outputs@.subrange(0, 0)) == 0);
        }
        let m = input_mass(&p, script_len as u64, tx.inputs[i].sig_op_count);
        assert(counted_input_mass(p, tx.inputs@[i as int], ms) == input_mass_of(
            p,
            (script_len as u64) as int,
            tx.inputs@[i as int].sig_op_count as int,
        ));
        match add_mass(Some(total), m) {
            Some(t) => {
                total = t;
            },
            None => {
                return Err(Error::MassExceeded);
            },
        }
        i += 1;
    }
    assert(tx.inputs@.subrange(0, i as int) =~= tx.inputs@);
    let mut j: usize = 0;
    while j < tx.outputs.len()
        invariant
            j <= tx.outputs@.len(),
            total == base_mass(p, tx.payload@.len() as int) + inputs_mass(p, tx.inputs@, ms)
                + outputs_mass(p, tx.outputs@.subrange(0, j as int)),
            ms == Some(minimum_signatures as int),
            p == *params,
        decreases tx.outputs.len() - j,
    {
        assert(tx.outputs@.subrange(0, j + 1) =~= tx.outputs@.subrange(0, j as int).push(tx.outputs@[j as int]));
        proof {
            lemma_outputs_mass_grows(p, tx.outputs@.subrange(0, j as int), tx.outputs@[j as int]);
            lemma_outputs_mass_prefix(p, tx.outputs@, j + 1);
        }
        let m = output_mass(&p, tx.outputs[j].script_public_key.script.len() as u64);
        match add_mass(Some(total), m) {
            Some(t) => {
                total = t;
            },
            None => {
                return Err(Error::MassExceeded);
            },
        }
        j += 1;
    }
    assert(tx.outputs@.subrange(0, j as int) =~= tx.outputs@);
    Ok(total)
}

/// Every input carries the unspent output that it spends.
pub open spec fn inputs_resolved(s: Seq<TransactionInput>) -> bool {
    forall|i: int| 0 <= i < s.len() ==> (#[trigger] s[i]).utxo is Some
}

/// The amounts that the inputs spend.
pub open spec fn spent_amounts(s: Seq<TransactionInput>) -> Seq<u64> {
    s.map_values(|i: TransactionInput| i.utxo->0.amount)
}

/// The values of the outputs.
pub open spec fn output_values(s: Seq<TransactionOutput>) -> Seq<u64> {
    s.map_values(|o: TransactionOutput| o.value)
}

/// The mass of an unsigned transaction: the larger of its compute mass, with
/// `minimum_signatures` signatures counted for each input, and its storage
/// mass (zero where the storage mass is not defined).
pub open spec fn overall_mass(p: MassParams, tx: Transaction, minimum_signatures: int) -> int {
    let compute = compute_mass(p, tx, Some(minimum_signatures));
    let storage = match storage_mass(
        spent_amounts(tx.inputs@),
        output_values(tx.outputs@),
        p.storage_mass_parameter as int,
    ) {
        Some(m) => m,
        None => 0,
    };
    if compute >= storage {
        compute
    } else {
        storage
    }
}

fn spent_amounts_of(tx: &Transaction) -> (r: Result<Vec<u64>, Error>)
    ensures
        r is Ok <==> inputs_resolved(tx.inputs@),
        r matches Ok(v) ==> v@ == spent_amounts(tx.inputs@),
        r is Err ==> r == Err::<Vec<u64>, Error>(Error::MissingUtxoEntry),
{
    let mut v: Vec<u64> = Vec::new();
    let mut i: usize = 0;
    while i < tx.inputs.len()
        invariant
            i <= tx.inputs@.len(),
            inputs_resolved(tx.inputs@.subrange(0, i as int)),
            v@ == spent_amounts(tx.inputs@.subrange(0, i as int)),
        decreases tx.inputs.len() - i,
    {
        match &tx.inputs[i].utxo {
            Some(u) => v.push(u.amount),
            None => {
                return Err(Error::MissingUtxoEntry);
            },
        }
        i += 1;
        assert(v@ =~= spent_amounts(tx.inputs@.subrange(0, i as int)));
    }
    assert(tx.inputs@.subrange(0, i as int) =~= tx.inputs@);
    Ok(v)
}

fn output_values_of(tx: &Transaction) -> (r: Vec<u64>)
    ensures
        r@ == output_values(tx.outputs@),
{
    let mut v: Vec<u64> = Vec::new();
    let mut i: usize = 0;
    while i < tx.outputs.len()
        invariant
            i <= tx.outputs@.len(),
            v@ == output_values(tx.outputs@.subrange(0, i as int)),
        decreases tx.outputs.len() - i,
    {
        v.push(tx.outputs[i].value);
        i += 1;
        assert(v@ =~= output_values(tx.outputs@.subrange(0, i as int)));
    }
    assert(tx.outputs@.subrange(0, i as int) =~= tx.outputs@);
    v
}

/// Every output has a positive value.
pub open spec fn no_zero_output(s: Seq<TransactionOutput>) -> bool {
    forall|i: int| 0 <= i < s.len() ==> (#[trigger] s[i]).value != 0
}

/// The transaction is one whose mass is defined: every input carries the
/// output it spends, and no output is worth zero.
pub open spec fn mass_defined(tx: Transaction) -> bool {
    inputs_resolved(tx.inputs@) && no_zero_output(tx.outputs@)
}

fn has_zero_output(tx: &Transaction) -> (r: bool)
    ensures
        r == !no_zero_output(tx.outputs@),
{
    let mut i: usize = 0;
    while i < tx.outputs.len()
        invariant
            i <= tx.outputs@.len(),
            forall|k: int| 0 <= k < i ==> (#[trigger] tx.outputs@[k]).value != 0,
        decreases tx.outputs.len() - i,
    {
        if tx.outputs[i].value == 0 {
            return true;
        }
        i += 1;
    }
    false
}

/// The mass of an unsigned transaction, as `overall_mass` states it. Fails
/// with `MissingUtxoEntry` when an input does not carry the output it spends,
/// with `ZeroOutputAmount` when an output is worth zero, and with
/// `MassExceeded` when the mass does not fit in 64 bits.
pub fn calculate_transaction_mass(params: &MassParams, tx: &Transaction, minimum_signatures: u16) -> (r:
    Result<u64, Error>)
    ensures
        !inputs_resolved(tx.inputs@) ==> r == Err::<u64, Error>(Error::MissingUtxoEntry),
        inputs_resolved(tx.inputs@) && !no_zero_output(tx.outputs@) ==> r == Err::<u64, Error>(
            Error::ZeroOutputAmount,
        ),
        mass_defined(*tx) ==> {
            &&& r matches Ok(m) ==> m == overall_mass(*params, *tx, minimum_signatures as int)
            &&& r is Err <==> overall_mass(*params, *tx, minimum_signatures as int) > u64::MAX
            &&& r is Err ==> r == Err::<u64, Error>(Error::MassExceeded)
        },
{
    let amounts = match spent_amounts_of(tx) {
        Ok(a) => a,
        Err(e) => {
            return Err(e);
        },
    };
    if has_zero_output(tx) {
        return Err(Error::ZeroOutputAmount);
    }
    let compute = calculate_compute_mass(params, tx, minimum_signatures);
    let values = output_values_of(tx);
    let storage = match calculate_storage_mass(params, &amounts, &values) {
        Some(m) => m,
        None => 0,
    };
    assert(storage == match storage_mass(
        spent_amounts(tx.inputs@),
        output_values(tx.outputs@),
        params.storage_mass_parameter as int,
    ) {
        Some(m) => m,
        None => 0,
    });
    let ghost om = overall_mass(*params, *tx, minimum_signatures as int);
    match compute {
        Ok(c) => if c >= storage {
            Ok(c)
        } else {
            Ok(storage)
        },
        Err(e) => {
            Err(e)
        },
    }
}

/// The largest mass that a standard transaction may have.
pub fn maximum_standard_transaction_mass(params: &MassParams) -> (r: u64)
    ensures
        r == params.maximum_standard_mass,
{
    params.maximum_standard_mass
}

/// The fee that a mass asks for, or `None` when it does not fit in 64 bits.
pub fn calculate_fee_for_mass(params: &MassParams, mass: u64) -> (r: Option<u64>)
    ensures
        r == if fee_for_mass(*params, mass as int) <= u64::MAX {
            Some(fee_for_mass(*params, mass as int) as u64)
        } else {
            None::<u64>
        },
{
    mass.checked_mul(params.fee_per_mass)
}

/// The fee of an unsigned transaction: `None` when its mass is over the
/// standard limit.
pub fn calculate_transaction_fee(params: &MassParams, tx: &Transaction, minimum_signatures: u16) -> (r:
    Result<Option<u64>, Error>)
    requires
        params.wf(),
    ensures
        !inputs_resolved(tx.inputs@) ==> r == Err::<Option<u64>, Error>(Error::MissingUtxoEntry),
        inputs_resolved(tx.inputs@) && !no_zero_output(tx.outputs@) ==> r == Err::<
            Option<u64>,
            Error,
        >(Error::ZeroOutputAmount),
        mass_defined(*tx) ==> {
            let m = overall_mass(*params, *tx, minimum_signatures as int);
            r == if m <= params.maximum_standard_mass {
                Ok::<Option<u64>, Error>(Some(fee_for_mass(*params, m) as u64))
            } else if m <= u64::MAX {
                Ok::<Option<u64>, Error>(None)
            } else {
                Err::<Option<u64>, Error>(Error::MassExceeded)
            }
        },
{
    match calculate_transaction_mass(params, tx, minimum_signatures) {
        Ok(m) => if m > params.maximum_standard_mass {
            Ok(None)
        } else {
            assert(m * params.fee_per_mass <= params.maximum_standard_mass * params.fee_per_mass)
                by (nonlinear_arith)
                requires
                    m <= params.maximum_standard_mass,
            ;
            match calculate_fee_for_mass(params, m) {
                Some(f) => Ok(Some(f)),
                None => Err(Error::MassExceeded),
            }
        },
        Err(e) => Err(e),
    }
}

/// Stores the mass of an unsigned transaction in it, when the mass is within
/// the standard limit; says whether it did. The transaction is left as it was
/// otherwise.
pub fn update_transaction_mass(params: &MassParams, tx: &mut Transaction, minimum_signatures: u16) -> (r:
    Result<bool, Error>)
    ensures
        !inputs_resolved(old(tx).inputs@) ==> r == Err::<bool, Error>(Error::MissingUtxoEntry),
        inputs_resolved(old(tx).inputs@) && !no_zero_output(old(tx).outputs@) ==> r == Err::<
            bool,
            Error,
        >(Error::ZeroOutputAmount),
        mass_defined(*old(tx)) ==> {
            let m = overall_mass(*params, *old(tx), minimum_signatures as int);
            r == if m <= params.maximum_standard_mass {
                Ok::<bool, Error>(true)
            } else if m <= u64::MAX {
                Ok::<bool, Error>(false)
            } else {
                Err::<bool, Error>(Error::MassExceeded)
            }
        },
        r == Ok::<bool, Error>(true) ==> *final(tx) == (Transaction {
            mass: overall_mass(*params, *old(tx), minimum_signatures as int) as u64,
            ..*old(tx)
        }),
        r != Ok::<bool, Error>(true) ==> *final(tx) == *old(tx),
{
    match calculate_transaction_mass(params, tx, minimum_signatures) {
        Ok(m) => if m > params.maximum_standard_mass {
            Ok(false)
        } else {
            tx.mass = m;
            Ok(true)
        },
        Err(e) => Err(e),
    }
}

/// Adding an input or an output to a transaction never lowers its compute
/// mass: `with_input` is `tx` with one more input, `with_output` is `tx` with
/// one more output.
pub proof fn lemma_compute_mass_monotone(
    p: MassParams,
    tx: Transaction,
    with_input: Transaction,
    input: TransactionInput,
    with_output: Transaction,
    output: TransactionOutput,
    minimum_signatures: u16,
)
    requires
        with_input.inputs@ == tx.inputs@.push(input),
        with_input.outputs@ == tx.outputs@,
        with_input.payload@ == tx.payload@,
        with_output.outputs@ == tx.outputs@.push(output),
        with_output.inputs@ == tx.inputs@,
        with_output.payload@ == tx.payload@,
    ensures
        compute_mass(p, with_input, Some(minimum_signatures as int)) >= compute_mass(
            p,
            tx,
            Some(minimum_signatures as int),
        ),
        compute_mass(p, with_output, Some(minimum_signatures as int)) >= compute_mass(
            p,
            tx,
            Some(minimum_signatures as int),
        ),
{
    lemma_inputs_mass_grows(p, tx.inputs@, input, Some(minimum_signatures as int));
    lemma_outputs_mass_grows(p, tx.outputs@, output);
}

/// Adding an output, with a positive amount, never lowers the part of the
/// storage mass that the outputs contribute.
pub proof fn lemma_harmonic_outputs_grows(outs: Seq<u64>, o: u64, c: int)
    requires
        c >= 0,
        o > 0,
        harmonic_outputs(outs, c) <= u64::MAX,
    ensures
        harmonic_outputs(outs.push(o), c) >= harmonic_outputs(outs, c),
{
    assert(outs.push(o).drop_last() =~= outs);
    assert(c / (o as int) >= 0) by (nonlinear_arith)
        requires
            c >= 0,
            o > 0,
    ;
}

/// Inputs with the same signature-operation counts weigh the same before
/// they are signed.
pub proof fn lemma_inputs_mass_same(
    p: MassParams,
    a: Seq<TransactionInput>,
    b: Seq<TransactionInput>,
    minimum_signatures: int,
)
    requires
        a.len() == b.len(),
        forall|i: int| 0 <= i < a.len() ==> (#[trigger] a[i]).sig_op_count == b[i].sig_op_count,
    ensures
        inputs_mass(p, a, Some(minimum_signatures)) == inputs_mass(p, b, Some(minimum_signatures)),
    decreases a.len(),
{
    if a.len() > 0 {
        lemma_inputs_mass_same(p, a.drop_last(), b.drop_last(), minimum_signatures);
    }
}

/// Outputs with scripts of the same lengths weigh the same.
pub proof fn lemma_outputs_mass_same(p: MassParams, a: Seq<TransactionOutput>, b: Seq<TransactionOutput>)
    requires
        a.len() == b.len(),
        forall|i: int|
            0 <= i < a.len() ==> (#[trigger] a[i]).script_public_key.script@.len()
                == b[i].script_public_key.script@.len(),
    ensures
        outputs_mass(p, a) == outputs_mass(p, b),
    decreases a.len(),
{
    if a.len() > 0 {
        lemma_outputs_mass_same(p, a.drop_last(), b.drop_last());
    }
}

proof fn lemma_harmonic_outputs_bounded(outs: Seq<u64>, c: int)
    requires
        c >= 0,
        forall|i: int| 0 <= i < outs.len() ==> outs[i] > 0,
    ensures
        0 <= harmonic_outputs(outs, c) <= u64::MAX,
    decreases outs.len(),
{
    if outs.len() > 0 {
        lemma_harmonic_outputs_bounded(outs.drop_last(), c);
        let o = outs.last();
        assert(c / (o as int) >= 0) by (nonlinear_arith)
            requires
                c >= 0,
                o > 0,
        ;
    }
}

/// Adding an output of positive value to a transaction whose mass is defined
/// never lowers its mass: neither the compute mass nor the storage mass falls.
pub proof fn lemma_overall_mass_grows_with_output(
    p: MassParams,
    tx: Transaction,
    with_output: Transaction,
    output: TransactionOutput,
    minimum_signatures: u16,
)
    requires
        mass_defined(tx),
        output.value != 0,
        with_output.outputs@ == tx.outputs@.push(output),
        with_output.inputs@ == tx.inputs@,
        with_output.payload@ == tx.payload@,
    ensures
        mass_defined(with_output),
        overall_mass(p, with_output, minimum_signatures as int) >= overall_mass(
            p,
            tx,
            minimum_signatures as int,
        ),
{
    lemma_outputs_mass_grows(p, tx.outputs@, output);
    let outs = output_values(tx.outputs@);
    assert(output_values(with_output.outputs@) =~= outs.push(output.value));
    assert forall|i: int| 0 <= i < outs.len() implies outs[i] > 0 by {
        assert(tx.outputs@[i].value != 0);
    }
    lemma_harmonic_outputs_bounded(outs, p.storage_mass_parameter as int);
    lemma_harmonic_outputs_grows(outs, output.value, p.storage_mass_parameter as int);
    assert(!(exists|i: int| 0 <= i < outs.len() && outs[i] == 0));
    let outs2 = outs.push(output.value);
    assert(!(exists|i: int| 0 <= i < outs2.len() && outs2[i] == 0)) by {
        assert forall|i: int| 0 <= i < outs2.len() implies outs2[i] != 0 by {
            if i < outs.len() {
                assert(outs2[i] == outs[i]);
            }
        }
    }
    assert forall|i: int| 0 <= i < with_output.outputs@.len() implies (
    #[trigger] with_output.outputs@[i]).value != 0 by {
        if i < tx.outputs@.len() {
            assert(with_output.outputs@[i] == tx.outputs@[i]);
        }
    }
}

} // verus!
