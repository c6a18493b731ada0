use kaspa_txkit::error::Error;
use kaspa_txkit::mass::{
    calculate_compute_mass, calculate_fee_for_mass, calculate_storage_mass, calculate_transaction_fee,
    calculate_transaction_mass, maximum_standard_transaction_mass, update_transaction_mass, MassParams,
};
use kaspa_txkit::tx::{create_transaction, PaymentOutput, ScriptPublicKey, TransactionOutpoint, TransactionOutput, UtxoEntry};

fn params(max: u64) -> MassParams {
    MassParams {
        mass_per_tx_byte: 1,
        mass_per_script_pub_key_byte: 10,
        mass_per_sig_op: 1000,
        storage_mass_parameter: 1_000_000,
        fee_per_mass: 2,
        maximum_standard_mass: max,
        minimum_change: 0,
    }
}

fn entry(id: u8, amount: u64) -> UtxoEntry {
    UtxoEntry::new(
        TransactionOutpoint { transaction_id: [id; 32], index: 0 },
        amount,
        ScriptPublicKey::new(0, vec![0xab; 34]),
        0,
        false,
    )
}

fn pay(amount: u64) -> PaymentOutput {
    PaymentOutput::new(ScriptPublicKey::new(0, vec![0xcd; 34]), amount)
}

#[test]
fn create_transaction_spends_in_order() {
    let tx = create_transaction(&vec![entry(1, 700), entry(2, 300)], &vec![pay(900)], 50, vec![9], 2).unwrap();
    assert_eq!(tx.inputs.len(), 2);
    assert_eq!(tx.inputs[1].sequence, 1);
    assert_eq!(tx.inputs[1].sig_op_count, 2);
    assert_eq!(tx.inputs[0].previous_outpoint.transaction_id, [1u8; 32]);
    assert_eq!(tx.outputs[0].value, 900);
    assert_eq!(tx.payload, vec![9]);
    assert_eq!(tx.mass, 0);
}

#[test]
fn create_transaction_errors() {
    let r = create_transaction(&vec![entry(1, 10)], &vec![pay(5)], 11, vec![], 1);
    assert!(matches!(r, Err(Error::PriorityFeeExceedsInputs)));
    let r = create_transaction(&vec![entry(1, u64::MAX), entry(2, 1)], &vec![], 0, vec![], 1);
    assert!(matches!(r, Err(Error::AmountOverflow)));
}

#[test]
fn compute_mass_is_deterministic_and_grows() {
    let p = params(100_000);
    let mut tx = create_transaction(&vec![entry(1, 1_000_000)], &vec![pay(500_000)], 0, vec![], 1).unwrap();
    let a = calculate_compute_mass(&p, &tx, 1).unwrap();
    let b = calculate_compute_mass(&p, &tx, 1).unwrap();
    assert_eq!(a, b);
    assert_eq!(a, 94 + 1119 + 412);
    tx.outputs.push(TransactionOutput::new(1, ScriptPublicKey::new(0, vec![])));
    let c = calculate_compute_mass(&p, &tx, 1).unwrap();
    assert_eq!(c, a + 18 + 20);
    assert_eq!(calculate_compute_mass(&p, &tx, 2).unwrap(), c + 66);
}

#[test]
fn storage_mass_formula() {
    let p = params(100_000);
    // 1e6/500 + 1e6/250 = 6000; one input of mean 1000 gives 1 * 1000.
    assert_eq!(calculate_storage_mass(&p, &vec![1000], &vec![500, 250]), Some(5000));
    // More outputs never lower it.
    assert_eq!(calculate_storage_mass(&p, &vec![1000], &vec![500, 250, 250]), Some(9000));
    // Compact outputs: it bottoms out at zero.
    assert_eq!(calculate_storage_mass(&p, &vec![1000, 1000], &vec![2_000_000]), Some(0));
    assert_eq!(calculate_storage_mass(&p, &vec![1000], &vec![0]), None);
    assert_eq!(calculate_storage_mass(&p, &vec![], &vec![10]), None);
}

#[test]
fn overall_mass_fee_and_update() {
    let p = params(100_000);
    let mut tx = create_transaction(&vec![entry(1, 1_000_000)], &vec![pay(500_000)], 0, vec![], 1).unwrap();
    let m = calculate_transaction_mass(&p, &tx, 1).unwrap();
    assert_eq!(m, 1625);
    assert_eq!(calculate_transaction_fee(&p, &tx, 1), Ok(Some(3250)));
    assert_eq!(calculate_fee_for_mass(&p, 10), Some(20));
    assert_eq!(calculate_fee_for_mass(&p, u64::MAX), None);
    assert_eq!(update_transaction_mass(&p, &mut tx, 1), Ok(true));
    assert_eq!(tx.mass, 1625);
    let small = params(1000);
    let mut tx2 = create_transaction(&vec![entry(1, 1_000_000)], &vec![pay(500_000)], 0, vec![], 1).unwrap();
    assert_eq!(calculate_transaction_fee(&small, &tx2, 1), Ok(None));
    assert_eq!(update_transaction_mass(&small, &mut tx2, 1), Ok(false));
    assert_eq!(tx2.mass, 0);
    assert_eq!(maximum_standard_transaction_mass(&small), 1000);
    // A tiny output makes the storage mass the larger part.
    let tx3 = create_transaction(&vec![entry(1, 1_000_000)], &vec![pay(100)], 0, vec![], 1).unwrap();
    assert_eq!(calculate_transaction_mass(&p, &tx3, 1), Ok(10_000 - 1));
    let mut tx4 = create_transaction(&vec![entry(1, 1_000_000)], &vec![pay(100)], 0, vec![], 1).unwrap();
    tx4.outputs.push(TransactionOutput::new(0, ScriptPublicKey::new(0, vec![1])));
    assert_eq!(calculate_transaction_mass(&p, &tx4, 1), Err(Error::ZeroOutputAmount));
    tx2.inputs[0].utxo = None;
    assert_eq!(calculate_transaction_mass(&p, &tx2, 1), Err(Error::MissingUtxoEntry));
}
