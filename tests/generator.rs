use kaspa_txkit::error::Error;
use kaspa_txkit::generator::Generator;
use kaspa_txkit::mass::MassParams;
use kaspa_txkit::pending::PendingTransaction;
use kaspa_txkit::tx::{PaymentOutput, ScriptPublicKey, TransactionOutpoint, UtxoEntry};

fn params(maximum_standard_mass: u64) -> MassParams {
    MassParams {
        mass_per_tx_byte: 1,
        mass_per_script_pub_key_byte: 10,
        mass_per_sig_op: 1000,
        storage_mass_parameter: 10_000_000,
        fee_per_mass: 1,
        maximum_standard_mass,
        minimum_change: 1,
    }
}

fn script(tag: u8) -> ScriptPublicKey {
    let mut s = vec![0x20u8];
    s.extend_from_slice(&[tag; 32]);
    s.push(0xac);
    ScriptPublicKey::new(0, s)
}

fn entry(id: u8, amount: u64) -> UtxoEntry {
    UtxoEntry::new(
        TransactionOutpoint { transaction_id: [id; 32], index: 0 },
        amount,
        script(1),
        10,
        false,
    )
}

fn generator(entries: Vec<UtxoEntry>, pay: Option<u64>, priority_fee: u64, max: u64) -> Generator {
    let outputs = pay.map(|a| vec![PaymentOutput::new(script(2), a)]);
    Generator::new(
        "mainnet".to_string(),
        params(max),
        entries,
        None,
        script(3),
        outputs,
        Some(priority_fee),
        None,
        None,
        None,
    )
    .unwrap()
}

fn run(g: &mut Generator) -> Vec<PendingTransaction> {
    let mut out = Vec::new();
    while let Some(r) = g.next() {
        out.push(r.unwrap());
    }
    out
}

// Each input 53 + 66 bytes and one signature operation: 119 + 1000 = 1119.
// Each 34-byte output: (18 + 34) + (2 + 34) * 10 = 412. Blank: 94.

#[test]
fn single_utxo_single_payment() {
    let mut g = generator(vec![entry(7, 1_000_000)], Some(500_000), 1_000, 100_000);
    let txs = run(&mut g);
    assert_eq!(txs.len(), 1);
    let t = &txs[0];
    assert!(!t.is_batch);
    assert_eq!(t.transaction_type(), "final");
    assert_eq!(t.mass, 94 + 1119 + 412 + 412);
    assert_eq!(t.change_amount, 499_000 - 2037);
    assert_eq!(t.fee_amount, 2037 + 1_000);
    assert_eq!(t.payment_amount, Some(500_000));
    assert_eq!(t.transaction.outputs.len(), 2);
    assert_eq!(t.transaction.outputs[0].value, 500_000);
    assert_eq!(t.transaction.outputs[1].value, 496_963);
    let s = g.summary();
    assert_eq!(s.number_of_generated_transactions, 1);
    assert_eq!(s.aggregate_fees, 3037);
    assert_eq!(s.aggregated_utxos, 1);
    assert_eq!(s.final_transaction_amount, Some(500_000));
    assert_eq!(s.final_transaction_id, Some(t.id()));
}

#[test]
fn mass_ceiling_splits_into_batches() {
    let entries = (1..=5).map(|i| entry(i, 100_000)).collect();
    let mut g = generator(entries, Some(450_000), 0, 5_000);
    let txs = run(&mut g);
    assert!(txs.len() >= 2);
    assert!(txs[0].is_batch);
    assert_eq!(txs[0].transaction_type(), "batch");
    assert!(!txs[txs.len() - 1].is_batch);
    assert_eq!(txs[0].transaction.inputs.len(), 3);
    assert_eq!(txs[0].fee_amount, 94 + 3 * 1119 + 412);
    assert_eq!(txs[1].transaction.inputs.len(), 3);
    assert_eq!(txs[1].transaction.inputs[0].previous_outpoint.transaction_id, txs[0].id());
    let fees: u64 = txs.iter().map(|t| t.fee_amount).sum();
    let s = g.summary();
    assert_eq!(s.aggregate_fees, fees);
    assert_eq!(s.aggregate_fees, 3863 + 4275);
    assert_eq!(s.number_of_generated_transactions, txs.len());
    for t in &txs {
        assert!(t.mass <= 5_000);
    }
}

#[test]
fn value_is_conserved_across_a_run() {
    let entries: Vec<UtxoEntry> = (1..=5).map(|i| entry(i, 100_000 + i as u64)).collect();
    let total: u64 = entries.iter().map(|e| e.amount).sum();
    let mut g = generator(entries, Some(450_000), 500, 5_000);
    let txs = g.generate_all().unwrap();
    let outputs: u64 = txs.iter().map(|t| t.aggregate_output_amount).sum();
    let fees: u64 = txs.iter().map(|t| t.fee_amount).sum();
    let inputs: u64 = txs.iter().map(|t| t.aggregate_input_amount).sum();
    assert_eq!(outputs + fees, inputs);
    for t in &txs {
        let spent: u64 = t.utxo_entries().iter().map(|e| e.amount).sum();
        let paid: u64 = t.transaction.outputs.iter().map(|o| o.value).sum();
        assert_eq!(spent, paid + t.fee_amount);
    }
    let last = txs.last().unwrap();
    assert_eq!(fees + last.aggregate_output_amount, total);
}

#[test]
fn sweep_consolidates_everything_to_change() {
    let entries = (1..=3).map(|i| entry(i, 50_000)).collect();
    let mut g = generator(entries, None, 0, 100_000);
    let txs = run(&mut g);
    assert_eq!(txs.len(), 1);
    let t = &txs[0];
    assert_eq!(t.payment_amount, None);
    assert_eq!(t.transaction.outputs.len(), 1);
    let mass = 94 + 3 * 1119 + 412;
    assert_eq!(t.fee_amount, mass);
    assert_eq!(t.transaction.outputs[0].value, 150_000 - mass);
    assert_eq!(g.summary().final_transaction_amount, None);
}

#[test]
fn insufficient_funds_is_reported() {
    let mut g = generator(vec![entry(1, 10_000)], Some(20_000), 0, 100_000);
    assert!(matches!(g.next(), Some(Err(Error::InsufficientFunds))));
    assert!(g.next().is_none());
    assert_eq!(g.summary().number_of_generated_transactions, 0);
    assert_eq!(g.summary().aggregate_fees, 0);
}

#[test]
fn single_input_over_the_ceiling_is_mass_exceeded() {
    let mut g = generator(vec![entry(1, 10_000_000)], Some(20_000), 0, 1_500);
    assert!(matches!(g.next(), Some(Err(Error::MassExceeded))));
}

#[test]
fn priority_entries_are_spent_first() {
    let outputs = Some(vec![PaymentOutput::new(script(2), 10_000)]);
    let mut g = Generator::new(
        "testnet".to_string(),
        params(100_000),
        vec![entry(1, 100_000)],
        Some(vec![entry(9, 100_000)]),
        script(3),
        outputs,
        None,
        None,
        None,
        None,
    )
    .unwrap();
    let txs = run(&mut g);
    assert_eq!(txs.len(), 1);
    assert_eq!(txs[0].transaction.inputs.len(), 1);
    assert_eq!(txs[0].transaction.inputs[0].previous_outpoint.transaction_id, [9u8; 32]);
}

#[test]
fn small_change_goes_to_the_fee() {
    let mut p = params(100_000);
    p.minimum_change = 1_000;
    let outputs = Some(vec![PaymentOutput::new(script(2), 100_000 - 2037 - 500)]);
    let mut g = Generator::new(
        "mainnet".to_string(),
        p,
        vec![entry(1, 100_000)],
        None,
        script(3),
        outputs,
        None,
        None,
        None,
        None,
    )
    .unwrap();
    let txs = run(&mut g);
    assert_eq!(txs.len(), 1);
    assert_eq!(txs[0].transaction.outputs.len(), 1);
    assert_eq!(txs[0].change_amount, 0);
    assert_eq!(txs[0].fee_amount, 2537);
    assert_eq!(txs[0].mass, 2037 - 412);
}

#[test]
fn estimate_reports_the_run() {
    let entries = (1..=5).map(|i| entry(i, 100_000)).collect();
    let mut g = generator(entries, Some(450_000), 0, 5_000);
    let s = g.estimate().unwrap();
    assert_eq!(s.number_of_generated_transactions, 2);
    assert_eq!(s.aggregate_fees, 8138);
    assert_eq!(s.aggregated_utxos, 5);
    assert_eq!(s.network_type, "mainnet");
}

#[test]
fn payments_that_overflow_are_refused() {
    let outputs = Some(vec![
        PaymentOutput::new(script(2), u64::MAX),
        PaymentOutput::new(script(2), 1),
    ]);
    let r = Generator::new(
        "mainnet".to_string(),
        params(100_000),
        vec![entry(1, 100_000)],
        None,
        script(3),
        outputs,
        None,
        None,
        None,
        None,
    );
    assert!(matches!(r, Err(Error::AmountOverflow)));
}

#[test]
fn storage_mass_sets_the_fee_when_it_dominates() {
    // A small payment: 1e7 / 2000 = 5000 outweighs the compute mass of 2037.
    let mut g = generator(vec![entry(7, 1_000_000)], Some(2_000), 0, 100_000);
    let txs = run(&mut g);
    assert_eq!(txs.len(), 1);
    let t = &txs[0];
    assert_eq!(t.mass, 5_000);
    assert_eq!(t.fee_amount, 5_000);
    assert_eq!(t.change_amount, 1_000_000 - 2_000 - 5_000);
    assert_eq!(t.transaction.outputs[1].value, 993_000);
}

#[test]
fn storage_mass_over_the_limit_is_mass_exceeded() {
    let mut g = generator(vec![entry(7, 1_000_000)], Some(50), 0, 100_000);
    assert!(matches!(g.next(), Some(Err(Error::MassExceeded))));
}

#[test]
fn duplicate_outpoints_are_spent_once() {
    let outputs = Some(vec![PaymentOutput::new(script(2), 150_000)]);
    let mut g = Generator::new(
        "mainnet".to_string(),
        params(100_000),
        vec![entry(1, 100_000), entry(2, 100_000)],
        Some(vec![entry(1, 100_000)]),
        script(3),
        outputs,
        None,
        None,
        None,
        None,
    )
    .unwrap();
    assert_eq!(g.entries.len(), 2);
    let txs = run(&mut g);
    assert_eq!(txs.len(), 1);
    let ids: Vec<[u8; 32]> = txs[0].transaction.inputs.iter().map(|i| i.previous_outpoint.transaction_id).collect();
    assert_eq!(ids, vec![[1u8; 32], [2u8; 32]]);
}

#[test]
fn zero_payments_are_refused() {
    let r = Generator::new(
        "mainnet".to_string(),
        params(100_000),
        vec![entry(1, 100_000)],
        None,
        script(3),
        Some(vec![PaymentOutput::new(script(2), 0)]),
        None,
        None,
        None,
        None,
    );
    assert!(matches!(r, Err(Error::ZeroOutputAmount)));
}

#[test]
fn batch_output_is_spent_by_the_next_transaction() {
    let entries = (1..=5).map(|i| entry(i, 100_000)).collect();
    let mut g = generator(entries, Some(450_000), 0, 5_000);
    let txs = g.generate_all().unwrap();
    let b = &txs[0];
    assert_eq!(b.transaction.outputs.len(), 1);
    assert_eq!(b.transaction.outputs[0].value, b.aggregate_input_amount - b.fee_amount);
    assert_eq!(b.transaction.outputs[0].script_public_key.script, script(3).script);
    assert_eq!(txs[1].transaction.inputs[0].previous_outpoint.transaction_id, b.id());
    assert_eq!(txs[1].transaction.inputs[0].previous_outpoint.index, 0);
    assert!(g.next().is_none());
}

#[test]
fn generate_all_reports_insufficient_funds() {
    let entries = (1..=3).map(|i| entry(i, 10_000)).collect();
    let mut g = generator(entries, Some(1_000_000), 0, 100_000);
    assert!(matches!(g.generate_all(), Err(Error::InsufficientFunds)));
    let mut g = generator(vec![entry(1, 1_000_000)], Some(500_000), 1_000, 100_000);
    let s = g.estimate().unwrap();
    assert_eq!(s.number_of_generated_transactions, 1);
    assert_eq!(s.aggregated_utxos, 1);
    assert!(s.final_transaction_id.is_some());
    assert!(g.next().is_none());
}
