use kaspa_txkit::error::Error;
use kaspa_txkit::generator::Generator;
use kaspa_txkit::mass::MassParams;
use kaspa_txkit::pending::{
    pay_to_pubkey, public_key_of, sign_hash, sign_transaction, PendingTransaction, SighashType,
};
use kaspa_txkit::tx::{PaymentOutput, ScriptPublicKey, TransactionOutpoint, UtxoEntry};

const SECRET: [u8; 32] = [0x11; 32];
const OTHER: [u8; 32] = [0x22; 32];

fn params() -> MassParams {
    MassParams {
        mass_per_tx_byte: 1,
        mass_per_script_pub_key_byte: 10,
        mass_per_sig_op: 1000,
        storage_mass_parameter: 0,
        fee_per_mass: 1,
        maximum_standard_mass: 100_000,
        minimum_change: 1,
    }
}

fn pending(secret: &[u8; 32], inputs: u8) -> PendingTransaction {
    let key = public_key_of(secret).unwrap();
    let lock = pay_to_pubkey(&key);
    let entries = (0..inputs)
        .map(|i| {
            UtxoEntry::new(
                TransactionOutpoint { transaction_id: [i + 1; 32], index: i as u32 },
                200_000,
                lock.clone(),
                5,
                false,
            )
        })
        .collect();
    let mut g = Generator::new(
        "mainnet".to_string(),
        params(),
        entries,
        None,
        ScriptPublicKey::new(0, vec![0x51]),
        Some(vec![PaymentOutput::new(ScriptPublicKey::new(0, vec![0x52]), 100_000 * inputs as u64)]),
        None,
        None,
        None,
        None,
    )
    .unwrap();
    g.next().unwrap().unwrap()
}

#[test]
fn sign_input_matches_create_input_signature_and_verifies() {
    let mut t = pending(&SECRET, 2);
    let expected = t.create_input_signature(0, &SECRET, SighashType::All).unwrap();
    assert_eq!(expected.len(), 66);
    assert_eq!(expected[0], 65);
    assert_eq!(expected[65], 0x01);
    t.sign_input(0, &SECRET, SighashType::All).unwrap();
    assert_eq!(t.transaction.inputs[0].signature_script, expected);
    let again = t.create_input_signature(0, &SECRET, SighashType::All).unwrap();
    assert_eq!(again, expected);
    assert_eq!(t.verify_input(0), Ok(true));
    assert_eq!(t.verify_input(1), Ok(false));
}

#[test]
fn tampered_signature_does_not_verify() {
    let mut t = pending(&SECRET, 1);
    let mut script = t.create_input_signature(0, &SECRET, SighashType::All).unwrap();
    script[10] ^= 1;
    t.fill_input(0, script).unwrap();
    assert_eq!(t.verify_input(0), Ok(false));
}

#[test]
fn sign_with_matching_key_signs_every_input() {
    let mut t = pending(&SECRET, 2);
    t.sign(&vec![OTHER, SECRET], true).unwrap();
    assert!(!t.has_unsigned_input());
    assert_eq!(t.verify_input(0), Ok(true));
    assert_eq!(t.verify_input(1), Ok(true));
}

#[test]
fn sign_with_foreign_key_leaves_inputs_unsigned() {
    let mut t = pending(&SECRET, 2);
    t.sign(&vec![OTHER], false).unwrap();
    assert!(t.transaction.inputs.iter().all(|i| i.signature_script.is_empty()));
    let r = t.sign(&vec![OTHER], true);
    assert_eq!(r, Err(Error::NotFullySigned));
    assert!(t.transaction.inputs.iter().all(|i| i.signature_script.is_empty()));
}

#[test]
fn signing_errors() {
    let mut t = pending(&SECRET, 1);
    assert_eq!(t.sign_input(3, &SECRET, SighashType::All), Err(Error::InputIndexOutOfRange));
    assert_eq!(t.create_input_signature(0, &[0u8; 32], SighashType::All), Err(Error::InvalidSecretKey));
    t.fill_input(0, vec![1, 2, 3]).unwrap();
    assert_eq!(t.fill_input(0, vec![4]), Err(Error::AlreadySigned));
    assert_eq!(t.sign_input(0, &SECRET, SighashType::All), Err(Error::AlreadySigned));
    t.transaction.inputs[0].utxo = None;
    assert_eq!(t.signature_hash(0, SighashType::All), Err(Error::MissingUtxoEntry));
}

#[test]
fn signatures_depend_on_the_sighash_type() {
    let t = pending(&SECRET, 1);
    let a = t.create_input_signature(0, &SECRET, SighashType::All).unwrap();
    let b = t.create_input_signature(0, &SECRET, SighashType::SingleAnyOneCanPay).unwrap();
    assert_ne!(a, b);
    assert_eq!(b[65], 0x84);
    assert_eq!(SighashType::from_u8(0x82), Some(SighashType::NoOutputsAnyOneCanPay));
    assert_eq!(SighashType::from_u8(0x03), None);
}

#[test]
fn transaction_id_ignores_signatures() {
    let mut t = pending(&SECRET, 1);
    let before = t.id();
    t.sign_input(0, &SECRET, SighashType::All).unwrap();
    assert_eq!(t.id(), before);
    let other = pending(&SECRET, 2);
    assert_ne!(other.id(), before);
}

#[test]
fn sign_transaction_signs_and_verifies() {
    let p = pending(&SECRET, 2);
    let t = sign_transaction(p.transaction.clone(), &vec![SECRET], true).unwrap();
    assert!(t.inputs.iter().all(|i| i.signature_script.len() == 66));
    assert_eq!(t.outputs.len(), p.transaction.outputs.len());
    let r = sign_transaction(p.transaction.clone(), &vec![OTHER], true);
    assert!(matches!(r, Err(Error::InvalidSignature)));
    let t = sign_transaction(p.transaction.clone(), &vec![OTHER], false).unwrap();
    assert!(t.inputs.iter().all(|i| i.signature_script.is_empty()));
}

#[test]
fn sign_hash_frames_the_signature() {
    let s = sign_hash(&[5u8; 32], &SECRET).unwrap();
    assert_eq!(s.len(), 66);
    assert_eq!(s[0], 65);
    assert_eq!(s[65], 0x01);
    assert_eq!(sign_hash(&[5u8; 32], &SECRET).unwrap(), s);
    assert_ne!(sign_hash(&[6u8; 32], &SECRET).unwrap(), s);
    assert_eq!(sign_hash(&[5u8; 32], &[0u8; 32]), Err(Error::InvalidSecretKey));
}
