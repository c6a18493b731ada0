use kaspa_txkit::codec::{decode, encode};
use kaspa_txkit::error::Error;
use kaspa_txkit::pskt::{Inner, Pskt, PsktInput, PsktOutput, Role};
use kaspa_txkit::tx::{ScriptPublicKey, TransactionOutpoint, UtxoEntry};

fn sample() -> Pskt {
    let mut inner = Inner::empty();
    inner.global.tx_version = 3;
    inner.global.fallback_lock_time = Some(0x0102_0304_0506_0708);
    inner.global.inputs_modifiable = true;
    inner.global.payload = Some(vec![0xde, 0xad]);
    inner.inputs.push(PsktInput {
        utxo_entry: Some(UtxoEntry::new(
            TransactionOutpoint { transaction_id: [7; 32], index: 513 },
            u64::MAX,
            ScriptPublicKey::new(0x1234, vec![0x20, 1, 2, 0xac]),
            99,
            true,
        )),
        previous_outpoint: TransactionOutpoint { transaction_id: [7; 32], index: 513 },
        sequence: Some(5),
        sig_op_count: Some(2),
        redeem_script: None,
        final_script_sig: Some(vec![]),
    });
    inner.inputs.push(PsktInput {
        utxo_entry: None,
        previous_outpoint: TransactionOutpoint { transaction_id: [8; 32], index: 0 },
        sequence: None,
        sig_op_count: None,
        redeem_script: Some(vec![1, 2, 3]),
        final_script_sig: None,
    });
    inner.outputs.push(PsktOutput { amount: 42, script_public_key: ScriptPublicKey::new(0, vec![9; 34]) });
    Pskt { role: Role::Combiner, inner: Some(inner) }
}

#[test]
fn encode_decode_encode_is_byte_identical() {
    for p in [sample(), Pskt::new(), Pskt::from_inner(Inner::empty()), Pskt::new().creator().unwrap()] {
        let bytes = encode(&p);
        let q = decode(&bytes).unwrap();
        assert_eq!(encode(&q), bytes);
        assert_eq!(q.role, p.role);
    }
}

#[test]
fn decoded_state_keeps_every_field() {
    let q = decode(&encode(&sample())).unwrap();
    let inner = q.inner.unwrap();
    assert_eq!(inner.global.tx_version, 3);
    assert_eq!(inner.global.fallback_lock_time, Some(0x0102_0304_0506_0708));
    assert!(inner.global.inputs_modifiable);
    assert_eq!(inner.global.payload, Some(vec![0xde, 0xad]));
    let u = inner.inputs[0].utxo_entry.as_ref().unwrap();
    assert_eq!(u.amount, u64::MAX);
    assert_eq!(u.outpoint.index, 513);
    assert_eq!(u.script_public_key.version, 0x1234);
    assert_eq!(u.script_public_key.script, vec![0x20, 1, 2, 0xac]);
    assert!(u.is_coinbase);
    assert_eq!(inner.inputs[0].sig_op_count, Some(2));
    assert_eq!(inner.inputs[0].final_script_sig, Some(vec![]));
    assert_eq!(inner.inputs[1].redeem_script, Some(vec![1, 2, 3]));
    assert_eq!(inner.inputs[1].previous_outpoint.transaction_id, [8; 32]);
    assert_eq!(inner.outputs[0].amount, 42);
}

#[test]
fn encoding_layout() {
    assert_eq!(encode(&Pskt::new()), vec![0, 0]);
    let bytes = encode(&Pskt::from_inner(Inner::empty()));
    assert_eq!(bytes[0], 0);
    assert_eq!(bytes[1], 1);
    assert_eq!(bytes.len(), 2 + 2 + 2 + 1 + 1 + 1 + 1 + 8 + 8);
}

#[test]
fn malformed_documents_are_refused() {
    let mut bytes = encode(&sample());
    bytes.push(0);
    assert!(matches!(decode(&bytes), Err(Error::Serialization)));
    let mut bytes = encode(&sample());
    bytes[0] = 8;
    assert!(matches!(decode(&bytes), Err(Error::Serialization)));
    let mut bytes = encode(&sample());
    bytes.truncate(bytes.len() - 1);
    assert!(matches!(decode(&bytes), Err(Error::Serialization)));
    assert!(matches!(decode(&vec![]), Err(Error::Serialization)));
    assert!(matches!(decode(&vec![2, 0]), Err(Error::Serialization)));
    assert!(matches!(decode(&vec![0, 2]), Err(Error::Serialization)));
}
