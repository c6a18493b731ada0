use kaspa_txkit::error::Error;
use kaspa_txkit::pskt::{Inner, Pskt, PsktInput, PsktOutput, Role};
use kaspa_txkit::mass::MassParams;
use kaspa_txkit::tx::{ScriptPublicKey, TransactionOutpoint};

const ROLES: [Role; 8] = [
    Role::NoOp,
    Role::Creator,
    Role::Constructor,
    Role::Updater,
    Role::Signer,
    Role::Combiner,
    Role::Finalizer,
    Role::Extractor,
];

fn listed(from: Role, populated: bool, to: Role) -> bool {
    matches!(
        (from, populated, to),
        (Role::NoOp, false, Role::Creator)
            | (Role::NoOp, true, Role::Constructor)
            | (Role::NoOp, true, Role::Updater)
            | (Role::NoOp, true, Role::Signer)
            | (Role::NoOp, true, Role::Combiner)
            | (Role::NoOp, true, Role::Finalizer)
            | (Role::NoOp, true, Role::Extractor)
            | (Role::Creator, _, Role::Constructor)
            | (Role::Constructor, _, Role::Updater)
            | (Role::Constructor, _, Role::Signer)
            | (Role::Constructor, _, Role::Combiner)
            | (Role::Updater, _, Role::Signer)
            | (Role::Updater, _, Role::Combiner)
            | (Role::Signer, _, Role::Combiner)
            | (Role::Combiner, _, Role::Signer)
            | (Role::Combiner, _, Role::Finalizer)
            | (Role::Finalizer, _, Role::Extractor)
    )
}

fn input(tag: u8) -> PsktInput {
    PsktInput {
        utxo_entry: None,
        previous_outpoint: TransactionOutpoint { transaction_id: [tag; 32], index: 1 },
        sequence: None,
        sig_op_count: None,
        redeem_script: None,
        final_script_sig: Some(vec![1, 2, 3]),
    }
}

fn populated() -> Inner {
    let mut inner = Inner::empty();
    inner.inputs.push(input(4));
    inner.outputs.push(PsktOutput {
        amount: 5_000,
        script_public_key: ScriptPublicKey::new(0, vec![0x20; 34]),
    });
    inner
}

fn in_role(role: Role, payload: bool) -> Pskt {
    Pskt {
        role,
        inner: if payload || role != Role::NoOp { Some(populated()) } else { None },
    }
}

#[test]
fn every_unlisted_transition_is_a_state_error() {
    for from in ROLES {
        for payload in [false, true] {
            for to in ROLES {
                let r = in_role(from, payload).change_role(to);
                let populated = payload || from != Role::NoOp;
                if listed(from, populated, to) {
                    let p = r.unwrap();
                    assert_eq!(p.role, to);
                } else {
                    assert!(matches!(r, Err(Error::State { attempted, actual }) if attempted == to && actual == from));
                }
            }
        }
    }
}

#[test]
fn fresh_pskt_cannot_skip_the_creator() {
    let r = Pskt::new().to_constructor();
    assert!(matches!(
        r,
        Err(Error::State { attempted: Role::Constructor, actual: Role::NoOp })
    ));
}

#[test]
fn creator_to_signer_flow() {
    let p = Pskt::new().creator().unwrap();
    assert_eq!(p.role_name(), "Creator");
    let p = p.fallback_lock_time(77).unwrap().inputs_modifiable().unwrap().outputs_modifiable().unwrap();
    let p = p.to_constructor().unwrap();
    let p = p.input(input(1)).unwrap().input(input(2)).unwrap();
    let p = p
        .output(PsktOutput { amount: 10, script_public_key: ScriptPublicKey::new(0, vec![1, 2]) })
        .unwrap();
    let p = p.no_more_inputs().unwrap().no_more_outputs().unwrap();
    let inner = p.inner.as_ref().unwrap();
    assert_eq!(inner.global.fallback_lock_time, Some(77));
    assert!(!inner.global.inputs_modifiable);
    assert_eq!(inner.inputs.len(), 2);
    let p = p.to_updater().unwrap().set_sequence(9, 1).unwrap();
    assert_eq!(p.inner.as_ref().unwrap().inputs[1].sequence, Some(9));
    let p = p.to_signer().unwrap();
    let id1 = p.calculate_id().unwrap();
    let id2 = p.calculate_id().unwrap();
    assert_eq!(id1, id2);
    assert_ne!(id1, [0u8; 32]);
}

#[test]
fn role_specific_operations_check_the_role() {
    let p = Pskt::new().creator().unwrap();
    let r = p.input(input(1));
    assert!(matches!(
        r,
        Err(Error::ExpectedState { expected: Role::Constructor, actual: Role::Creator })
    ));
    let p = in_role(Role::Constructor, true);
    assert!(matches!(
        p.fallback_lock_time(1),
        Err(Error::ExpectedState { expected: Role::Creator, actual: Role::Constructor })
    ));
    let p = in_role(Role::Updater, true);
    assert!(matches!(p.set_sequence(1, 5), Err(Error::SequenceOutOfRange)));
    let p = in_role(Role::Combiner, true);
    assert!(matches!(
        p.calculate_id(),
        Err(Error::ExpectedState { expected: Role::Signer, actual: Role::Combiner })
    ));
}

#[test]
fn finalizer_needs_final_scripts() {
    let mut inner = populated();
    inner.inputs[0].final_script_sig = None;
    let p = Pskt { role: Role::Finalizer, inner: Some(inner) };
    assert!(matches!(p.to_extractor(), Err(Error::NotFinalized)));
    let p = Pskt { role: Role::Finalizer, inner: Some(populated()) };
    assert_eq!(p.to_extractor().unwrap().role, Role::Extractor);
}

#[test]
fn mass_estimate_uses_full_length_placeholders() {
    let params = MassParams {
        mass_per_tx_byte: 1,
        mass_per_script_pub_key_byte: 10,
        mass_per_sig_op: 1000,
        storage_mass_parameter: 0,
        fee_per_mass: 1,
        maximum_standard_mass: 100_000,
        minimum_change: 0,
    };
    let p = Pskt::from_inner(populated());
    let m = p.calculate_mass(&params).unwrap();
    // 94 blank + (53 + 66) + 1000 for the input + (18 + 34) + (2 + 34) * 10 for the output.
    assert_eq!(m, 94 + 1119 + 412);
    assert_eq!(p.role, Role::NoOp);
    let p = in_role(Role::Signer, true);
    assert!(matches!(
        p.calculate_mass(&params),
        Err(Error::State { attempted: Role::Finalizer, actual: Role::Signer })
    ));
    let mut inner = populated();
    inner.inputs[0].redeem_script = Some(vec![1]);
    let p = Pskt::from_inner(inner);
    assert!(matches!(p.calculate_mass(&params), Err(Error::RedeemScriptNotSupported)));
}
