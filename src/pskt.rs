//! The role-based state machine of a partially signed transaction: each role
//! may change the transaction in its own way, and roles follow each other in
//! a fixed order.

use vstd::prelude::*;
use crate::crypto::transaction_id_hash;
use crate::encode::{encode_transaction, transaction_bytes};
use crate::error::Error;
use crate::mass::{calculate_compute_mass, compute_mass, MassParams};
use crate::tx::{is_native_subnetwork, ScriptPublicKey, Transaction, TransactionInput, TransactionOutpoint, TransactionOutput, UtxoEntry};

verus! {

/// The role that a partially signed transaction is in.
#[derive(Clone, Copy, Debug, PartialEq, Eq, Structural)]
pub enum Role {
    NoOp,
    Creator,
    Constructor,
    Updater,
    Signer,
    Combiner,
    Finalizer,
    Extractor,
}

/// Whether a transaction in role `from` may move to role `to`; `populated`
/// tells whether it carries a transaction.
pub open spec fn transition_allowed(from: Role, populated: bool, to: Role) -> bool {
    match from {
        Role::NoOp => if populated {
            to != Role::NoOp && to != Role::Creator
        } else {
            to == Role::Creator
        },
        Role::Creator => to == Role::Constructor,
        Role::Constructor => to == Role::Updater || to == Role::Signer || to == Role::Combiner,
        Role::Updater => to == Role::Signer || to == Role::Combiner,
        Role::Signer => to == Role::Combiner,
        Role::Combiner => to == Role::Signer || to == Role::Finalizer,
        Role::Finalizer => to == Role::Extractor,
        Role::Extractor => false,
    }
}

/// Fields that hold for the whole transaction.
#[derive(Clone, Debug)]
pub struct PsktGlobal {
    pub version: u16,
    pub tx_version: u16,
    pub fallback_lock_time: Option<u64>,
    pub inputs_modifiable: bool,
    pub outputs_modifiable: bool,
    pub payload: Option<Vec<u8>>,
}

/// An input, with what the roles attach to it.
#[derive(Clone, Debug)]
pub struct PsktInput {
    pub utxo_entry: Option<UtxoEntry>,
    pub previous_outpoint: TransactionOutpoint,
    pub sequence: Option<u64>,
    pub sig_op_count: Option<u8>,
    pub redeem_script: Option<Vec<u8>>,
    pub final_script_sig: Option<Vec<u8>>,
}

/// An output.
#[derive(Clone, Debug)]
pub struct PsktOutput {
    pub amount: u64,
    pub script_public_key: ScriptPublicKey,
}

/// The transaction in progress that the roles hand to each other.
#[derive(Clone, Debug)]
pub struct Inner {
    pub global: PsktGlobal,
    pub inputs: Vec<PsktInput>,
    pub outputs: Vec<PsktOutput>,
}

impl Inner {
    /// What a creator starts from: version zero, nothing modifiable, no
    /// inputs and no outputs.
    pub open spec fn is_empty_start(&self) -> bool {
        &&& self.global.version == 0
        &&& self.global.tx_version == 0
        &&& self.global.fallback_lock_time is None
        &&& !self.global.inputs_modifiable
        &&& !self.global.outputs_modifiable
        &&& self.global.payload is None
        &&& self.inputs@.len() == 0
        &&& self.outputs@.len() == 0
    }

    pub fn empty() -> (r: Inner)
        ensures
            r.is_empty_start(),
    {
        Inner {
            global: PsktGlobal {
                version: 0,
                tx_version: 0,
                fallback_lock_time: None,
                inputs_modifiable: false,
                outputs_modifiable: false,
                payload: None,
            },
            inputs: Vec::new(),
            outputs: Vec::new(),
        }
    }
}

/// A partially signed transaction: its role and what it carries.
#[derive(Clone, Debug)]
pub struct Pskt {
    pub role: Role,
    pub inner: Option<Inner>,
}

/// The sequence number an input gets when none was set.
pub open spec fn sequence_of(i: PsktInput) -> u64 {
    match i.sequence {
        Some(s) => s,
        None => u64::MAX,
    }
}

pub open spec fn sig_op_count_of(i: PsktInput) -> u8 {
    match i.sig_op_count {
        Some(n) => n,
        None => 1,
    }
}

/// `t` is the transaction that `inner` describes, each input with the
/// signature script that `script_for(placeholder)` gives.
pub open spec fn describes(t: Transaction, inner: Inner, placeholder: bool) -> bool {
    &&& t.version == inner.global.tx_version
    &&& t.lock_time == match inner.global.fallback_lock_time {
        Some(l) => l,
        None => 0,
    }
    &&& is_native_subnetwork(t.subnetwork_id)
    &&& t.gas == 0
    &&& t.payload@ == match inner.global.payload {
        Some(p) => p@,
        None => Seq::empty(),
    }
    &&& t.inputs@.len() == inner.inputs@.len()
    &&& forall|i: int|
        0 <= i < t.inputs@.len() ==> {
            let a = #[trigger] t.inputs@[i];
            let b = inner.inputs@[i];
            &&& a.previous_outpoint == b.previous_outpoint
            &&& a.sequence == sequence_of(b)
            &&& a.sig_op_count == sig_op_count_of(b)
            &&& same_entry(a.utxo, b.utxo_entry)
            &&& a.signature_script@ == script_for(placeholder)
        }
    &&& t.outputs@.len() == inner.outputs@.len()
    &&& forall|i: int|
        0 <= i < t.outputs@.len() ==> {
            let a = #[trigger] t.outputs@[i];
            let b = inner.outputs@[i];
            &&& a.value == b.amount
            &&& a.script_public_key.version == b.script_public_key.version
            &&& a.script_public_key.script@ == b.script_public_key.script@
        }
}

/// Both absent, or both present with the same fields.
pub open spec fn same_entry(a: Option<UtxoEntry>, b: Option<UtxoEntry>) -> bool {
    match (a, b) {
        (Some(x), Some(y)) => x.same_as(y),
        (None, None) => true,
        _ => false,
    }
}

/// An empty signature script, or a stand-in of the full length of a single
/// Schnorr signature script.
pub open spec fn script_for(placeholder: bool) -> Seq<u8> {
    if placeholder {
        Seq::new(66, |k: int| 0u8)
    } else {
        Seq::empty()
    }
}

/// The transaction that `inner` describes, each input with the signature
/// script `placeholder` gives it, or none.
fn transaction_of(inner: &Inner, placeholder: bool) -> (t: Transaction)
    ensures
        describes(t, *inner, placeholder),
{
    let mut inputs: Vec<TransactionInput> = Vec::new();
    let mut i: usize = 0;
    while i < inner.inputs.len()
        invariant
            i <= inner.inputs@.len(),
            inputs@.len() == i,
            forall|k: int|
                0 <= k < i ==> {
                    let a = #[trigger] inputs@[k];
                    let b = inner.inputs@[k];
                    &&& a.previous_outpoint == b.previous_outpoint
                    &&& a.sequence == sequence_of(b)
                    &&& a.sig_op_count == sig_op_count_of(b)
                    &&& same_entry(a.utxo, b.utxo_entry)
                    &&& a.signature_script@ == script_for(placeholder)
                },
        decreases inner.inputs.len() - i,
    {
        let b = &inner.inputs[i];
        let mut script: Vec<u8> = Vec::new();
        if placeholder {
            let mut k: usize = 0;
            while k < 66
                invariant
                    k <= 66,
                    script@ == Seq::new(k as nat, |j: int| 0u8),
                decreases 66 - k,
            {
                script.push(0u8);
                k += 1;
                assert(script@ =~= Seq::new(k as nat, |j: int| 0u8));
            }
        }
        assert(script@ =~= script_for(placeholder));
        let utxo = match &b.utxo_entry {
            Some(u) => Some(u.duplicate()),
            None => None,
        };
        inputs.push(
            TransactionInput {
                previous_outpoint: b.previous_outpoint,
                signature_script: script,
                sequence: match b.sequence {
                    Some(s) => s,
                    None => u64::MAX,
                },
                sig_op_count: match b.sig_op_count {
                    Some(n) => n,
                    None => 1,
                },
                utxo,
            },
        );
        i += 1;
    }
    let mut outputs: Vec<TransactionOutput> = Vec::new();
    let mut j: usize = 0;
    while j < inner.outputs.len()
        invariant
            j <= inner.outputs@.len(),
            outputs@.len() == j,
            forall|k: int|
                0 <= k < j ==> {
                    let a = #[trigger] outputs@[k];
                    let b = inner.outputs@[k];
                    &&& a.value == b.amount
                    &&& a.script_public_key.version == b.script_public_key.version
                    &&& a.script_public_key.script@ == b.script_public_key.script@
                },
        decreases inner.outputs.len() - j,
    {
        let b = &inner.outputs[j];
        outputs.push(TransactionOutput::new(b.amount, b.script_public_key.duplicate()));
        j += 1;
    }
    let payload = match &inner.global.payload {
        Some(p) => p.clone(),
        None => Vec::new(),
    };
    Transaction {
        version: inner.global.tx_version,
        inputs,
        outputs,
        lock_time: match inner.global.fallback_lock_time {
            Some(l) => l,
            None => 0,
        },
        subnetwork_id: [0u8; 20],
        gas: 0,
        payload,
        mass: 0,
    }
}

impl Pskt {
    /// A role other than the first always carries a transaction.
    pub open spec fn wf(&self) -> bool {
        self.role != Role::NoOp ==> self.inner is Some
    }

    pub open spec fn populated(&self) -> bool {
        self.inner is Some
    }

    /// Every input carries its final signature script.
    pub open spec fn finalized(&self) -> bool {
        self.inner matches Some(inner) && forall|i: int|
            0 <= i < inner.inputs@.len() ==> (#[trigger] inner.inputs@[i]).final_script_sig is Some
    }

    /// A new transaction with no payload: in the first role, carrying nothing.
    pub fn new() -> (r: Pskt)
        ensures
            r.wf(),
            r.role == Role::NoOp,
            r.inner is None,
    {
        Pskt { role: Role::NoOp, inner: None }
    }

    /// A transaction received from another party, in the first role, ready
    /// to resume at any later one.
    pub fn from_inner(inner: Inner) -> (r: Pskt)
        ensures
            r.wf(),
            r.role == Role::NoOp,
            r.inner == Some(inner),
    {
        Pskt { role: Role::NoOp, inner: Some(inner) }
    }

    /// The name of the current role.
    pub fn role_name(&self) -> (r: String)
        ensures
            r@ == role_name_spec(self.role),
    {
        match self.role {
            Role::NoOp => String::from_str("NoOp"),
            Role::Creator => String::from_str("Creator"),
            Role::Constructor => String::from_str("Constructor"),
            Role::Updater => String::from_str("Updater"),
            Role::Signer => String::from_str("Signer"),
            Role::Combiner => String::from_str("Combiner"),
            Role::Finalizer => String::from_str("Finalizer"),
            Role::Extractor => String::from_str("Extractor"),
        }
    }

    /// Moves to role `to`, consuming this value. A move that the table of
    /// `transition_allowed` does not list fails with `State`, naming both
    /// roles; moving a finalizer whose inputs are not all finalized to the
    /// extractor fails with `NotFinalized`. A creator starts from an empty
    /// transaction; every other move keeps what is carried.
    pub fn change_role(self, to: Role) -> (r: Result<Pskt, Error>)
        requires
            self.wf(),
        ensures
            self.change_role_spec(to, r),
    {
        let allowed = match self.role {
            Role::NoOp => match &self.inner {
                Some(_) => to != Role::NoOp && to != Role::Creator,
                None => to == Role::Creator,
            },
            Role::Creator => to == Role::Constructor,
            Role::Constructor => to == Role::Updater || to == Role::Signer || to == Role::Combiner,
            Role::Updater => to == Role::Signer || to == Role::Combiner,
            Role::Signer => to == Role::Combiner,
            Role::Combiner => to == Role::Signer || to == Role::Finalizer,
            Role::Finalizer => to == Role::Extractor,
            Role::Extractor => false,
        };
        if !allowed {
            return Err(Error::State { attempted: to, actual: self.role });
        }
        if self.role == Role::Finalizer && !self.is_finalized() {
            return Err(Error::NotFinalized);
        }
        if to == Role::Creator {
            return Ok(Pskt { role: Role::Creator, inner: Some(Inner::empty()) });
        }
        Ok(Pskt { role: to, inner: self.inner })
    }

    /// Whether every input carries its final signature script.
    pub fn is_finalized(&self) -> (r: bool)
        ensures
            r == self.finalized(),
    {
        match &self.inner {
            Some(inner) => {
                let mut i: usize = 0;
                while i < inner.inputs.len()
                    invariant
                        self.inner == Some(*inner),
                        i <= inner.inputs@.len(),
                        forall|k: int|
                            0 <= k < i ==> (#[trigger] inner.inputs@[k]).final_script_sig is Some,
                    decreases inner.inputs.len() - i,
                {
                    if inner.inputs[i].final_script_sig.is_none() {
                        assert(!(inner.inputs@[i as int].final_script_sig is Some));
                        return false;
                    }
                    i += 1;
                }
                true
            },
            None => false,
        }
    }

    /// Begins a brand-new transaction.
    pub fn creator(self) -> (r: Result<Pskt, Error>)
        requires
            self.wf(),
        ensures
            self.change_role_spec(Role::Creator, r),
    {
        self.change_role(Role::Creator)
    }

    pub fn to_constructor(self) -> (r: Result<Pskt, Error>)
        requires
            self.wf(),
        ensures
            self.change_role_spec(Role::Constructor, r),
    {
        self.change_role(Role::Constructor)
    }

    pub fn to_updater(self) -> (r: Result<Pskt, Error>)
        requires
            self.wf(),
        ensures
            self.change_role_spec(Role::Updater, r),
    {
        self.change_role(Role::Updater)
    }

    pub fn to_signer(self) -> (r: Result<Pskt, Error>)
        requires
            self.wf(),
        ensures
            self.change_role_spec(Role::Signer, r),
    {
        self.change_role(Role::Signer)
    }

    pub fn to_combiner(self) -> (r: Result<Pskt, Error>)
        requires
            self.wf(),
        ensures
            self.change_role_spec(Role::Combiner, r),
    {
        self.change_role(Role::Combiner)
    }

    pub fn to_finalizer(self) -> (r: Result<Pskt, Error>)
        requires
            self.wf(),
        ensures
            self.change_role_spec(Role::Finalizer, r),
    {
        self.change_role(Role::Finalizer)
    }

    pub fn to_extractor(self) -> (r: Result<Pskt, Error>)
        requires
            self.wf(),
        ensures
            self.change_role_spec(Role::Extractor, r),
    {
        self.change_role(Role::Extractor)
    }

    /// What `change_role(to)` promises of its result `r`.
    pub open spec fn change_role_spec(self, to: Role, r: Result<Pskt, Error>) -> bool {
        &&& !transition_allowed(self.role, self.populated(), to) ==> r == Err::<Pskt, Error>(
            Error::State { attempted: to, actual: self.role },
        )
        &&& transition_allowed(self.role, self.populated(), to) && self.role == Role::Finalizer
            && !self.finalized() ==> r == Err::<Pskt, Error>(Error::NotFinalized)
        &&& transition_allowed(self.role, self.populated(), to) && (self.role != Role::Finalizer
            || self.finalized()) ==> (r matches Ok(p) && p.wf() && p.role == to && if to
            == Role::Creator {
            p.inner matches Some(i) && i.is_empty_start()
        } else {
            p.inner == self.inner
        })
    }
}

impl Pskt {
    /// `r` keeps the role, and what is carried becomes `f` of what was.
    pub open spec fn updated(self, role: Role, r: Result<Pskt, Error>, f: spec_fn(Inner) -> Inner) -> bool {
        if self.role != role {
            r == Err::<Pskt, Error>(Error::ExpectedState { expected: role, actual: self.role })
        } else {
            r matches Ok(p) && p.role == role && p.wf() && (p.inner matches Some(i)
                && self.inner matches Some(o) && i == f(o))
        }
    }

    /// Sets the lock time that applies when no input asks for another.
    /// Only a creator may.
    pub fn fallback_lock_time(self, lock_time: u64) -> (r: Result<Pskt, Error>)
        requires
            self.wf(),
        ensures
            self.updated(
                Role::Creator,
                r,
                |o: Inner|
                    Inner {
                        global: PsktGlobal { fallback_lock_time: Some(lock_time), ..o.global },
                        ..o
                    },
            ),
    {
        if self.role != Role::Creator {
            return Err(Error::ExpectedState { expected: Role::Creator, actual: self.role });
        }
        match self.inner {
            Some(mut inner) => {
                inner.global.fallback_lock_time = Some(lock_time);
                Ok(Pskt { role: Role::Creator, inner: Some(inner) })
            },
            None => Err(Error::NotInitialized),
        }
    }

    /// Lets later parties add inputs. Only a creator may.
    pub fn inputs_modifiable(self) -> (r: Result<Pskt, Error>)
        requires
            self.wf(),
        ensures
            self.updated(
                Role::Creator,
                r,
                |o: Inner| Inner { global: PsktGlobal { inputs_modifiable: true, ..o.global }, ..o },
            ),
    {
        if self.role != Role::Creator {
            return Err(Error::ExpectedState { expected: Role::Creator, actual: self.role });
        }
        match self.inner {
            Some(mut inner) => {
                inner.global.inputs_modifiable = true;
                Ok(Pskt { role: Role::Creator, inner: Some(inner) })
            },
            None => Err(Error::NotInitialized),
        }
    }

    /// Lets later parties add outputs. Only a creator may.
    pub fn outputs_modifiable(self) -> (r: Result<Pskt, Error>)
        requires
            self.wf(),
        ensures
            self.updated(
                Role::Creator,
                r,
                |o: Inner| Inner { global: PsktGlobal { outputs_modifiable: true, ..o.global }, ..o },
            ),
    {
        if self.role != Role::Creator {
            return Err(Error::ExpectedState { expected: Role::Creator, actual: self.role });
        }
        match self.inner {
            Some(mut inner) => {
                inner.global.outputs_modifiable = true;
                Ok(Pskt { role: Role::Creator, inner: Some(inner) })
            },
            None => Err(Error::NotInitialized),
        }
    }

    /// Closes the inputs to further additions. Only a constructor may.
    pub fn no_more_inputs(self) -> (r: Result<Pskt, Error>)
        requires
            self.wf(),
        ensures
            self.updated(
                Role::Constructor,
                r,
                |o: Inner| Inner { global: PsktGlobal { inputs_modifiable: false, ..o.global }, ..o },
            ),
    {
        if self.role != Role::Constructor {
            return Err(Error::ExpectedState { expected: Role::Constructor, actual: self.role });
        }
        match self.inner {
            Some(mut inner) => {
                inner.global.inputs_modifiable = false;
                Ok(Pskt { role: Role::Constructor, inner: Some(inner) })
            },
            None => Err(Error::NotInitialized),
        }
    }

    /// Closes the outputs to further additions. Only a constructor may.
    pub fn no_more_outputs(self) -> (r: Result<Pskt, Error>)
        requires
            self.wf(),
        ensures
            self.updated(
                Role::Constructor,
                r,
                |o: Inner| Inner { global: PsktGlobal { outputs_modifiable: false, ..o.global }, ..o },
            ),
    {
        if self.role != Role::Constructor {
            return Err(Error::ExpectedState { expected: Role::Constructor, actual: self.role });
        }
        match self.inner {
            Some(mut inner) => {
                inner.global.outputs_modifiable = false;
                Ok(Pskt { role: Role::Constructor, inner: Some(inner) })
            },
            None => Err(Error::NotInitialized),
        }
    }

    /// Adds an input at the end. Only a constructor may.
    pub fn input(self, input: PsktInput) -> (r: Result<Pskt, Error>)
        requires
            self.wf(),
        ensures
            self.role != Role::Constructor ==> r == Err::<Pskt, Error>(
                Error::ExpectedState { expected: Role::Constructor, actual: self.role },
            ),
            self.role == Role::Constructor ==> (r matches Ok(p) && p.role == Role::Constructor
                && p.wf() && (p.inner matches Some(i) && self.inner matches Some(o) && i.global
                == o.global && i.outputs == o.outputs && i.inputs@ == o.inputs@.push(input))),
    {
        if self.role != Role::Constructor {
            return Err(Error::ExpectedState { expected: Role::Constructor, actual: self.role });
        }
        match self.inner {
            Some(mut inner) => {
                inner.inputs.push(input);
                Ok(Pskt { role: Role::Constructor, inner: Some(inner) })
            },
            None => Err(Error::NotInitialized),
        }
    }

    /// Adds an output at the end. Only a constructor may.
    pub fn output(self, output: PsktOutput) -> (r: Result<Pskt, Error>)
        requires
            self.wf(),
        ensures
            self.role != Role::Constructor ==> r == Err::<Pskt, Error>(
                Error::ExpectedState { expected: Role::Constructor, actual: self.role },
            ),
            self.role == Role::Constructor ==> (r matches Ok(p) && p.role == Role::Constructor
                && p.wf() && (p.inner matches Some(i) && self.inner matches Some(o) && i.global
                == o.global && i.inputs == o.inputs && i.outputs@ == o.outputs@.push(output))),
    {
        if self.role != Role::Constructor {
            return Err(Error::ExpectedState { expected: Role::Constructor, actual: self.role });
        }
        match self.inner {
            Some(mut inner) => {
                inner.outputs.push(output);
                Ok(Pskt { role: Role::Constructor, inner: Some(inner) })
            },
            None => Err(Error::NotInitialized),
        }
    }

    /// Sets the sequence number of input `input_index`. Only an updater may.
    pub fn set_sequence(self, n: u64, input_index: usize) -> (r: Result<Pskt, Error>)
        requires
            self.wf(),
        ensures
            self.role != Role::Updater ==> r == Err::<Pskt, Error>(
                Error::ExpectedState { expected: Role::Updater, actual: self.role },
            ),
            self.role == Role::Updater && input_index >= self.inner->0.inputs@.len() ==> r == Err::<
                Pskt,
                Error,
            >(Error::SequenceOutOfRange),
            self.role == Role::Updater && input_index < self.inner->0.inputs@.len() ==> (r matches Ok(
                p,
            ) && p.role == Role::Updater && p.wf() && (p.inner matches Some(i) && self.inner matches Some(
                o,
            ) && i.global == o.global && i.outputs == o.outputs && i.inputs@ == o.inputs@.update(
                input_index as int,
                PsktInput { sequence: Some(n), ..o.inputs@[input_index as int] },
            ))),
    {
        if self.role != Role::Updater {
            return Err(Error::ExpectedState { expected: Role::Updater, actual: self.role });
        }
        match self.inner {
            Some(mut inner) => {
                if input_index >= inner.inputs.len() {
                    return Err(Error::SequenceOutOfRange);
                }
                let ghost before = inner.inputs@;
                inner.inputs[input_index].sequence = Some(n);
                assert(inner.inputs@ =~= before.update(
                    input_index as int,
                    PsktInput { sequence: Some(n), ..before[input_index as int] },
                ));
                Ok(Pskt { role: Role::Updater, inner: Some(inner) })
            },
            None => Err(Error::NotInitialized),
        }
    }

    /// The id of the transaction carried, without signature scripts. Only a
    /// signer may ask, once the shape of the transaction is settled.
    pub fn calculate_id(&self) -> (r: Result<[u8; 32], Error>)
        requires
            self.wf(),
        ensures
            self.role != Role::Signer ==> r == Err::<[u8; 32], Error>(
                Error::ExpectedState { expected: Role::Signer, actual: self.role },
            ),
            self.role == Role::Signer ==> (r matches Ok(id) && exists|t: Transaction|
                describes(t, self.inner->0, false) && id@ == transaction_id_hash(
                    #[trigger] transaction_bytes(t),
                )),
    {
        if self.role != Role::Signer {
            return Err(Error::ExpectedState { expected: Role::Signer, actual: self.role });
        }
        match &self.inner {
            Some(inner) => {
                let t = transaction_of(inner, false);
                let id = crate::crypto::hash_transaction_id(&encode_transaction(&t));
                assert(describes(t, self.inner->0, false) && id@ == transaction_id_hash(
                    transaction_bytes(t),
                ));
                Ok(id)
            },
            None => Err(Error::NotInitialized),
        }
    }

    /// The mass that the transaction will have once finalized, estimated on a
    /// copy whose inputs carry stand-in signature scripts of full length. The
    /// value itself is left as it is. Only a state that may move to the
    /// finalizer may ask; inputs with a redeem script are not supported.
    pub fn calculate_mass(&self, params: &MassParams) -> (r: Result<u64, Error>)
        requires
            self.wf(),
        ensures
            !transition_allowed(self.role, self.populated(), Role::Finalizer) ==> r == Err::<
                u64,
                Error,
            >(Error::State { attempted: Role::Finalizer, actual: self.role }),
            transition_allowed(self.role, self.populated(), Role::Finalizer) && (exists|i: int|
                0 <= i < self.inner->0.inputs@.len()
                    && (#[trigger] self.inner->0.inputs@[i]).redeem_script is Some) ==> r == Err::<
                u64,
                Error,
            >(Error::RedeemScriptNotSupported),
            r matches Ok(m) ==> exists|t: Transaction|
                describes(t, self.inner->0, true) && m == #[trigger] compute_mass(*params, t, Some(1)),
            transition_allowed(self.role, self.populated(), Role::Finalizer) && (forall|i: int|
                0 <= i < self.inner->0.inputs@.len()
                    ==> (#[trigger] self.inner->0.inputs@[i]).redeem_script is None) ==> forall|
                t: Transaction,
            |
                describes(t, self.inner->0, true) ==> (r is Ok <==> #[trigger] compute_mass(
                    *params,
                    t,
                    Some(1),
                ) <= u64::MAX),
    {
        let allowed = match self.role {
            Role::NoOp => self.inner.is_some(),
            Role::Combiner => true,
            _ => false,
        };
        if !allowed {
            return Err(Error::State { attempted: Role::Finalizer, actual: self.role });
        }
        let inner = match &self.inner {
            Some(inner) => inner,
            None => {
                return Err(Error::NotInitialized);
            },
        };
        let mut i: usize = 0;
        while i < inner.inputs.len()
            invariant
                self.inner == Some(*inner),
                transition_allowed(self.role, self.populated(), Role::Finalizer),
                i <= inner.inputs@.len(),
                forall|k: int| 0 <= k < i ==> (#[trigger] inner.inputs@[k]).redeem_script is None,
            decreases inner.inputs.len() - i,
        {
            if inner.inputs[i].redeem_script.is_some() {
                return Err(Error::RedeemScriptNotSupported);
            }
            i += 1;
        }
        let t = transaction_of(inner, true);
        proof {
            assert forall|t2: Transaction| describes(t2, self.inner->0, true) implies #[trigger] compute_mass(
                *params,
                t2,
                Some(1),
            ) == compute_mass(*params, t, Some(1)) by {
                crate::mass::lemma_inputs_mass_same(*params, t2.inputs@, t.inputs@, 1);
                crate::mass::lemma_outputs_mass_same(*params, t2.outputs@, t.outputs@);
            }
        }
        match calculate_compute_mass(params, &t, 1) {
            Ok(m) => {
                assert(describes(t, self.inner->0, true) && m == compute_mass(*params, t, Some(1)));
                Ok(m)
            },
            Err(e) => Err(e),
        }
    }
}

pub open spec fn role_name_spec(r: Role) -> Seq<char> {
    match r {
        Role::NoOp => "NoOp"@,
        Role::Creator => "Creator"@,
        Role::Constructor => "Constructor"@,
        Role::Updater => "Updater"@,
        Role::Signer => "Signer"@,
        Role::Combiner => "Combiner"@,
        Role::Finalizer => "Finalizer"@,
        Role::Extractor => "Extractor"@,
    }
}

/// A transaction made without a payload must become a creator before any
/// other role: no other move is open to it.
pub proof fn lemma_fresh_needs_creator(to: Role)
    requires
        to != Role::Creator,
    ensures
        !transition_allowed(Role::NoOp, false, to),
{
}

} // verus!
