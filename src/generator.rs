//! Selects unspent outputs to pay a set of outputs and fees, producing one or
//! more chained transactions that each stay under the mass limit.

use vstd::prelude::*;
use crate::error::Error;
use crate::mass::{
    base_mass, compute_mass, inputs_mass, output_mass, output_mass_of, outputs_mass, unsigned_input_mass,
    MassParams,
};
use crate::pending::{spent_entries, PendingTransaction};
use crate::tx::{
    entries_total, inputs_for, outputs_for, outputs_total, pays_in_order, payments_total,
    spends_in_order, total_amount, PaymentOutput, ScriptPublicKey, Transaction,
    TransactionOutpoint, TransactionOutput, UtxoEntry,
};

verus! {

/// What a generator has produced so far.
#[derive(Clone, Debug)]
pub struct GeneratorSummary {
    pub network_type: String,
    /// The number of entries consumed.
    pub aggregated_utxos: usize,
    pub aggregate_fees: u64,
    pub number_of_generated_transactions: usize,
    /// What the final transaction pays, or `None` for a sweep or before it exists.
    pub final_transaction_amount: Option<u64>,
    pub final_transaction_id: Option<[u8; 32]>,
}

/// The output masses of the payments, summed.
pub open spec fn payments_mass(p: MassParams, s: Seq<PaymentOutput>) -> int
    decreases s.len(),
{
    if s.len() == 0 {
        0
    } else {
        payments_mass(p, s.drop_last()) + output_mass_of(
            p,
            s.last().script_public_key.script@.len() as int,
        )
    }
}

/// A generator of transactions. Entries are taken in order, the priority
/// entries first, and never reordered.
pub struct Generator {
    pub params: MassParams,
    pub entries: Vec<UtxoEntry>,
    pub cursor: usize,
    /// The payments, or `None` for a sweep of everything to the change script.
    pub payments: Option<Vec<PaymentOutput>>,
    pub payment_total: u64,
    pub payments_mass: u64,
    pub change: ScriptPublicKey,
    pub change_mass: u64,
    pub input_mass: u64,
    pub payload: Vec<u8>,
    pub base_mass: u64,
    pub batch_base_mass: u64,
    pub priority_fee: u64,
    pub sig_op_count: u8,
    pub minimum_signatures: u16,
    /// The output of the last batch transaction, spent first by the next one.
    pub carry: Option<UtxoEntry>,
    pub finished: bool,
    /// What the final transaction pays out, its change included.
    pub delivered: u64,
    pub summary: GeneratorSummary,
}

/// Two sequences of entries with the same fields, position by position.
pub open spec fn same_entries(a: Seq<UtxoEntry>, b: Seq<UtxoEntry>) -> bool {
    a.len() == b.len() && forall|i: int| 0 <= i < a.len() ==> (#[trigger] a[i]).same_as(b[i])
}

/// The spent entries of a run's transactions that came from the source, in
/// order: each transaction's inputs, less the carried batch output it spends
/// first, where it spends one. `first_carried` tells whether the first
/// transaction spends one.
pub open spec fn source_spent(txs: Seq<PendingTransaction>, first_carried: bool) -> Seq<UtxoEntry>
    decreases txs.len(),
{
    if txs.len() == 0 {
        Seq::empty()
    } else {
        let spent = spent_entries(txs.last().transaction.inputs@);
        source_spent(txs.drop_last(), first_carried) + if txs.len() > 1 || first_carried {
            spent.drop_first()
        } else {
            spent
        }
    }
}

/// Whether some entry of `s` has the outpoint `o`.
pub open spec fn outpoint_in(s: Seq<UtxoEntry>, o: TransactionOutpoint) -> bool {
    exists|j: int| 0 <= j < s.len() && (#[trigger] s[j]).outpoint == o
}

/// The entries of `s` in order, each outpoint kept at its first occurrence
/// only.
pub open spec fn first_occurrences(s: Seq<UtxoEntry>) -> Seq<UtxoEntry>
    decreases s.len(),
{
    if s.len() == 0 {
        Seq::empty()
    } else {
        let kept = first_occurrences(s.drop_last());
        if outpoint_in(kept, s.last().outpoint) {
            kept
        } else {
            kept.push(s.last())
        }
    }
}

/// The priority entries, then the others, each outpoint once.
pub open spec fn source_entries(priority: Option<Vec<UtxoEntry>>, entries: Seq<UtxoEntry>) -> Seq<
    UtxoEntry,
> {
    first_occurrences(
        match priority {
            Some(p) => p@,
            None => Seq::empty(),
        } + entries,
    )
}

/// Whether the settings of a generator fit in 64 bits: the amounts of the
/// entries and of the payments, their count, and the mass of each part; and
/// whether every payment is worth something.
pub open spec fn settings_fit(
    params: MassParams,
    entries: Seq<UtxoEntry>,
    outputs: Option<Vec<PaymentOutput>>,
    change: ScriptPublicKey,
    sig_op_count: u8,
    minimum_signatures: u16,
    payload_len: int,
) -> bool {
    &&& entries.len() < usize::MAX
    &&& entries_total(entries) <= u64::MAX
    &&& match outputs {
        Some(ps) => {
            &&& payments_total(ps@) <= u64::MAX
            &&& payments_mass(params, ps@) <= u64::MAX
            &&& forall|i: int| 0 <= i < ps@.len() ==> (#[trigger] ps@[i]).amount > 0
        },
        None => true,
    }
    &&& unsigned_input_mass(params, sig_op_count as int, minimum_signatures as int) <= u64::MAX
    &&& output_mass_of(params, change.script@.len() as int) <= u64::MAX
    &&& base_mass(params, payload_len) <= u64::MAX
    &&& base_mass(params, 0) <= u64::MAX
}

fn same_outpoint(a: &TransactionOutpoint, b: &TransactionOutpoint) -> (r: bool)
    ensures
        r == (*a == *b),
{
    if a.index != b.index {
        return false;
    }
    let mut k: usize = 0;
    while k < 32
        invariant
            k <= 32,
            forall|j: int| 0 <= j < k ==> a.transaction_id@[j] == b.transaction_id@[j],
        decreases 32 - k,
    {
        if a.transaction_id[k] != b.transaction_id[k] {
            return false;
        }
        k += 1;
    }
    assert(a.transaction_id@ =~= b.transaction_id@);
    assert(a.transaction_id == b.transaction_id);
    true
}

fn has_outpoint(kept: &Vec<UtxoEntry>, o: &TransactionOutpoint) -> (r: bool)
    ensures
        r == outpoint_in(kept@, *o),
{
    let mut j: usize = 0;
    while j < kept.len()
        invariant
            j <= kept@.len(),
            forall|k: int| 0 <= k < j ==> kept@[k].outpoint != *o,
        decreases kept.len() - j,
    {
        if same_outpoint(&kept[j].outpoint, o) {
            return true;
        }
        j += 1;
    }
    false
}

/// `all` with each outpoint kept at its first occurrence only.
fn keep_first_occurrences(all: &Vec<UtxoEntry>) -> (r: Vec<UtxoEntry>)
    ensures
        same_entries(r@, first_occurrences(all@)),
{
    let mut kept: Vec<UtxoEntry> = Vec::new();
    let mut i: usize = 0;
    assert(all@.subrange(0, 0) =~= Seq::<UtxoEntry>::empty());
    while i < all.len()
        invariant
            i <= all@.len(),
            same_entries(kept@, first_occurrences(all@.subrange(0, i as int))),
        decreases all.len() - i,
    {
        let ghost pre = all@.subrange(0, i as int);
        let ghost spec_kept = first_occurrences(pre);
        assert(all@.subrange(0, i + 1).drop_last() =~= pre);
        let e = &all[i];
        let found = has_outpoint(&kept, &e.outpoint);
        assert(found == outpoint_in(spec_kept, e.outpoint)) by {
            if found {
                let j = choose|j: int| 0 <= j < kept@.len() && (#[trigger] kept@[j]).outpoint == e.outpoint;
                assert(spec_kept[j].outpoint == e.outpoint);
            }
            if outpoint_in(spec_kept, e.outpoint) {
                let j = choose|j: int| 0 <= j < spec_kept.len() && (#[trigger] spec_kept[j]).outpoint == e.outpoint;
                assert(kept@[j].outpoint == e.outpoint);
            }
        }
        if !found {
            let ghost before = kept@;
            kept.push(e.duplicate());
            assert(kept@.drop_last() =~= before);
        }
        i += 1;
    }
    assert(all@.subrange(0, i as int) =~= all@);
    kept
}

/// How settling the fee of a final transaction ended.
enum Settled {
    /// The transaction, its mass, its fee and its change.
    Done(Transaction, u64, u64, u64),
    /// The inputs do not cover the payments and the fee.
    Short,
    /// The transaction is over the mass limit.
    TooHeavy,
}

/// The amounts of a sequence of entries.
pub open spec fn entry_amounts(s: Seq<UtxoEntry>) -> Seq<u64> {
    s.map_values(|e: UtxoEntry| e.amount)
}

/// The amounts of a sequence of payments.
pub open spec fn payment_amounts(s: Seq<PaymentOutput>) -> Seq<u64> {
    s.map_values(|p: PaymentOutput| p.amount)
}

/// Two generators with the same settings.
pub open spec fn same_settings(a: Generator, b: Generator) -> bool {
    &&& a.params == b.params
    &&& a.entries == b.entries
    &&& a.payments == b.payments
    &&& a.payment_total == b.payment_total
    &&& a.payments_mass == b.payments_mass
    &&& a.change == b.change
    &&& a.change_mass == b.change_mass
    &&& a.input_mass == b.input_mass
    &&& a.payload == b.payload
    &&& a.base_mass == b.base_mass
    &&& a.batch_base_mass == b.batch_base_mass
    &&& a.priority_fee == b.priority_fee
    &&& a.sig_op_count == b.sig_op_count
    &&& a.minimum_signatures == b.minimum_signatures
}

impl Generator {
    /// The output of the last batch, if one is still to be spent.
    pub open spec fn carried_seq(&self) -> Seq<UtxoEntry> {
        match self.carry {
            Some(c) => seq![c],
            None => Seq::empty(),
        }
    }

    /// What a step that ends at `cursor` spends, in order: the carried
    /// output first, then the entries from where the step began.
    pub open spec fn spent_by_step(&self, cursor: int) -> Seq<UtxoEntry> {
        self.carried_seq() + self.entries@.subrange(self.cursor as int, cursor)
    }

    pub open spec fn carried(&self) -> int {
        match self.carry {
            Some(c) => c.amount as int,
            None => 0,
        }
    }

    /// What the entries consumed so far held.
    pub open spec fn consumed(&self) -> int {
        entries_total(self.entries@.subrange(0, self.cursor as int))
    }

    pub open spec fn wf(&self) -> bool {
        &&& self.params.wf()
        &&& self.cursor <= self.entries@.len() < usize::MAX
        &&& entries_total(self.entries@) <= u64::MAX
        &&& match self.payments {
            Some(ps) => {
                &&& self.payment_total == payments_total(ps@)
                &&& self.payments_mass == payments_mass(self.params, ps@)
                &&& forall|i: int| 0 <= i < ps@.len() ==> (#[trigger] ps@[i]).amount > 0
            },
            None => self.payment_total == 0 && self.payments_mass == 0,
        }
        &&& self.change_mass == output_mass_of(self.params, self.change.script@.len() as int)
        &&& self.input_mass == unsigned_input_mass(
            self.params,
            self.sig_op_count as int,
            self.minimum_signatures as int,
        )
        &&& self.base_mass == base_mass(self.params, self.payload@.len() as int)
        &&& self.batch_base_mass == base_mass(self.params, 0)
        &&& self.consumed() == self.summary.aggregate_fees + self.carried() + self.delivered
        &&& self.summary.aggregated_utxos == self.cursor
        &&& self.summary.number_of_generated_transactions <= self.cursor + if self.finished {
            1int
        } else {
            0
        }
        &&& !self.finished ==> self.delivered == 0
    }

    /// A measure that every step that yields something lowers.
    pub open spec fn remaining(&self) -> int {
        2 * (self.entries@.len() - self.cursor) + if self.finished {
            0int
        } else {
            1
        }
    }

    /// The mass of a transaction with `n` inputs and the chosen outputs.
    pub open spec fn shape_mass(&self, n: int, final_tx: bool, with_change: bool) -> int {
        (if final_tx {
            self.base_mass as int
        } else {
            self.batch_base_mass as int
        }) + n * self.input_mass + (if final_tx {
            self.payments_mass as int
        } else {
            0
        }) + (if with_change {
            self.change_mass as int
        } else {
            0
        })
    }

    /// A transaction built from `n` selected entries, the payments (on a
    /// final transaction) and perhaps a change output has the mass of its shape.
    proof fn lemma_shape_is_compute_mass(
        &self,
        tx: Transaction,
        selected: Seq<UtxoEntry>,
        paid: Seq<TransactionOutput>,
        with_change: bool,
    )
        requires
            self.wf(),
            spends_in_order(tx.inputs@, selected, self.sig_op_count),
            tx.payload@.len() == 0 || tx.payload@ == self.payload@,
            tx.payload@.len() == 0 ==> paid.len() == 0 || self.payload@.len() == 0,
            paid.len() > 0 ==> (self.payments matches Some(ps) && pays_in_order(paid, ps@)),
            with_change ==> tx.outputs@.len() == paid.len() + 1 && tx.outputs@.drop_last() == paid
                && tx.outputs@.last().script_public_key.script@ == self.change.script@,
            !with_change ==> tx.outputs@ == paid,
        ensures
            compute_mass(self.params, tx, Some(self.minimum_signatures as int)) == (if tx.payload@.len()
                == self.payload@.len() {
                self.base_mass as int
            } else {
                self.batch_base_mass as int
            }) + selected.len() * self.input_mass + (if paid.len() > 0 {
                self.payments_mass as int
            } else {
                0
            }) + (if with_change {
                self.change_mass as int
            } else {
                0
            }),
    {
        lemma_uniform_inputs_mass(
            self.params,
            tx.inputs@,
            selected,
            self.sig_op_count,
            self.minimum_signatures as int,
        );
        if paid.len() > 0 {
            let ps = self.payments->0;
            lemma_paid_outputs_mass(self.params, paid, ps@);
        } else {
            assert(outputs_mass(self.params, paid) == 0);
        }
        if with_change {
            assert(tx.outputs@ =~= paid.push(tx.outputs@.last()));
            crate::mass::lemma_outputs_mass_grows(self.params, paid, tx.outputs@.last());
        }
    }

    /// The mass of the shape, or `None` when it is past every limit.
    fn shape_mass_exec(&self, n: usize, final_tx: bool, with_change: bool) -> (r: Option<u64>)
        ensures
            r matches Some(v) ==> v == self.shape_mass(n as int, final_tx, with_change),
            r is None ==> self.shape_mass(n as int, final_tx, with_change) > u64::MAX,
    {
        assert(n * self.input_mass <= usize::MAX * u64::MAX) by (nonlinear_arith)
            requires
                n <= usize::MAX,
                self.input_mass <= u64::MAX,
        ;
        assert(0 <= n * self.input_mass) by (nonlinear_arith);
        let base = if final_tx {
            self.base_mass
        } else {
            self.batch_base_mass
        };
        let pay = if final_tx {
            self.payments_mass
        } else {
            0
        };
        let chg = if with_change {
            self.change_mass
        } else {
            0
        };
        let t = (n as u128) * (self.input_mass as u128) + base as u128;
        match t.checked_add(pay as u128 + chg as u128) {
            Some(v) => if v <= u64::MAX as u128 {
                Some(v as u64)
            } else {
                None
            },
            None => None,
        }
    }

    /// Ends the run with an error. Whatever this step selected is let go: the
    /// generator stays where the step began.
    fn fail(&mut self, e: Error) -> (r: Option<Result<PendingTransaction, Error>>)
        requires
            old(self).wf(),
            !old(self).finished,
        ensures
            r == Some(Err::<PendingTransaction, Error>(e)),
            final(self).finished,
            *final(self) == (Generator { finished: true, ..*old(self) }),
            same_settings(*final(self), *old(self)),
            final(self).wf(),
    {
        self.finished = true;
        Some(Err(e))
    }

    /// The next transaction: a batch that gathers inputs when the payments
    /// cannot be covered within the mass limit yet, or the final one. `None`
    /// once the run is over; an error ends it. It fails with `MassExceeded`
    /// only when a transaction of the step would be over the mass limit, and
    /// with `InsufficientFunds` only when the funds left do not suffice.
    #[verifier::rlimit(100)]
    pub fn next(&mut self) -> (r: Option<Result<PendingTransaction, Error>>)
        requires
            old(self).wf(),
        ensures
            final(self).wf(),
            old(self).finished ==> r is None && *final(self) == *old(self),
            !old(self).finished ==> r is Some && final(self).remaining() < old(self).remaining(),
            final(self).params == old(self).params,
            final(self).entries == old(self).entries,
            final(self).payments == old(self).payments,
            final(self).minimum_signatures == old(self).minimum_signatures,
            same_settings(*final(self), *old(self)),
            old(self).cursor <= final(self).cursor,
            r matches Some(Err(_)) ==> final(self).finished && final(self).cursor == old(self).cursor
                && final(self).summary == old(self).summary && final(self).carry == old(self).carry,
            r matches Some(Err(e)) ==> e == Error::MassExceeded || e == Error::InsufficientFunds,
            r == Some(Err::<PendingTransaction, Error>(Error::MassExceeded)) ==> old(
                self,
            ).mass_blocked(),
            r == Some(Err::<PendingTransaction, Error>(Error::InsufficientFunds)) ==> !old(
                self,
            ).funds_suffice(),
            r matches Some(Ok(p)) ==> {
                &&& p.balanced()
                &&& !p.is_batch ==> final(self).summary.final_transaction_id is Some
                &&& same_entries(
                    spent_entries(p.transaction.inputs@),
                    old(self).spent_by_step(final(self).cursor as int),
                )
                &&& p.mass == crate::mass::overall_mass(
                    final(self).params,
                    p.transaction,
                    final(self).minimum_signatures as int,
                )
                &&& p.mass <= final(self).params.maximum_standard_mass
                &&& crate::mass::fee_for_mass(final(self).params, p.mass as int) + (if p.is_batch {
                    0
                } else {
                    old(self).priority_fee as int
                }) <= p.fee_amount
                &&& !p.is_batch ==> old(self).final_shape(p)
                &&& !p.is_batch && p.change_amount > 0 ==> p.fee_amount == crate::mass::fee_for_mass(
                    final(self).params,
                    p.mass as int,
                ) + old(self).priority_fee
                &&& p.is_batch ==> old(self).batch_shape(p)
                &&& p.is_batch ==> p.fee_amount <= old(self).fee_ceiling() && final(self).cursor > old(
                    self,
                ).cursor
                &&& final(self).summary.aggregate_fees == old(self).summary.aggregate_fees
                    + p.fee_amount
                &&& final(self).summary.number_of_generated_transactions == old(
                    self,
                ).summary.number_of_generated_transactions + 1
                &&& p.is_batch == !final(self).finished
                &&& !p.is_batch ==> final(self).delivered == p.aggregate_output_amount
                    && final(self).carry is None
                &&& p.is_batch ==> (final(self).carry matches Some(c) && c.amount
                    == p.aggregate_output_amount)
            },
    {
        if self.finished {
            return None;
        }
        let ghost fees0 = self.summary.aggregate_fees;
        let sweep = self.payments.is_none();
        let mut selected: Vec<UtxoEntry> = Vec::new();
        let mut total: u64 = 0;
        match &self.carry {
            Some(c) => {
                selected.push(c.duplicate());
                total = c.amount;
                assert(selected@.drop_last() =~= Seq::<UtxoEntry>::empty());
                assert(entries_total(selected@.drop_last()) == 0);
            },
            None => {},
        }
        assert(selected@.len() == 0 ==> selected@ =~= Seq::<UtxoEntry>::empty());
        assert(self.entries@.subrange(self.cursor as int, self.cursor as int) =~= Seq::<UtxoEntry>::empty());
        assert(self.spent_by_step(self.cursor as int) =~= self.carried_seq());
        proof {
            crate::tx::lemma_entries_total_prefix_grows(self.entries@, self.cursor as int);
        }
        let start = self.cursor;
        let mut cursor = self.cursor;
        let threshold: u64 = if self.params.minimum_change > 0 {
            self.params.minimum_change
        } else {
            1
        };
        loop
            invariant
                *self == *old(self),
                self.wf(),
                !self.finished,
                self.cursor == start,
                start <= cursor <= self.entries@.len(),
                sweep == self.payments is None,
                threshold == self.change_threshold(),
                fees0 == self.summary.aggregate_fees,
                total == entries_total(selected@),
                same_entries(selected@, self.spent_by_step(cursor as int)),
                selected@.len() <= cursor - start + 1,
                self.carry is Some ==> selected@.len() >= 1,
                cursor > start ==> selected@.len() >= 2 || (self.carry is None && selected@.len()
                    >= 1),
                entries_total(self.entries@.subrange(0, cursor as int)) == self.summary.aggregate_fees
                    + total,
                total == self.carried() + entries_total(
                    self.entries@.subrange(start as int, cursor as int),
                ),
                cursor > start ==> self.shape_mass(selected@.len() as int, true, true)
                    <= self.params.maximum_standard_mass,
            decreases self.entries.len() + 1 - cursor,
        {
            proof {
                crate::tx::lemma_entries_total_prefix_grows(self.entries@, cursor as int);
                assert(self.spent_by_step(cursor as int).len() == selected@.len());
            }
            if !sweep && selected.len() > 0 {
                match self.shape_mass_exec(selected.len(), true, true) {
                    Some(m) => if m <= self.params.maximum_standard_mass {
                        assert(m * self.params.fee_per_mass <= self.params.maximum_standard_mass
                            * self.params.fee_per_mass) by (nonlinear_arith)
                            requires
                                m <= self.params.maximum_standard_mass,
                        ;
                        let fee = m * self.params.fee_per_mass;
                        let need = self.payment_total as u128 + fee as u128
                            + self.priority_fee as u128;
                        if total as u128 >= need {
                            match self.settle_final(&selected, total, fee + self.priority_fee) {
                                Settled::Done(tx, m2, f, c) => {
                                    let p = self.emit(tx, total, cursor, m2, f, c, true);
                                    return Some(Ok(p));
                                },
                                Settled::TooHeavy => {
                                    proof {
                                        let (t, ft, ch) = choose|t: Transaction, ft: bool, ch: Option<u64>|
                                            #[trigger] old(self).heavy_candidate(t, selected@, ft, ch);
                                        assert(old(self).heavy_candidate(t, selected@, ft, ch));
                                        assert(old(self).heavy_at(cursor as int));
                                    }
                                    return self.fail(Error::MassExceeded);
                                },
                                Settled::Short => {},
                            }
                        }
                    },
                    None => {},
                }
            }
            if cursor == self.entries.len() {
                proof {
                    assert(self.entries@.subrange(start as int, cursor as int) == self.entries@.subrange(
                        self.cursor as int,
                        self.entries@.len() as int,
                    ));
                }
                if selected.len() > 0 {
                    let heavy = match self.shape_mass_exec(selected.len(), true, true) {
                        Some(m) => m > self.params.maximum_standard_mass,
                        None => true,
                    };
                    if heavy {
                        assert(old(self).heavy_at(cursor as int));
                        return self.fail(Error::MassExceeded);
                    }
                    if sweep {
                        match self.shape_mass_exec(selected.len(), true, true) {
                            Some(m) => {
                                assert(m * self.params.fee_per_mass
                                    <= self.params.maximum_standard_mass * self.params.fee_per_mass)
                                    by (nonlinear_arith)
                                    requires
                                        m <= self.params.maximum_standard_mass,
                                ;
                                let fee = m * self.params.fee_per_mass;
                                if (total as u128) > (fee as u128) + (self.priority_fee as u128) {
                                    match self.settle_final(&selected, total, fee + self.priority_fee) {
                                        Settled::Done(tx, m2, f, c) => {
                                            let p = self.emit(tx, total, cursor, m2, f, c, true);
                                            return Some(Ok(p));
                                        },
                                        Settled::TooHeavy => {
                                            proof {
                                                let (t, ft, ch) = choose|
                                                    t: Transaction,
                                                    ft: bool,
                                                    ch: Option<u64>,
                                                | #[trigger] old(self).heavy_candidate(t, selected@, ft, ch);
                                                assert(old(self).heavy_candidate(t, selected@, ft, ch));
                                                assert(old(self).heavy_at(cursor as int));
                                            }
                                            return self.fail(Error::MassExceeded);
                                        },
                                        Settled::Short => {},
                                    }
                                }
                            },
                            None => {},
                        }
                    }
                }
                return self.fail(Error::InsufficientFunds);
            }
            let fits = match self.shape_mass_exec(selected.len() + 1, true, true) {
                Some(m) => m <= self.params.maximum_standard_mass,
                None => false,
            };
            if !fits {
                if cursor > start {
                    proof {
                        lemma_range_total_ge_first(self.entries@, start as int, cursor as int);
                    }
                    let ghost sel = selected@;
                    let r = self.batch(selected, total, cursor);
                    proof {
                        if r == Some(Err::<PendingTransaction, Error>(Error::MassExceeded)) {
                            let (t, ch) = choose|t: Transaction, ch: Option<u64>|
                                #[trigger] old(self).heavy_candidate(t, sel, false, ch);
                            assert(old(self).heavy_candidate(t, sel, false, ch));
                            assert(old(self).heavy_at(cursor as int));
                        }
                    }
                    return r;
                }
                assert(old(self).heavy_at(cursor + 1));
                return self.fail(Error::MassExceeded);
            }
            let e = self.entries[cursor].duplicate();
            assert(self.entries@.subrange(0, cursor + 1).drop_last() =~= self.entries@.subrange(
                0,
                cursor as int,
            ));
            assert(self.entries@.subrange(start as int, cursor + 1).drop_last()
                =~= self.entries@.subrange(start as int, cursor as int));
            let ghost before = selected@;
            proof {
                crate::tx::lemma_entries_total_prefix_grows(self.entries@, cursor + 1);
            }
            total = total + e.amount;
            selected.push(e);
            assert(selected@.drop_last() =~= before);
            assert(self.spent_by_step(cursor + 1) =~= self.spent_by_step(cursor as int).push(
                self.entries@[cursor as int],
            ));
            cursor += 1;
        }
    }

    /// The payments, none for a sweep.
    pub open spec fn payment_seq(&self) -> Seq<PaymentOutput> {
        match self.payments {
            Some(ps) => ps@,
            None => Seq::empty(),
        }
    }

    /// The smallest change that is paid out rather than left to the fee.
    pub open spec fn change_threshold(&self) -> u64 {
        if self.params.minimum_change > 0 {
            self.params.minimum_change
        } else {
            1
        }
    }

    /// `tx` spends `selected` in order, and pays, on a final transaction,
    /// the payments in order, then the change output if there is one; on a
    /// batch only the change output.
    pub open spec fn built(
        &self,
        tx: Transaction,
        selected: Seq<UtxoEntry>,
        final_tx: bool,
        change: Option<u64>,
    ) -> bool {
        let body = if change is Some {
            tx.outputs@.drop_last()
        } else {
            tx.outputs@
        };
        &&& spends_in_order(tx.inputs@, selected, self.sig_op_count)
        &&& if final_tx {
            pays_in_order(body, self.payment_seq()) && tx.payload@ == self.payload@
        } else {
            body.len() == 0 && tx.payload@.len() == 0
        }
        &&& change matches Some(c) ==> tx.outputs@.len() > 0 && tx.outputs@.last().value == c
            && tx.outputs@.last().script_public_key.version == self.change.version
            && tx.outputs@.last().script_public_key.script@ == self.change.script@
        &&& tx.version == 0 && tx.lock_time == 0 && crate::tx::is_native_subnetwork(tx.subnetwork_id)
            && tx.gas == 0
    }

    /// What the final transaction of a run holds: the payments in order, then
    /// the change when there is any, which is at least the threshold; without
    /// change the rest of the inputs goes to the fee. A sweep always has a
    /// change output and no payment amount.
    pub open spec fn final_shape(&self, p: PendingTransaction) -> bool {
        let outs = p.transaction.outputs@;
        let body = if p.change_amount > 0 {
            outs.drop_last()
        } else {
            outs
        };
        &&& !p.is_batch
        &&& pays_in_order(body, self.payment_seq())
        &&& p.change_amount > 0 ==> outs.len() > 0 && outs.last().value == p.change_amount
            && outs.last().script_public_key.version == self.change.version
            && outs.last().script_public_key.script@ == self.change.script@
            && p.change_amount >= self.change_threshold()
        &&& p.payment_amount == match self.payments {
            Some(_) => Some(self.payment_total),
            None => None::<u64>,
        }
        &&& p.aggregate_input_amount == self.payment_total + p.change_amount + p.fee_amount
        &&& self.payments is None ==> p.change_amount > 0
        &&& p.transaction.payload@ == self.payload@
    }

    /// What a batch holds: a single output, to the change script, worth its
    /// inputs less its fee.
    pub open spec fn batch_shape(&self, p: PendingTransaction) -> bool {
        let outs = p.transaction.outputs@;
        &&& p.is_batch
        &&& outs.len() == 1
        &&& outs[0].value == p.change_amount
        &&& p.change_amount == p.aggregate_input_amount - p.fee_amount
        &&& outs[0].script_public_key.version == self.change.version
        &&& outs[0].script_public_key.script@ == self.change.script@
        &&& p.payment_amount is None
        &&& p.transaction.payload@.len() == 0
    }

    /// The transaction that spends `selected` with the outputs `built` states.
    fn build(&self, selected: &Vec<UtxoEntry>, final_tx: bool, change: Option<u64>) -> (tx: Transaction)
        requires
            self.wf(),
            change matches Some(c) ==> c > 0,
        ensures
            self.built(tx, selected@, final_tx, change),
            tx.mass == 0,
            compute_mass(self.params, tx, Some(self.minimum_signatures as int)) == self.shape_mass(
                selected@.len() as int,
                final_tx,
                change is Some,
            ),
            crate::mass::mass_defined(tx),
            entries_total(spent_entries(tx.inputs@)) == entries_total(selected@),
            same_entries(spent_entries(tx.inputs@), selected@),
            outputs_total(tx.outputs@) == (if final_tx {
                self.payment_total as int
            } else {
                0
            }) + match change {
                Some(c) => c as int,
                None => 0,
            },
    {
        let mut outputs: Vec<TransactionOutput> = if final_tx {
            match &self.payments {
                Some(ps) => outputs_for(ps),
                None => Vec::new(),
            }
        } else {
            Vec::new()
        };
        let ghost body = outputs@;
        proof {
            if final_tx {
                lemma_pays_in_order_total_opt(body, self.payments);
            } else {
                assert(outputs_total(body) == 0);
            }
            assert(outputs_total(body) == if final_tx {
                self.payment_total as int
            } else {
                0
            });
            assert forall|i: int| 0 <= i < body.len() implies (#[trigger] body[i]).value != 0 by {
                assert(body[i].value == self.payment_seq()[i].amount);
            }
        }
        match change {
            Some(c) => {
                outputs.push(TransactionOutput::new(c, self.change.duplicate()));
                assert(outputs@.drop_last() =~= body);
                assert(outputs_total(outputs@) == outputs_total(body) + c);
            },
            None => {},
        }
        assert forall|i: int| 0 <= i < outputs@.len() implies (#[trigger] outputs@[i]).value != 0 by {
            if i < body.len() {
                assert(outputs@[i] == body[i]);
            }
        }
        let inputs = inputs_for(selected, self.sig_op_count);
        proof {
            lemma_spent_total(inputs@, selected@, self.sig_op_count);
        }
        let tx = Transaction {
            version: 0,
            inputs,
            outputs,
            lock_time: 0,
            subnetwork_id: [0u8; 20],
            gas: 0,
            payload: if final_tx {
                self.payload.clone()
            } else {
                Vec::new()
            },
            mass: 0,
        };
        proof {
            self.lemma_shape_is_compute_mass(tx, selected@, body, change is Some);
            if body.len() == 0 && final_tx && self.payments is Some {
                assert(self.payment_seq().len() == 0);
                assert(payments_mass(self.params, self.payment_seq()) == 0);
            }
        }
        tx
    }

    /// Records a transaction that the run emits and returns it.
    fn emit(
        &mut self,
        tx: Transaction,
        total: u64,
        cursor: usize,
        m: u64,
        fee: u64,
        change: u64,
        final_tx: bool,
    ) -> (p: PendingTransaction)
        requires
            old(self).wf(),
            !old(self).finished,
            old(self).cursor <= cursor <= old(self).entries@.len(),
            final_tx || old(self).cursor < cursor,
            entries_total(old(self).entries@.subrange(0, cursor as int))
                == old(self).summary.aggregate_fees + total,
            entries_total(spent_entries(tx.inputs@)) == total,
            crate::mass::inputs_resolved(tx.inputs@),
            outputs_total(tx.outputs@) + fee == total,
            fee <= total,
            !final_tx ==> change == total - fee,
        ensures
            final(self).wf(),
            final(self).finished == final_tx,
            final(self).cursor == cursor,
            final(self).params == old(self).params,
            final(self).entries == old(self).entries,
            final(self).payments == old(self).payments,
            final(self).minimum_signatures == old(self).minimum_signatures,
            p.transaction == (Transaction { mass: m, ..tx }),
            p.balanced(),
            p.is_batch == !final_tx,
            p.mass == m,
            p.fee_amount == fee,
            p.change_amount == change,
            p.aggregate_input_amount == total,
            p.payment_amount == if final_tx {
                match old(self).payments {
                    Some(_) => Some(old(self).payment_total),
                    None => None::<u64>,
                }
            } else {
                None::<u64>
            },
            final(self).summary.aggregate_fees == old(self).summary.aggregate_fees + fee,
            final(self).summary.number_of_generated_transactions == old(
                self,
            ).summary.number_of_generated_transactions + 1,
            same_settings(*final(self), *old(self)),
            final_tx ==> final(self).summary.final_transaction_id is Some,
            final_tx ==> final(self).delivered == p.aggregate_output_amount && final(self).carry is None,
            !final_tx ==> (final(self).carry matches Some(c) && c.amount == p.aggregate_output_amount
                && c.outpoint.index == 0 && c.script_public_key.script@ == old(self).change.script@),
    {
        proof {
            crate::tx::lemma_entries_total_prefix_grows(self.entries@, cursor as int);
        }
        let mut tx = tx;
        tx.mass = m;
        let p = PendingTransaction {
            transaction: tx,
            payment_amount: if final_tx {
                match &self.payments {
                    Some(_) => Some(self.payment_total),
                    None => None,
                }
            } else {
                None
            },
            change_amount: change,
            fee_amount: fee,
            mass: m,
            minimum_signatures: self.minimum_signatures,
            aggregate_input_amount: total,
            aggregate_output_amount: total - fee,
            is_batch: !final_tx,
        };
        let id = p.id();
        self.cursor = cursor;
        self.summary.aggregated_utxos = cursor;
        self.summary.aggregate_fees = self.summary.aggregate_fees + fee;
        self.summary.number_of_generated_transactions = self.summary.number_of_generated_transactions
            + 1;
        if final_tx {
            self.carry = None;
            self.finished = true;
            self.delivered = total - fee;
            self.summary.final_transaction_amount = match &self.payments {
                Some(_) => Some(self.payment_total),
                None => None,
            };
            self.summary.final_transaction_id = Some(id);
        } else {
            self.carry = Some(
                UtxoEntry::new(
                    TransactionOutpoint { transaction_id: id, index: 0 },
                    total - fee,
                    self.change.duplicate(),
                    0,
                    false,
                ),
            );
        }
        p
    }

    /// A transaction over `sel` that the generator could emit, and that
    /// fits by its compute mass but not by its whole mass: its change, if
    /// any, is what is left after at most the heaviest fee.
    pub open spec fn heavy_candidate(
        &self,
        t: Transaction,
        sel: Seq<UtxoEntry>,
        final_tx: bool,
        change: Option<u64>,
    ) -> bool {
        &&& self.built(t, sel, final_tx, change)
        &&& compute_mass(self.params, t, Some(self.minimum_signatures as int))
            <= self.params.maximum_standard_mass
        &&& change matches Some(c) ==> c + self.fee_ceiling() + (if final_tx {
            self.payment_total + self.priority_fee
        } else {
            0
        }) >= entries_total(sel)
        &&& crate::mass::overall_mass(self.params, t, self.minimum_signatures as int)
            > self.params.maximum_standard_mass
    }

    /// The step ending at `k` is over the mass limit: with its first entry
    /// the final transaction is over it by compute mass, or a transaction
    /// it could emit is over it by its storage mass.
    pub open spec fn heavy_at(&self, k: int) -> bool {
        ||| k <= self.cursor + 1 && self.shape_mass(
            self.carried_seq().len() + (k - self.cursor),
            true,
            true,
        ) > self.params.maximum_standard_mass
        ||| exists|t: Transaction, sel: Seq<UtxoEntry>, final_tx: bool, change: Option<u64>|
            same_entries(sel, self.spent_by_step(k)) && #[trigger] self.heavy_candidate(
                t,
                sel,
                final_tx,
                change,
            )
    }

    /// The next step is blocked by the mass limit at some point.
    pub open spec fn mass_blocked(&self) -> bool {
        exists|k: int| self.cursor <= k <= self.entries@.len() && #[trigger] self.heavy_at(k)
    }

    /// The whole mass of the final transaction over `selected` with a
    /// change output worth `c`.
    pub open spec fn final_mass_with(&self, selected: Seq<UtxoEntry>, c: u64) -> int {
        let compute = self.shape_mass(selected.len() as int, true, true);
        let storage = match crate::mass::storage_mass(
            entry_amounts(selected),
            payment_amounts(self.payment_seq()).push(c),
            self.params.storage_mass_parameter as int,
        ) {
            Some(m) => m,
            None => 0,
        };
        if compute >= storage {
            compute
        } else {
            storage
        }
    }

    /// A smaller change never makes the final transaction lighter.
    proof fn lemma_final_mass_monotone(&self, selected: Seq<UtxoEntry>, c1: u64, c2: u64)
        requires
            1 <= c1 <= c2,
        ensures
            self.final_mass_with(selected, c1) >= self.final_mass_with(selected, c2),
    {
        let pay = payment_amounts(self.payment_seq());
        let k = self.params.storage_mass_parameter as int;
        let o1 = pay.push(c1);
        let o2 = pay.push(c2);
        assert(o1.drop_last() =~= pay);
        assert(o2.drop_last() =~= pay);
        vstd::arithmetic::div_mod::lemma_div_is_ordered_by_denominator(k, c1 as int, c2 as int);
        assert((exists|i: int| 0 <= i < o1.len() && o1[i] == 0) == (exists|i: int|
            0 <= i < o2.len() && o2[i] == 0)) by {
            if exists|i: int| 0 <= i < o1.len() && o1[i] == 0 {
                let i = choose|i: int| 0 <= i < o1.len() && o1[i] == 0;
                assert(i < pay.len());
                assert(o2[i] == 0);
            }
            if exists|i: int| 0 <= i < o2.len() && o2[i] == 0 {
                let i = choose|i: int| 0 <= i < o2.len() && o2[i] == 0;
                assert(i < pay.len());
                assert(o1[i] == 0);
            }
        }
    }

    /// The final transaction that `build` makes with change `c` has the
    /// mass `final_mass_with` states.
    proof fn lemma_built_final_mass(&self, tx: Transaction, selected: Seq<UtxoEntry>, c: u64)
        requires
            self.wf(),
            self.built(tx, selected, true, Some(c)),
            compute_mass(self.params, tx, Some(self.minimum_signatures as int)) == self.shape_mass(
                selected.len() as int,
                true,
                true,
            ),
        ensures
            crate::mass::overall_mass(self.params, tx, self.minimum_signatures as int)
                == self.final_mass_with(selected, c),
    {
        let body = tx.outputs@.drop_last();
        assert(crate::mass::spent_amounts(tx.inputs@) =~= entry_amounts(selected)) by {
            assert forall|i: int| 0 <= i < selected.len() implies crate::mass::spent_amounts(
                tx.inputs@,
            )[i] == entry_amounts(selected)[i] by {
                assert(tx.inputs@[i].utxo->0.same_as(selected[i]));
            }
        }
        assert(crate::mass::output_values(tx.outputs@) =~= payment_amounts(self.payment_seq()).push(
            c,
        )) by {
            assert forall|i: int| 0 <= i < body.len() implies crate::mass::output_values(
                tx.outputs@,
            )[i] == payment_amounts(self.payment_seq())[i] by {
                assert(tx.outputs@[i] == body[i]);
            }
        }
    }

    /// The most fee that a transaction within the limit asks for.
    pub open spec fn fee_ceiling(&self) -> int {
        crate::mass::fee_for_mass(self.params, self.params.maximum_standard_mass as int)
    }

    /// The funds left are enough for any step: every entry left pays for
    /// the heaviest transaction on its own, and together with the carried
    /// output they pay the payments, the priority fee, the heaviest fee and
    /// the smallest change.
    pub open spec fn funds_suffice(&self) -> bool {
        &&& forall|i: int|
            self.cursor <= i < self.entries@.len() ==> (#[trigger] self.entries@[i]).amount
                > self.fee_ceiling()
        &&& self.carried() + entries_total(
            self.entries@.subrange(self.cursor as int, self.entries@.len() as int),
        ) >= self.payment_total + self.priority_fee + self.fee_ceiling() + self.change_threshold()
    }

    /// The funds left: the carried output and the entries from the cursor.
    pub open spec fn available(&self) -> int {
        self.carried() + entries_total(
            self.entries@.subrange(self.cursor as int, self.entries@.len() as int),
        )
    }

    /// A state that a run from `self` can be in before a step: same
    /// settings, no entry given back, no value gained.
    pub open spec fn may_reach(&self, g: Generator) -> bool {
        &&& g.wf()
        &&& same_settings(g, *self)
        &&& !g.finished
        &&& self.cursor <= g.cursor
        &&& g.cursor == self.cursor ==> g.carry == self.carry
        &&& g.available() <= self.available()
    }

    /// The funds left are enough for a whole run: every entry left pays for
    /// the heaviest transaction on its own, and together with the carried
    /// output they pay the payments, the priority fee, the smallest change,
    /// and the heaviest fee once for the final transaction and once for
    /// every entry left, which bounds the number of batches.
    pub open spec fn run_funds_suffice(&self) -> bool {
        &&& forall|i: int|
            self.cursor <= i < self.entries@.len() ==> (#[trigger] self.entries@[i]).amount
                > self.fee_ceiling()
        &&& self.carried() + entries_total(
            self.entries@.subrange(self.cursor as int, self.entries@.len() as int),
        ) >= self.payment_total + self.priority_fee + self.change_threshold() + (
        self.entries@.len() - self.cursor + 1) * self.fee_ceiling()
    }

    /// Settles the fee of the final transaction over `selected` on its mass,
    /// storage mass included, starting from `fee0`: the fee is raised to what
    /// the mass of the transaction with the change that remains asks for,
    /// until it covers it. Change below the threshold goes to the fee; a
    /// sweep, which has nothing else to pay, then falls short.
    fn settle_final(&self, selected: &Vec<UtxoEntry>, total: u64, fee0: u64) -> (r: Settled)
        requires
            self.wf(),
            total == entries_total(selected@),
            self.payment_total + fee0 <= total,
            fee0 <= self.fee_ceiling() + self.priority_fee,
            self.shape_mass(selected@.len() as int, true, true) <= self.params.maximum_standard_mass,
            fee0 == crate::mass::fee_for_mass(
                self.params,
                self.shape_mass(selected@.len() as int, true, true),
            ) + self.priority_fee,
        ensures
            r matches Settled::Done(tx, m, fee, change) ==> change > 0 ==> fee
                == crate::mass::fee_for_mass(self.params, m as int) + self.priority_fee,
            r matches Settled::Done(tx, m, fee, change) ==> {
                &&& self.built(
                    tx,
                    selected@,
                    true,
                    if change > 0 {
                        Some(change)
                    } else {
                        None
                    },
                )
                &&& crate::mass::mass_defined(tx)
                &&& tx.mass == 0
                &&& entries_total(spent_entries(tx.inputs@)) == total
                &&& same_entries(spent_entries(tx.inputs@), selected@)
                &&& outputs_total(tx.outputs@) == self.payment_total + change
                &&& self.payment_total + change + fee == total
                &&& m == crate::mass::overall_mass(self.params, tx, self.minimum_signatures as int)
                &&& m <= self.params.maximum_standard_mass
                &&& crate::mass::fee_for_mass(self.params, m as int) + self.priority_fee <= fee
                &&& change == 0 || change >= self.change_threshold()
                &&& self.payments is None ==> change > 0
            },
            r is Short ==> total < self.payment_total + self.priority_fee + self.fee_ceiling()
                + self.change_threshold(),
            r is TooHeavy ==> exists|t: Transaction, final_tx: bool, change: Option<u64>|
                #[trigger] self.heavy_candidate(t, selected@, final_tx, change),
    {
        let threshold: u64 = if self.params.minimum_change > 0 {
            self.params.minimum_change
        } else {
            1
        };
        let sweep = self.payments.is_none();
        let mut fee = fee0;
        proof {
            let c0 = total - self.payment_total - fee;
            if c0 >= 1 {
                let r = self.params.fee_per_mass as int;
                let m0 = self.shape_mass(selected@.len() as int, true, true);
                let m1 = self.final_mass_with(selected@, c0 as u64);
                assert(m0 * r <= m1 * r) by (nonlinear_arith)
                    requires
                        m0 <= m1,
                        r >= 0,
                ;
            }
        }
        loop
            invariant
                self.wf(),
                self.payment_total + fee <= total,
                fee <= self.fee_ceiling() + self.priority_fee,
                threshold == self.change_threshold(),
                sweep == self.payments is None,
                total == entries_total(selected@),
                self.shape_mass(selected@.len() as int, true, true) <= self.params.maximum_standard_mass,
                total - self.payment_total - fee >= 1 ==> fee <= crate::mass::fee_for_mass(
                    self.params,
                    self.final_mass_with(selected@, (total - self.payment_total - fee) as u64),
                ) + self.priority_fee,
            decreases total - fee,
        {
            let change = total - self.payment_total - fee;
            if change < threshold {
                if sweep {
                    return Settled::Short;
                }
                return self.settle_without_change(selected, total);
            }
            let tx = self.build(selected, true, Some(change));
            let m = match crate::mass::calculate_transaction_mass(
                &self.params,
                &tx,
                self.minimum_signatures,
            ) {
                Ok(m) => m,
                Err(_) => {
                    assert(self.heavy_candidate(tx, selected@, true, Some(change)));
                    return Settled::TooHeavy;
                },
            };
            if m > self.params.maximum_standard_mass {
                assert(self.heavy_candidate(tx, selected@, true, Some(change)));
                return Settled::TooHeavy;
            }
            assert(m * self.params.fee_per_mass <= self.params.maximum_standard_mass
                * self.params.fee_per_mass) by (nonlinear_arith)
                requires
                    m <= self.params.maximum_standard_mass,
            ;
            let need = (m * self.params.fee_per_mass) as u128 + self.priority_fee as u128;
            proof {
                self.lemma_built_final_mass(tx, selected@, change);
            }
            if need <= fee as u128 {
                assert(change > 0);
                return Settled::Done(tx, m, fee, change);
            }
            if self.payment_total as u128 + need > total as u128 {
                if sweep {
                    return Settled::Short;
                }
                return self.settle_without_change(selected, total);
            }
            let ghost old_change = change;
            fee = need as u64;
            proof {
                let c2 = total - self.payment_total - fee;
                if c2 >= 1 {
                    self.lemma_final_mass_monotone(selected@, c2 as u64, old_change);
                    let r = self.params.fee_per_mass as int;
                    let m1 = self.final_mass_with(selected@, old_change);
                    let m2 = self.final_mass_with(selected@, c2 as u64);
                    assert(m1 * r <= m2 * r) by (nonlinear_arith)
                        requires
                            m1 <= m2,
                            r >= 0,
                    ;
                }
            }
        }
    }

    /// The final transaction without change: everything the payments leave
    /// goes to the fee, which must cover the mass.
    fn settle_without_change(&self, selected: &Vec<UtxoEntry>, total: u64) -> (r: Settled)
        requires
            self.wf(),
            self.payments is Some,
            total == entries_total(selected@),
            self.payment_total <= total,
            self.shape_mass(selected@.len() as int, true, true) <= self.params.maximum_standard_mass,
        ensures
            r matches Settled::Done(tx, m, fee, change) ==> {
                &&& self.built(tx, selected@, true, None)
                &&& change == 0
                &&& crate::mass::mass_defined(tx)
                &&& tx.mass == 0
                &&& entries_total(spent_entries(tx.inputs@)) == total
                &&& same_entries(spent_entries(tx.inputs@), selected@)
                &&& outputs_total(tx.outputs@) == self.payment_total
                &&& self.payment_total + fee == total
                &&& m == crate::mass::overall_mass(self.params, tx, self.minimum_signatures as int)
                &&& m <= self.params.maximum_standard_mass
                &&& crate::mass::fee_for_mass(self.params, m as int) + self.priority_fee <= fee
            },
            r is Short ==> total < self.payment_total + self.priority_fee + self.fee_ceiling(),
            r is TooHeavy ==> exists|t: Transaction, final_tx: bool, change: Option<u64>|
                #[trigger] self.heavy_candidate(t, selected@, final_tx, change),
    {
        let tx = self.build(selected, true, None);
        let m = match crate::mass::calculate_transaction_mass(&self.params, &tx, self.minimum_signatures) {
            Ok(m) => m,
            Err(_) => {
                assert(self.heavy_candidate(tx, selected@, true, None));
                return Settled::TooHeavy;
            },
        };
        if m > self.params.maximum_standard_mass {
            assert(self.heavy_candidate(tx, selected@, true, None));
            return Settled::TooHeavy;
        }
        assert(m * self.params.fee_per_mass <= self.params.maximum_standard_mass
            * self.params.fee_per_mass) by (nonlinear_arith)
            requires
                m <= self.params.maximum_standard_mass,
        ;
        let need = (m * self.params.fee_per_mass) as u128 + self.priority_fee as u128;
        if need > (total - self.payment_total) as u128 {
            return Settled::Short;
        }
        Settled::Done(tx, m, total - self.payment_total, 0)
    }

    /// A batch: the selected inputs gathered into one output to the change
    /// script, worth their amount less a fee that covers the mass of the
    /// batch, storage mass included.
    fn batch(&mut self, selected: Vec<UtxoEntry>, total: u64, cursor: usize) -> (r: Option<
        Result<PendingTransaction, Error>,
    >)
        requires
            old(self).wf(),
            !old(self).finished,
            old(self).cursor < cursor <= old(self).entries@.len(),
            total == entries_total(selected@),
            same_entries(selected@, old(self).spent_by_step(cursor as int)),
            entries_total(old(self).entries@.subrange(0, cursor as int))
                == old(self).summary.aggregate_fees + total,
            selected@.len() >= 1,
            old(self).shape_mass(selected@.len() as int, true, true)
                <= old(self).params.maximum_standard_mass,
        ensures
            final(self).wf(),
            r is Some,
            final(self).remaining() < old(self).remaining(),
            final(self).params == old(self).params,
            final(self).entries == old(self).entries,
            final(self).payments == old(self).payments,
            final(self).minimum_signatures == old(self).minimum_signatures,
            same_settings(*final(self), *old(self)),
            old(self).cursor <= final(self).cursor,
            r matches Some(Err(e)) ==> final(self).finished && final(self).cursor == old(self).cursor
                && final(self).summary == old(self).summary && final(self).carry == old(self).carry
                && (e == Error::MassExceeded || e == Error::InsufficientFunds),
            r == Some(Err::<PendingTransaction, Error>(Error::MassExceeded)) ==> exists|
                t: Transaction,
                change: Option<u64>,
            | #[trigger] old(self).heavy_candidate(t, selected@, false, change),
            r == Some(Err::<PendingTransaction, Error>(Error::InsufficientFunds)) ==> total
                <= old(self).fee_ceiling(),
            r matches Some(Ok(p)) ==> {
                &&& p.balanced()
                &&& old(self).batch_shape(p)
                &&& same_entries(
                    spent_entries(p.transaction.inputs@),
                    old(self).spent_by_step(cursor as int),
                )
                &&& p.mass == crate::mass::overall_mass(
                    final(self).params,
                    p.transaction,
                    final(self).minimum_signatures as int,
                )
                &&& p.mass <= final(self).params.maximum_standard_mass
                &&& crate::mass::fee_for_mass(final(self).params, p.mass as int) <= p.fee_amount
                &&& p.fee_amount <= old(self).fee_ceiling()
                &&& !final(self).finished
                &&& final(self).cursor == cursor
                &&& final(self).summary.aggregate_fees == old(self).summary.aggregate_fees
                    + p.fee_amount
                &&& final(self).summary.number_of_generated_transactions == old(
                    self,
                ).summary.number_of_generated_transactions + 1
                &&& final(self).carry matches Some(c) && c.amount == p.aggregate_output_amount
                    && c.outpoint.index == 0
            },
    {
        proof {
            let len = self.payload@.len() as int;
            let rate = self.params.mass_per_tx_byte as int;
            assert((crate::mass::BLANK_TRANSACTION_SIZE + 0) * rate <= (
            crate::mass::BLANK_TRANSACTION_SIZE + len) * rate) by (nonlinear_arith)
                requires
                    len >= 0,
                    rate >= 0,
            ;
            assert(self.batch_base_mass <= self.base_mass);
            assert(self.shape_mass(selected@.len() as int, false, true) <= self.shape_mass(
                selected@.len() as int,
                true,
                true,
            ));
        }
        let mut fee: u64 = 0;
        loop
            invariant
                *self == *old(self),
                self.wf(),
                !self.finished,
                fee <= total,
                self.cursor < cursor <= self.entries@.len(),
                total == entries_total(selected@),
                same_entries(selected@, self.spent_by_step(cursor as int)),
                entries_total(self.entries@.subrange(0, cursor as int))
                    == self.summary.aggregate_fees + total,
                fee <= self.fee_ceiling(),
                self.shape_mass(selected@.len() as int, false, true) <= self.params.maximum_standard_mass,
            decreases total - fee,
        {
            if fee >= total {
                return self.fail(Error::InsufficientFunds);
            }
            let value = total - fee;
            let tx = self.build(&selected, false, Some(value));
            let m = match crate::mass::calculate_transaction_mass(
                &self.params,
                &tx,
                self.minimum_signatures,
            ) {
                Ok(m) => m,
                Err(_) => {
                    assert(old(self).heavy_candidate(tx, selected@, false, Some(value)));
                    return self.fail(Error::MassExceeded);
                },
            };
            if m > self.params.maximum_standard_mass {
                assert(old(self).heavy_candidate(tx, selected@, false, Some(value)));
                return self.fail(Error::MassExceeded);
            }
            assert(m * self.params.fee_per_mass <= self.params.maximum_standard_mass
                * self.params.fee_per_mass) by (nonlinear_arith)
                requires
                    m <= self.params.maximum_standard_mass,
            ;
            let need = m * self.params.fee_per_mass;
            if need <= fee {
                assert(tx.outputs@.drop_last().len() == 0);
                assert(tx.outputs@.len() == 1);
                let p = self.emit(tx, total, cursor, m, fee, value, false);
                return Some(Ok(p));
            }
            if need > total {
                return self.fail(Error::InsufficientFunds);
            }
            fee = need;
        }
    }
}

/// The fees of a sequence of transactions, summed.
pub open spec fn fees_total(s: Seq<PendingTransaction>) -> int
    decreases s.len(),
{
    if s.len() == 0 {
        0
    } else {
        fees_total(s.drop_last()) + s.last().fee_amount
    }
}

/// The input amounts of a sequence of transactions, summed.
pub open spec fn inputs_total(s: Seq<PendingTransaction>) -> int
    decreases s.len(),
{
    if s.len() == 0 {
        0
    } else {
        inputs_total(s.drop_last()) + s.last().aggregate_input_amount
    }
}

/// The output amounts of a sequence of transactions, summed.
pub open spec fn emitted_outputs_total(s: Seq<PendingTransaction>) -> int
    decreases s.len(),
{
    if s.len() == 0 {
        0
    } else {
        emitted_outputs_total(s.drop_last()) + s.last().aggregate_output_amount
    }
}

/// Over any sequence of balanced transactions, the outputs and the fees add
/// up to the amounts spent, with nothing left over.
pub proof fn lemma_transactions_balance(s: Seq<PendingTransaction>)
    requires
        forall|i: int| 0 <= i < s.len() ==> (#[trigger] s[i]).balanced(),
    ensures
        emitted_outputs_total(s) + fees_total(s) == inputs_total(s),
    decreases s.len(),
{
    if s.len() > 0 {
        lemma_transactions_balance(s.drop_last());
        assert(s.last().balanced());
    }
}

/// The value that a generator has taken in is accounted for: the entries it
/// consumed hold exactly the fees of every transaction it emitted, plus the
/// output of its last batch while that is still to be spent, plus what its
/// final transaction paid out.
pub proof fn lemma_value_conserved(g: Generator)
    requires
        g.wf(),
    ensures
        entries_total(g.entries@.subrange(0, g.cursor as int)) == g.summary.aggregate_fees
            + g.carried() + g.delivered,
        g.carry is None ==> entries_total(g.entries@.subrange(0, g.cursor as int))
            == g.summary.aggregate_fees + g.delivered,
{
}

/// The output masses of `payments` summed and their amounts summed, or the
/// error when either does not fit in 64 bits.
fn payments_sums(params: &MassParams, payments: &Vec<PaymentOutput>) -> (r: Result<(u64, u64), Error>)
    ensures
        match r {
            Ok((t, m)) => t == payments_total(payments@) && m == payments_mass(*params, payments@)
                && forall|i: int| 0 <= i < payments@.len() ==> (#[trigger] payments@[i]).amount > 0,
            Err(e) => (e == Error::AmountOverflow && payments_total(payments@) > u64::MAX) || (e
                == Error::MassExceeded && payments_mass(*params, payments@) > u64::MAX) || (e
                == Error::ZeroOutputAmount && exists|i: int|
                0 <= i < payments@.len() && (#[trigger] payments@[i]).amount == 0),
        },
{
    let mut t: u64 = 0;
    let mut m: u64 = 0;
    let mut i: usize = 0;
    while i < payments.len()
        invariant
            i <= payments@.len(),
            t == payments_total(payments@.subrange(0, i as int)),
            m == payments_mass(*params, payments@.subrange(0, i as int)),
            forall|k: int| 0 <= k < i ==> (#[trigger] payments@[k]).amount > 0,
        decreases payments.len() - i,
    {
        let ghost pre = payments@.subrange(0, i as int);
        assert(payments@.subrange(0, i + 1).drop_last() =~= pre);
        proof {
            lemma_payments_prefix(*params, payments@, i + 1);
        }
        let p = &payments[i];
        if p.amount == 0 {
            return Err(Error::ZeroOutputAmount);
        }
        t = match t.checked_add(p.amount) {
            Some(v) => v,
            None => {
                return Err(Error::AmountOverflow);
            },
        };
        let om = output_mass(params, p.script_public_key.script.len() as u64);
        m = match om {
            Some(x) => match m.checked_add(x) {
                Some(v) => v,
                None => {
                    return Err(Error::MassExceeded);
                },
            },
            None => {
                return Err(Error::MassExceeded);
            },
        };
        i += 1;
    }
    assert(payments@.subrange(0, i as int) =~= payments@);
    Ok((t, m))
}

proof fn lemma_payments_prefix(p: MassParams, s: Seq<PaymentOutput>, k: int)
    requires
        0 <= k <= s.len(),
    ensures
        payments_total(s.subrange(0, k)) <= payments_total(s),
        payments_mass(p, s.subrange(0, k)) <= payments_mass(p, s),
    decreases s.len() - k,
{
    if k < s.len() {
        assert(s.subrange(0, k + 1).drop_last() =~= s.subrange(0, k));
        crate::mass::lemma_output_mass_nonnegative(
            p,
            s[k].script_public_key.script@.len() as int,
        );
        lemma_payments_prefix(p, s, k + 1);
    } else {
        assert(s.subrange(0, k) =~= s);
    }
}

/// `(BLANK_TRANSACTION_SIZE + payload_len) * mass_per_tx_byte`, if it fits.
fn base_mass_exec(params: &MassParams, payload_len: usize) -> (r: Option<u64>)
    ensures
        r matches Some(v) ==> v == base_mass(*params, payload_len as int),
        r is None ==> base_mass(*params, payload_len as int) > u64::MAX,
{
    let size = crate::mass::BLANK_TRANSACTION_SIZE as u128 + payload_len as u128;
    match size.checked_mul(params.mass_per_tx_byte as u128) {
        Some(v) => if v <= u64::MAX as u128 {
            Some(v as u64)
        } else {
            None
        },
        None => None,
    }
}

impl Generator {
    /// A generator over `priority_utxo_entries`, then `utxo_entries`, in
    /// that order, each outpoint taken at its first occurrence only. Without
    /// `outputs` it sweeps everything to `change`. An absent
    /// signature-operation count or signature count is one; an absent
    /// priority fee is zero. It succeeds exactly when `settings_fit` holds;
    /// otherwise it fails with `AmountOverflow` (amounts or count too large),
    /// `MassExceeded` (a mass that does not fit in 64 bits) or
    /// `ZeroOutputAmount` (a payment worth nothing). The limit and the fees
    /// of each transaction follow its whole mass, storage mass included.
    pub fn new(
        network_type: String,
        params: MassParams,
        utxo_entries: Vec<UtxoEntry>,
        priority_utxo_entries: Option<Vec<UtxoEntry>>,
        change: ScriptPublicKey,
        outputs: Option<Vec<PaymentOutput>>,
        priority_fee: Option<u64>,
        sig_op_count: Option<u8>,
        minimum_signatures: Option<u16>,
        payload: Option<Vec<u8>>,
    ) -> (r: Result<Generator, Error>)
        requires
            params.wf(),
        ensures
            r matches Ok(g) ==> {
                &&& g.wf()
                &&& g.cursor == 0
                &&& !g.finished
                &&& g.carry is None
                &&& g.params == params
                &&& same_entries(g.entries@, source_entries(priority_utxo_entries, utxo_entries@))
                &&& g.payments == outputs
                &&& g.priority_fee == match priority_fee {
                    Some(f) => f,
                    None => 0,
                }
                &&& g.sig_op_count == match sig_op_count {
                    Some(n) => n,
                    None => 1,
                }
                &&& g.minimum_signatures == match minimum_signatures {
                    Some(n) => n,
                    None => 1,
                }
                &&& g.payload@ == match payload {
                    Some(p) => p@,
                    None => Seq::empty(),
                }
                &&& g.change == change
                &&& g.summary.aggregate_fees == 0
                &&& g.summary.number_of_generated_transactions == 0
                &&& g.summary.network_type@ == network_type@
            },
            r is Ok <==> settings_fit(
                params,
                source_entries(priority_utxo_entries, utxo_entries@),
                outputs,
                change,
                match sig_op_count {
                    Some(n) => n,
                    None => 1,
                },
                match minimum_signatures {
                    Some(n) => n,
                    None => 1,
                },
                match payload {
                    Some(p) => p@.len() as int,
                    None => 0,
                },
            ),
            r matches Err(e) ==> e == Error::AmountOverflow || e == Error::MassExceeded || e
                == Error::ZeroOutputAmount,
    {
        let mut all = match priority_utxo_entries {
            Some(p) => p,
            None => Vec::new(),
        };
        let ghost source = source_entries(priority_utxo_entries, utxo_entries@);
        let mut rest = utxo_entries;
        all.append(&mut rest);
        let entries = keep_first_occurrences(&all);
        proof {
            lemma_same_entries_total(entries@, source);
        }
        if entries.len() == usize::MAX {
            return Err(Error::AmountOverflow);
        }
        match total_amount(&entries) {
            Some(_) => {},
            None => {
                return Err(Error::AmountOverflow);
            },
        }
        let (payment_total, payments_mass) = match &outputs {
            Some(ps) => match payments_sums(&params, ps) {
                Ok(v) => v,
                Err(e) => {
                    return Err(e);
                },
            },
            None => (0, 0),
        };
        let ops: u8 = match sig_op_count {
            Some(n) => n,
            None => 1,
        };
        let sigs: u16 = match minimum_signatures {
            Some(n) => n,
            None => 1,
        };
        let payload: Vec<u8> = match payload {
            Some(p) => p,
            None => Vec::new(),
        };
        assert(crate::mass::SIGNATURE_SIZE == 66);
        let input_mass = match crate::mass::input_mass(&params, 66 * (sigs as u64), ops) {
            Some(m) => m,
            None => {
                return Err(Error::MassExceeded);
            },
        };
        let change_mass = match output_mass(&params, change.script.len() as u64) {
            Some(m) => m,
            None => {
                return Err(Error::MassExceeded);
            },
        };
        let base = match base_mass_exec(&params, payload.len()) {
            Some(m) => m,
            None => {
                return Err(Error::MassExceeded);
            },
        };
        let batch_base = match base_mass_exec(&params, 0) {
            Some(m) => m,
            None => {
                return Err(Error::MassExceeded);
            },
        };
        let g = Generator {
            params,
            entries,
            cursor: 0,
            payments: outputs,
            payment_total,
            payments_mass,
            change,
            change_mass,
            input_mass,
            payload,
            base_mass: base,
            batch_base_mass: batch_base,
            priority_fee: match priority_fee {
                Some(f) => f,
                None => 0,
            },
            sig_op_count: ops,
            minimum_signatures: sigs,
            carry: None,
            finished: false,
            delivered: 0,
            summary: GeneratorSummary {
                network_type,
                aggregated_utxos: 0,
                aggregate_fees: 0,
                number_of_generated_transactions: 0,
                final_transaction_amount: None,
                final_transaction_id: None,
            },
        };
        assert(g.entries@.subrange(0, 0) =~= Seq::<UtxoEntry>::empty());
        Ok(g)
    }

    /// What the generator has produced so far.
    pub fn summary(&self) -> (r: GeneratorSummary)
        ensures
            r.network_type@ == self.summary.network_type@,
            r.aggregated_utxos == self.summary.aggregated_utxos,
            r.aggregate_fees == self.summary.aggregate_fees,
            r.number_of_generated_transactions == self.summary.number_of_generated_transactions,
            r.final_transaction_amount == self.summary.final_transaction_amount,
            r.final_transaction_id == self.summary.final_transaction_id,
    {
        GeneratorSummary {
            network_type: self.summary.network_type.clone(),
            aggregated_utxos: self.summary.aggregated_utxos,
            aggregate_fees: self.summary.aggregate_fees,
            number_of_generated_transactions: self.summary.number_of_generated_transactions,
            final_transaction_amount: self.summary.final_transaction_amount,
            final_transaction_id: self.summary.final_transaction_id,
        }
    }

    /// Every remaining transaction, in order: batches first, the final one
    /// last. The run spends the entries from the cursor on, in source order,
    /// each batch's output being spent first by the transaction after it;
    /// the fees of the transactions, with what the final one pays out,
    /// account for every entry consumed and the output carried in.
    pub fn generate_all(&mut self) -> (r: Result<Vec<PendingTransaction>, Error>)
        requires
            old(self).wf(),
            !old(self).finished,
        ensures
            final(self).wf(),
            final(self).finished,
            same_settings(*final(self), *old(self)),
            r matches Err(e) ==> e == Error::MassExceeded || e == Error::InsufficientFunds,
            r == Err::<Vec<PendingTransaction>, Error>(Error::InsufficientFunds) ==> !old(
                self,
            ).run_funds_suffice(),
            r == Err::<Vec<PendingTransaction>, Error>(Error::MassExceeded) ==> exists|g: Generator|
                old(self).may_reach(g) && #[trigger] g.mass_blocked(),
            r matches Ok(txs) ==> {
                &&& txs@.len() >= 1
                &&& forall|i: int| 0 <= i < txs@.len() ==> (#[trigger] txs@[i]).balanced()
                &&& forall|i: int| 0 <= i < txs@.len() ==> #[trigger] txs@[i].mass
                    <= final(self).params.maximum_standard_mass
                &&& forall|i: int|
                    0 <= i < txs@.len() ==> #[trigger] txs@[i].mass == crate::mass::overall_mass(
                        final(self).params,
                        txs@[i].transaction,
                        final(self).minimum_signatures as int,
                    )
                &&& forall|i: int|
                    0 <= i < txs@.len() - 1 ==> (#[trigger] txs@[i]).is_batch && old(
                        self,
                    ).batch_shape(txs@[i])
                &&& old(self).final_shape(txs@.last())
                &&& txs@.last().change_amount > 0 ==> txs@.last().fee_amount
                    == crate::mass::fee_for_mass(final(self).params, txs@.last().mass as int) + old(
                    self,
                ).priority_fee
                &&& final(self).summary.final_transaction_id is Some
                &&& final(self).summary.aggregate_fees == old(self).summary.aggregate_fees
                    + fees_total(txs@)
                &&& final(self).summary.number_of_generated_transactions == old(
                    self,
                ).summary.number_of_generated_transactions + txs@.len()
                &&& entries_total(
                    final(self).entries@.subrange(old(self).cursor as int, final(self).cursor as int),
                ) + old(self).carried() == fees_total(txs@) + txs@.last().aggregate_output_amount
                &&& same_entries(
                    source_spent(txs@, old(self).carry is Some),
                    final(self).entries@.subrange(old(self).cursor as int, final(self).cursor as int),
                )
            },
    {
        let mut txs: Vec<PendingTransaction> = Vec::new();
        assert(self.entries@.subrange(self.cursor as int, self.cursor as int) =~= Seq::<UtxoEntry>::empty());
        loop
            invariant
                self.wf(),
                same_settings(*self, *old(self)),
                old(self).cursor <= self.cursor,
                forall|i: int| 0 <= i < txs@.len() ==> (#[trigger] txs@[i]).balanced(),
                forall|i: int| 0 <= i < txs@.len() ==> #[trigger] txs@[i].mass
                    <= self.params.maximum_standard_mass,
                forall|i: int|
                    0 <= i < txs@.len() ==> #[trigger] txs@[i].mass == crate::mass::overall_mass(
                        self.params,
                        txs@[i].transaction,
                        self.minimum_signatures as int,
                    ),
                !self.finished ==> forall|i: int|
                    0 <= i < txs@.len() ==> (#[trigger] txs@[i]).is_batch && old(self).batch_shape(
                        txs@[i],
                    ),
                self.finished ==> txs@.len() >= 1 && !txs@.last().is_batch && old(self).final_shape(
                    txs@.last(),
                ) && (txs@.last().change_amount > 0 ==> txs@.last().fee_amount
                    == crate::mass::fee_for_mass(self.params, txs@.last().mass as int)
                    + old(self).priority_fee) && self.summary.final_transaction_id is Some && forall|i: int|
                    0 <= i < txs@.len() - 1 ==> (#[trigger] txs@[i]).is_batch && old(
                        self,
                    ).batch_shape(txs@[i]),
                self.summary.aggregate_fees == old(self).summary.aggregate_fees + fees_total(txs@),
                self.summary.number_of_generated_transactions == old(
                    self,
                ).summary.number_of_generated_transactions + txs@.len(),
                entries_total(self.entries@.subrange(old(self).cursor as int, self.cursor as int))
                    + old(self).carried() == fees_total(txs@) + self.carried() + self.delivered,
                !self.finished ==> self.delivered == 0,
                self.finished ==> self.carry is None && self.delivered == txs@.last().aggregate_output_amount,
                txs@.len() == 0 ==> self.carry == old(self).carry && self.cursor == old(self).cursor,
                txs@.len() > 0 && !self.finished ==> self.carry is Some,
                old(self).wf(),
                !self.finished ==> txs@.len() <= self.cursor - old(self).cursor,
                !self.finished ==> fees_total(txs@) <= txs@.len() * old(self).fee_ceiling(),
                same_entries(
                    source_spent(txs@, old(self).carry is Some),
                    self.entries@.subrange(old(self).cursor as int, self.cursor as int),
                ),
            decreases self.remaining(),
        {
            if self.finished {
                return Ok(txs);
            }
            let ghost before = *self;
            let ghost prev = txs@;
            match self.next() {
                Some(Ok(p)) => {
                    txs.push(p);
                    assert(txs@.drop_last() =~= prev);
                    proof {
                        if !self.finished {
                            let c = old(self).fee_ceiling();
                            assert(fees_total(txs@) == fees_total(prev) + p.fee_amount);
                            assert((prev.len() + 1) * c == prev.len() * c + c) by (nonlinear_arith);
                        }
                    }
                    proof {
                        lemma_entries_total_split(self.entries@, old(self).cursor as int, before.cursor as int, self.cursor as int);
                        lemma_entries_total_split(self.entries@, 0, old(self).cursor as int, before.cursor as int);
                        lemma_entries_total_split(self.entries@, 0, old(self).cursor as int, self.cursor as int);
                        lemma_step_source(
                            prev,
                            p,
                            old(self).carry is Some,
                            before,
                            self.entries@,
                            old(self).cursor as int,
                            self.cursor as int,
                        );
                    }
                },
                Some(Err(e)) => {
                    proof {
                        if e == Error::InsufficientFunds {
                            lemma_run_short(*old(self), before, txs@);
                        }
                        if e == Error::MassExceeded {
                            let n = before.entries@.len() as int;
                            lemma_entries_total_split(before.entries@, old(self).cursor as int, before.cursor as int, n);
                            lemma_fees_total_nonnegative(txs@);
                            assert(old(self).may_reach(before));
                            assert(before.mass_blocked());
                        }
                    }
                    return Err(e);
                },
                None => {
                    return Ok(txs);
                },
            }
        }
    }

    /// Runs the generator to the end and returns its summary: the fees and
    /// the number of transactions of the run, and the id of its final
    /// transaction. The generator is spent afterwards.
    pub fn estimate(&mut self) -> (r: Result<GeneratorSummary, Error>)
        requires
            old(self).wf(),
            !old(self).finished,
        ensures
            final(self).wf(),
            final(self).finished,
            r matches Ok(s) ==> s.aggregate_fees == final(self).summary.aggregate_fees
                && s.number_of_generated_transactions
                == final(self).summary.number_of_generated_transactions
                && s.aggregated_utxos == final(self).cursor
                && s.final_transaction_id is Some
                && s.final_transaction_id == final(self).summary.final_transaction_id,
            r matches Err(e) ==> e == Error::MassExceeded || e == Error::InsufficientFunds,
            r == Err::<GeneratorSummary, Error>(Error::InsufficientFunds) ==> !old(
                self,
            ).run_funds_suffice(),
            r == Err::<GeneratorSummary, Error>(Error::MassExceeded) ==> exists|g: Generator|
                old(self).may_reach(g) && #[trigger] g.mass_blocked(),
            r matches Ok(s) ==> exists|txs: Seq<PendingTransaction>|
                s.aggregate_fees == old(self).summary.aggregate_fees + fees_total(txs) && s.number_of_generated_transactions == old(self).summary.number_of_generated_transactions + txs.len() && txs.len() >= 1 && old(self).final_shape(txs.last()),
    {
        match self.generate_all() {
            Ok(txs) => {
                assert(self.summary.aggregate_fees == old(self).summary.aggregate_fees + fees_total(txs@));
                Ok(self.summary())
            },
            Err(e) => Err(e),
        }
    }
}

/// One step of a run extends what the run has spent from the source by the
/// entries that the step took.
proof fn lemma_step_source(
    prev: Seq<PendingTransaction>,
    p: PendingTransaction,
    first_carried: bool,
    before: Generator,
    entries: Seq<UtxoEntry>,
    start: int,
    end: int,
)
    requires
        0 <= start <= before.cursor <= end <= entries.len(),
        before.entries@ == entries,
        same_entries(source_spent(prev, first_carried), entries.subrange(start, before.cursor as int)),
        same_entries(spent_entries(p.transaction.inputs@), before.spent_by_step(end)),
        prev.len() == 0 ==> (before.carry is Some) == first_carried,
        prev.len() > 0 ==> before.carry is Some,
    ensures
        same_entries(source_spent(prev.push(p), first_carried), entries.subrange(start, end)),
{
    let s2 = prev.push(p);
    assert(s2.drop_last() =~= prev);
    let spent = spent_entries(p.transaction.inputs@);
    let carried = s2.len() > 1 || first_carried;
    let tail = if carried {
        spent.drop_first()
    } else {
        spent
    };
    let step = entries.subrange(before.cursor as int, end);
    assert(before.spent_by_step(end) =~= before.carried_seq() + step);
    assert(same_entries(tail, step)) by {
        if carried {
            assert(before.carried_seq().len() == 1);
            assert forall|i: int| 0 <= i < tail.len() implies (#[trigger] tail[i]).same_as(step[i]) by {
                assert(tail[i] == spent[i + 1]);
                assert((before.carried_seq() + step)[i + 1] == step[i]);
            }
        } else {
            assert(before.carried_seq() =~= Seq::<UtxoEntry>::empty());
            assert(before.carried_seq() + step =~= step);
        }
    }
    let a = source_spent(prev, first_carried);
    let x = entries.subrange(start, before.cursor as int);
    assert(entries.subrange(start, end) =~= x + step);
    assert(source_spent(s2, first_carried) =~= a + tail);
    assert forall|i: int| 0 <= i < (a + tail).len() implies (#[trigger] (a + tail)[i]).same_as(
        (x + step)[i],
    ) by {
        if i < a.len() {
            assert((a + tail)[i] == a[i]);
            assert((x + step)[i] == x[i]);
        } else {
            assert((a + tail)[i] == tail[i - a.len()]);
            assert((x + step)[i] == step[i - x.len()]);
        }
    }
}

/// The sum over `[a, c)` is the sum over `[a, b)` and over `[b, c)`.
pub proof fn lemma_entries_total_split(s: Seq<UtxoEntry>, a: int, b: int, c: int)
    requires
        0 <= a <= b <= c <= s.len(),
    ensures
        entries_total(s.subrange(a, c)) == entries_total(s.subrange(a, b)) + entries_total(
            s.subrange(b, c),
        ),
    decreases c - b,
{
    if c > b {
        assert(s.subrange(a, c).drop_last() =~= s.subrange(a, c - 1));
        assert(s.subrange(b, c).drop_last() =~= s.subrange(b, c - 1));
        lemma_entries_total_split(s, a, b, c - 1);
    } else {
        assert(s.subrange(b, c) =~= Seq::<UtxoEntry>::empty());
    }
}

/// Inputs that all count the same signature operations weigh the same each.
pub proof fn lemma_uniform_inputs_mass(
    p: MassParams,
    inputs: Seq<crate::tx::TransactionInput>,
    entries: Seq<UtxoEntry>,
    sig_op_count: u8,
    minimum_signatures: int,
)
    requires
        spends_in_order(inputs, entries, sig_op_count),
    ensures
        inputs_mass(p, inputs, Some(minimum_signatures)) == inputs.len() * unsigned_input_mass(
            p,
            sig_op_count as int,
            minimum_signatures,
        ),
    decreases inputs.len(),
{
    if inputs.len() > 0 {
        assert(spends_in_order(inputs.drop_last(), entries.drop_last(), sig_op_count));
        lemma_uniform_inputs_mass(p, inputs.drop_last(), entries.drop_last(), sig_op_count, minimum_signatures);
        let x = unsigned_input_mass(p, sig_op_count as int, minimum_signatures);
        let k = inputs.len() - 1;
        assert(inputs.len() * x == k * x + x) by (nonlinear_arith)
            requires
                inputs.len() == k + 1,
        ;
    }
}

/// Outputs that pay the payments in order weigh what the payments do.
pub proof fn lemma_paid_outputs_mass(p: MassParams, outputs: Seq<TransactionOutput>, payments: Seq<PaymentOutput>)
    requires
        pays_in_order(outputs, payments),
    ensures
        outputs_mass(p, outputs) == payments_mass(p, payments),
    decreases outputs.len(),
{
    if outputs.len() > 0 {
        assert(pays_in_order(outputs.drop_last(), payments.drop_last()));
        lemma_paid_outputs_mass(p, outputs.drop_last(), payments.drop_last());
    }
}

/// Inputs that spend entries in order spend what the entries hold.
pub proof fn lemma_spent_total(
    inputs: Seq<crate::tx::TransactionInput>,
    entries: Seq<UtxoEntry>,
    sig_op_count: u8,
)
    requires
        spends_in_order(inputs, entries, sig_op_count),
    ensures
        entries_total(spent_entries(inputs)) == entries_total(entries),
        crate::mass::inputs_resolved(inputs),
        same_entries(spent_entries(inputs), entries),
    decreases inputs.len(),
{
    if inputs.len() > 0 {
        assert(spends_in_order(inputs.drop_last(), entries.drop_last(), sig_op_count));
        lemma_spent_total(inputs.drop_last(), entries.drop_last(), sig_op_count);
        assert(spent_entries(inputs).drop_last() =~= spent_entries(inputs.drop_last()));
    }
}

proof fn lemma_pays_in_order_total_opt(outputs: Seq<TransactionOutput>, payments: Option<Vec<PaymentOutput>>)
    requires
        match payments {
            Some(ps) => pays_in_order(outputs, ps@),
            None => outputs.len() == 0,
        },
    ensures
        outputs_total(outputs) == match payments {
            Some(ps) => payments_total(ps@),
            None => 0,
        },
{
    match payments {
        Some(ps) => crate::tx::lemma_pays_in_order_total(outputs, ps@),
        None => {},
    }
}

/// A step that finds the funds short, after the batches `txs` of a run,
/// shows the funds of the whole run short.
proof fn lemma_run_short(start: Generator, before: Generator, txs: Seq<PendingTransaction>)
    requires
        start.wf(),
        before.wf(),
        same_settings(before, start),
        !before.finished,
        !before.funds_suffice(),
        start.cursor <= before.cursor,
        txs.len() <= before.cursor - start.cursor,
        fees_total(txs) <= txs.len() * start.fee_ceiling(),
        entries_total(start.entries@.subrange(start.cursor as int, before.cursor as int))
            + start.carried() == fees_total(txs) + before.carried() + before.delivered,
        before.delivered == 0,
    ensures
        !start.run_funds_suffice(),
{
    let n = start.entries@.len() as int;
    let c = start.fee_ceiling();
    lemma_entries_total_split(start.entries@, start.cursor as int, before.cursor as int, n);
    assert(c >= 0) by (nonlinear_arith)
        requires
            c == start.params.maximum_standard_mass * start.params.fee_per_mass,
    ;
    assert(txs.len() * c <= (n - start.cursor) * c) by (nonlinear_arith)
        requires
            txs.len() <= n - start.cursor,
            c >= 0,
    ;
    assert((n - start.cursor + 1) * c == (n - start.cursor) * c + c) by (nonlinear_arith);
    if start.run_funds_suffice() {
        assert forall|i: int| before.cursor <= i < n implies (#[trigger] before.entries@[i]).amount
            > before.fee_ceiling() by {
            assert(start.entries@[i].amount > c);
        }
    }
}

/// The fees of a sequence of transactions are never negative.
pub proof fn lemma_fees_total_nonnegative(s: Seq<PendingTransaction>)
    ensures
        fees_total(s) >= 0,
    decreases s.len(),
{
    if s.len() > 0 {
        lemma_fees_total_nonnegative(s.drop_last());
    }
}

/// A sum over a range is never negative.
pub proof fn lemma_entries_total_nonnegative(s: Seq<UtxoEntry>)
    ensures
        entries_total(s) >= 0,
    decreases s.len(),
{
    if s.len() > 0 {
        lemma_entries_total_nonnegative(s.drop_last());
    }
}

/// A sum over a range holds at least its first entry.
pub proof fn lemma_range_total_ge_first(s: Seq<UtxoEntry>, a: int, c: int)
    requires
        0 <= a < c <= s.len(),
    ensures
        entries_total(s.subrange(a, c)) >= s[a].amount,
{
    lemma_entries_total_split(s, a, a + 1, c);
    lemma_entries_total_nonnegative(s.subrange(a + 1, c));
    assert(s.subrange(a, a + 1).drop_last() =~= Seq::<UtxoEntry>::empty());
    assert(entries_total(s.subrange(a, a + 1).drop_last()) == 0);
}

/// Entries with the same fields, position by position, hold the same total.
pub proof fn lemma_same_entries_total(a: Seq<UtxoEntry>, b: Seq<UtxoEntry>)
    requires
        same_entries(a, b),
    ensures
        entries_total(a) == entries_total(b),
    decreases a.len(),
{
    if a.len() > 0 {
        assert(same_entries(a.drop_last(), b.drop_last()));
        lemma_same_entries_total(a.drop_last(), b.drop_last());
    }
}

} // verus!
