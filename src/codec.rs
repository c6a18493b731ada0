//! The byte form in which cooperating parties exchange a partially signed
//! transaction: its role tag and everything it carries. Decoding the bytes of
//! a state always succeeds, and what it gives encodes to the same bytes.

use vstd::prelude::*;
use crate::encode::{le_bytes, push_le, push_slice};
use crate::error::Error;
use crate::pskt::{Inner, Pskt, PsktGlobal, PsktInput, PsktOutput, Role};
use crate::tx::{ScriptPublicKey, TransactionOutpoint, UtxoEntry};

verus! {

pub open spec fn pow256(n: nat) -> nat
    decreases n,
{
    if n == 0 {
        1
    } else {
        256 * pow256((n - 1) as nat)
    }
}

/// The number whose `s.len()` low bytes, least significant first, are `s`.
pub open spec fn from_le(s: Seq<u8>) -> nat
    decreases s.len(),
{
    if s.len() == 0 {
        0
    } else {
        s[0] as nat + 256 * from_le(s.drop_first())
    }
}

proof fn lemma_le_len(x: nat, n: nat)
    ensures
        le_bytes(x, n).len() == n,
    decreases n,
{
    if n > 0 {
        lemma_le_len(x / 256, (n - 1) as nat);
    }
}

proof fn lemma_from_le_bound(s: Seq<u8>)
    ensures
        from_le(s) < pow256(s.len()),
    decreases s.len(),
{
    if s.len() > 0 {
        lemma_from_le_bound(s.drop_first());
        let r = from_le(s.drop_first());
        let p = pow256((s.len() - 1) as nat);
        assert(s[0] as nat + 256 * r < 256 * p) by (nonlinear_arith)
            requires
                r < p,
                s[0] < 256,
        ;
    }
}

/// Reading the bytes back gives the number.
proof fn lemma_le_from_le(x: nat, n: nat)
    requires
        x < pow256(n),
    ensures
        from_le(le_bytes(x, n)) == x,
    decreases n,
{
    if n > 0 {
        let p = pow256((n - 1) as nat);
        assert(x / 256 < p) by (nonlinear_arith)
            requires
                x < 256 * p,
        ;
        lemma_le_from_le(x / 256, (n - 1) as nat);
        assert(le_bytes(x, n).drop_first() =~= le_bytes(x / 256, (n - 1) as nat));
        assert(x % 256 + 256 * (x / 256) == x) by (nonlinear_arith);
    }
}

/// The bytes of the number that some bytes give are those bytes.
proof fn lemma_from_le_le(s: Seq<u8>)
    ensures
        le_bytes(from_le(s), s.len()) == s,
    decreases s.len(),
{
    if s.len() > 0 {
        lemma_from_le_le(s.drop_first());
        let r = from_le(s.drop_first());
        let v = s[0] as nat + 256 * r;
        assert(v % 256 == s[0] as nat && v / 256 == r) by (nonlinear_arith)
            requires
                v == s[0] as nat + 256 * r,
                s[0] < 256,
        ;
        assert(le_bytes(v, s.len()) =~= s);
    }
}

proof fn lemma_pow256_8()
    ensures
        pow256(8) == 0x1_0000_0000_0000_0000,
        pow256(4) == 0x1_0000_0000,
        pow256(2) == 0x1_0000,
        pow256(1) == 0x100,
{
    assert(pow256(0) == 1);
    assert(pow256(1) == 0x100);
    assert(pow256(2) == 0x1_0000);
    assert(pow256(3) == 0x100_0000);
    assert(pow256(4) == 0x1_0000_0000);
    assert(pow256(5) == 0x100_0000_0000);
    assert(pow256(6) == 0x1_0000_0000_0000);
    assert(pow256(7) == 0x100_0000_0000_0000);
    assert(pow256(8) == 0x1_0000_0000_0000_0000);
}

/// `e` stands in `b` at `pos`.
pub open spec fn fits(b: Seq<u8>, pos: int, e: Seq<u8>) -> bool {
    0 <= pos && pos + e.len() <= b.len() && b.subrange(pos, pos + e.len()) == e
}

proof fn lemma_fits_split(b: Seq<u8>, pos: int, e1: Seq<u8>, e2: Seq<u8>)
    requires
        fits(b, pos, e1 + e2),
    ensures
        fits(b, pos, e1),
        fits(b, pos + e1.len(), e2),
{
    let w = b.subrange(pos, pos + (e1 + e2).len());
    assert(w == e1 + e2);
    assert(b.subrange(pos, pos + e1.len()) =~= w.subrange(0, e1.len() as int));
    assert(w.subrange(0, e1.len() as int) =~= e1);
    assert(b.subrange(pos + e1.len(), pos + e1.len() + e2.len()) =~= w.subrange(
        e1.len() as int,
        (e1.len() + e2.len()) as int,
    ));
    assert(w.subrange(e1.len() as int, (e1.len() + e2.len()) as int) =~= e2);
}

proof fn lemma_join(b: Seq<u8>, a: int, m: int, c: int)
    requires
        0 <= a <= m <= c <= b.len(),
    ensures
        b.subrange(a, c) == b.subrange(a, m) + b.subrange(m, c),
{
    assert(b.subrange(a, c) =~= b.subrange(a, m) + b.subrange(m, c));
}

pub open spec fn enc_bool(x: bool) -> Seq<u8> {
    seq![if x { 1u8 } else { 0u8 }]
}

pub open spec fn enc_bytes(s: Seq<u8>) -> Seq<u8> {
    le_bytes(s.len(), 8) + s
}

pub open spec fn enc_opt_u64(o: Option<u64>) -> Seq<u8> {
    match o {
        Some(v) => seq![1u8] + le_bytes(v as nat, 8),
        None => seq![0u8],
    }
}

pub open spec fn enc_opt_u8(o: Option<u8>) -> Seq<u8> {
    match o {
        Some(v) => seq![1u8, v],
        None => seq![0u8],
    }
}

pub open spec fn enc_opt_bytes(o: Option<Vec<u8>>) -> Seq<u8> {
    match o {
        Some(v) => seq![1u8] + enc_bytes(v@),
        None => seq![0u8],
    }
}

pub open spec fn enc_script(s: ScriptPublicKey) -> Seq<u8> {
    le_bytes(s.version as nat, 2) + enc_bytes(s.script@)
}

pub open spec fn enc_outpoint(o: TransactionOutpoint) -> Seq<u8> {
    o.transaction_id@ + le_bytes(o.index as nat, 4)
}

pub open spec fn enc_entry(u: UtxoEntry) -> Seq<u8> {
    enc_outpoint(u.outpoint) + le_bytes(u.amount as nat, 8) + enc_script(u.script_public_key)
        + le_bytes(u.block_daa_score as nat, 8) + enc_bool(u.is_coinbase)
}

pub open spec fn enc_opt_entry(o: Option<UtxoEntry>) -> Seq<u8> {
    match o {
        Some(u) => seq![1u8] + enc_entry(u),
        None => seq![0u8],
    }
}

pub open spec fn enc_input(i: PsktInput) -> Seq<u8> {
    enc_opt_entry(i.utxo_entry) + enc_outpoint(i.previous_outpoint) + enc_opt_u64(i.sequence)
        + enc_opt_u8(i.sig_op_count) + enc_opt_bytes(i.redeem_script) + enc_opt_bytes(
        i.final_script_sig,
    )
}

pub open spec fn enc_output(o: PsktOutput) -> Seq<u8> {
    le_bytes(o.amount as nat, 8) + enc_script(o.script_public_key)
}

pub open spec fn enc_global(g: PsktGlobal) -> Seq<u8> {
    le_bytes(g.version as nat, 2) + le_bytes(g.tx_version as nat, 2) + enc_opt_u64(
        g.fallback_lock_time,
    ) + enc_bool(g.inputs_modifiable) + enc_bool(g.outputs_modifiable) + enc_opt_bytes(g.payload)
}

pub open spec fn enc_inputs(s: Seq<PsktInput>) -> Seq<u8>
    decreases s.len(),
{
    if s.len() == 0 {
        Seq::empty()
    } else {
        enc_inputs(s.drop_last()) + enc_input(s.last())
    }
}

pub open spec fn enc_outputs(s: Seq<PsktOutput>) -> Seq<u8>
    decreases s.len(),
{
    if s.len() == 0 {
        Seq::empty()
    } else {
        enc_outputs(s.drop_last()) + enc_output(s.last())
    }
}

pub open spec fn enc_input_list(s: Seq<PsktInput>) -> Seq<u8> {
    le_bytes(s.len(), 8) + enc_inputs(s)
}

pub open spec fn enc_output_list(s: Seq<PsktOutput>) -> Seq<u8> {
    le_bytes(s.len(), 8) + enc_outputs(s)
}

pub open spec fn enc_inner(i: Inner) -> Seq<u8> {
    enc_global(i.global) + enc_input_list(i.inputs@) + enc_output_list(i.outputs@)
}

pub open spec fn role_byte(r: Role) -> u8 {
    match r {
        Role::NoOp => 0,
        Role::Creator => 1,
        Role::Constructor => 2,
        Role::Updater => 3,
        Role::Signer => 4,
        Role::Combiner => 5,
        Role::Finalizer => 6,
        Role::Extractor => 7,
    }
}

/// The bytes of a state: its role, then what it carries, if anything.
pub open spec fn pskt_bytes(p: Pskt) -> Seq<u8> {
    seq![role_byte(p.role)] + match p.inner {
        Some(i) => seq![1u8] + enc_inner(i),
        None => seq![0u8],
    }
}

proof fn lemma_pow256_mono(m: nat, n: nat)
    requires
        m <= n,
    ensures
        pow256(m) <= pow256(n),
    decreases n,
{
    if m < n {
        lemma_pow256_mono(m, (n - 1) as nat);
    }
}

/// Reads `n` bytes at `pos` as a number, least significant first.
fn read_le(buf: &Vec<u8>, pos: usize, n: usize, x: Ghost<nat>) -> (r: Option<(u64, usize)>)
    requires
        1 <= n <= 8,
    ensures
        r matches Some((w, end)) ==> end == pos + n && end <= buf@.len() && buf@.subrange(
            pos as int,
            end as int,
        ) == le_bytes(w as nat, n as nat) && (w as nat) < pow256(n as nat),
        x@ < pow256(n as nat) && fits(buf@, pos as int, le_bytes(x@, n as nat)) ==> r == Some(
            (x@ as u64, (pos + n) as usize),
        ),
{
    proof {
        lemma_le_len(x@, n as nat);
        lemma_pow256_8();
    }
    let blen = buf.len();
    if pos > blen || n > blen - pos {
        return None;
    }
    let ghost s = buf@.subrange(pos as int, (pos + n) as int);
    let mut v: u64 = 0;
    let mut k = n;
    assert(buf@.subrange((pos + k) as int, (pos + n) as int) =~= Seq::<u8>::empty());
    while k > 0
        invariant
            k <= n <= 8,
            pos + n <= buf@.len(),
            buf@.len() == blen,
            v as nat == from_le(buf@.subrange((pos + k) as int, (pos + n) as int)),
            pow256(8) == 0x1_0000_0000_0000_0000,
        decreases k,
    {
        let ghost rest = buf@.subrange((pos + k) as int, (pos + n) as int);
        proof {
            lemma_from_le_bound(rest);
            lemma_pow256_mono(rest.len(), 7);
            lemma_pow256_mono(7, 8);
            assert(pow256(8) == 256 * pow256(7));
        }
        let b = buf[pos + k - 1];
        assert(v * 256 + b < pow256(8)) by (nonlinear_arith)
            requires
                v < pow256(7),
                b < 256,
                pow256(8) == 256 * pow256(7),
        ;
        v = v * 256 + b as u64;
        k -= 1;
        assert(buf@.subrange((pos + k) as int, (pos + n) as int).drop_first() =~= rest);
    }
    proof {
        lemma_from_le_le(s);
        lemma_from_le_bound(s);
        assert(buf@.subrange(pos as int, (pos + n) as int) == s);
        if x@ < pow256(n as nat) && fits(buf@, pos as int, le_bytes(x@, n as nat)) {
            lemma_le_from_le(x@, n as nat);
        }
    }
    Some((v, pos + n))
}

fn read_flag(buf: &Vec<u8>, pos: usize, x: Ghost<bool>) -> (r: Option<(bool, usize)>)
    ensures
        r matches Some((w, end)) ==> end == pos + 1 && end <= buf@.len() && buf@.subrange(
            pos as int,
            end as int,
        ) == enc_bool(w),
        fits(buf@, pos as int, enc_bool(x@)) ==> r == Some((x@, (pos + 1) as usize)),
{
    if pos >= buf.len() {
        return None;
    }
    let b = buf[pos];
    proof {
        if fits(buf@, pos as int, enc_bool(x@)) {
            assert(buf@.subrange(pos as int, pos + 1)[0] == b);
        }
    }
    if b == 0 {
        assert(buf@.subrange(pos as int, pos + 1) =~= enc_bool(false));
        Some((false, pos + 1))
    } else if b == 1 {
        assert(buf@.subrange(pos as int, pos + 1) =~= enc_bool(true));
        Some((true, pos + 1))
    } else {
        None
    }
}

/// Reads a length and that many bytes.
fn read_bytes(buf: &Vec<u8>, pos: usize, x: Ghost<Seq<u8>>) -> (r: Option<(Vec<u8>, usize)>)
    ensures
        r matches Some((w, end)) ==> pos <= end <= buf@.len() && buf@.subrange(pos as int, end as int)
            == enc_bytes(w@),
        fits(buf@, pos as int, enc_bytes(x@)) ==> (r matches Some((w, end)) && end == pos
            + enc_bytes(x@).len()),
{
    let blen = buf.len();
    proof {
        lemma_le_len(x@.len(), 8);
        lemma_pow256_8();
        if fits(buf@, pos as int, enc_bytes(x@)) {
            lemma_fits_split(buf@, pos as int, le_bytes(x@.len(), 8), x@);
        }
    }
    let (l, p1) = match read_le(buf, pos, 8, Ghost(x@.len())) {
        Some(v) => v,
        None => {
            return None;
        },
    };
    if l > (blen - p1) as u64 {
        return None;
    }
    let end = p1 + l as usize;
    let w = crate::pending::sub_bytes(buf, p1, end);
    proof {
        lemma_join(buf@, pos as int, p1 as int, end as int);
    }
    Some((w, end))
}

fn read_opt_u64(buf: &Vec<u8>, pos: usize, x: Ghost<Option<u64>>) -> (r: Option<(Option<u64>, usize)>)
    ensures
        r matches Some((w, end)) ==> pos <= end <= buf@.len() && buf@.subrange(pos as int, end as int)
            == enc_opt_u64(w),
        fits(buf@, pos as int, enc_opt_u64(x@)) ==> (r matches Some((w, end)) && end == pos
            + enc_opt_u64(x@).len()),
{
    let ghost inner: nat = match x@ {
        Some(v) => v as nat,
        None => 0,
    };
    let blen = buf.len();
    proof {
        lemma_le_len(inner, 8);
        lemma_pow256_8();
        if fits(buf@, pos as int, enc_opt_u64(x@)) {
            let tail = enc_opt_u64(x@).subrange(1, enc_opt_u64(x@).len() as int);
            assert(enc_opt_u64(x@) =~= enc_bool(x@ is Some) + tail);
            lemma_fits_split(buf@, pos as int, enc_bool(x@ is Some), tail);
            if x@ is Some {
                assert(tail =~= le_bytes(inner, 8));
                assert(inner < pow256(8));
            }
        }
    }
    let (flag, p1) = match read_flag(buf, pos, Ghost(x@ is Some)) {
        Some(v) => v,
        None => {
            return None;
        },
    };
    if !flag {
        return Some((None, p1));
    }
    match read_le(buf, p1, 8, Ghost(inner)) {
        Some((v, end)) => {
            proof {
                lemma_join(buf@, pos as int, p1 as int, end as int);
                assert(enc_bool(true) + le_bytes(v as nat, 8) =~= enc_opt_u64(Some(v)));
            }
            Some((Some(v), end))
        },
        None => None,
    }
}

fn read_opt_u8(buf: &Vec<u8>, pos: usize, x: Ghost<Option<u8>>) -> (r: Option<(Option<u8>, usize)>)
    ensures
        r matches Some((w, end)) ==> pos <= end <= buf@.len() && buf@.subrange(pos as int, end as int)
            == enc_opt_u8(w),
        fits(buf@, pos as int, enc_opt_u8(x@)) ==> (r matches Some((w, end)) && end == pos
            + enc_opt_u8(x@).len()),
{
    let blen = buf.len();
    proof {
        if fits(buf@, pos as int, enc_opt_u8(x@)) {
            let tail = enc_opt_u8(x@).subrange(1, enc_opt_u8(x@).len() as int);
            assert(enc_opt_u8(x@) =~= enc_bool(x@ is Some) + tail);
            lemma_fits_split(buf@, pos as int, enc_bool(x@ is Some), tail);
        }
    }
    let (flag, p1) = match read_flag(buf, pos, Ghost(x@ is Some)) {
        Some(v) => v,
        None => {
            return None;
        },
    };
    if !flag {
        return Some((None, p1));
    }
    if p1 >= blen {
        return None;
    }
    let v = buf[p1];
    assert(buf@.subrange(pos as int, p1 + 1) =~= enc_opt_u8(Some(v)));
    Some((Some(v), p1 + 1))
}

fn read_opt_bytes(buf: &Vec<u8>, pos: usize, x: Ghost<Option<Vec<u8>>>) -> (r: Option<
    (Option<Vec<u8>>, usize),
>)
    ensures
        r matches Some((w, end)) ==> pos <= end <= buf@.len() && buf@.subrange(pos as int, end as int)
            == enc_opt_bytes(w),
        fits(buf@, pos as int, enc_opt_bytes(x@)) ==> (r matches Some((w, end)) && end == pos
            + enc_opt_bytes(x@).len()),
{
    let ghost inner: Seq<u8> = match x@ {
        Some(v) => v@,
        None => Seq::empty(),
    };
    proof {
        if fits(buf@, pos as int, enc_opt_bytes(x@)) {
            let tail = enc_opt_bytes(x@).subrange(1, enc_opt_bytes(x@).len() as int);
            assert(enc_opt_bytes(x@) =~= enc_bool(x@ is Some) + tail);
            lemma_fits_split(buf@, pos as int, enc_bool(x@ is Some), tail);
            if x@ is Some {
                assert(tail =~= enc_bytes(inner));
            }
        }
    }
    let (flag, p1) = match read_flag(buf, pos, Ghost(x@ is Some)) {
        Some(v) => v,
        None => {
            return None;
        },
    };
    if !flag {
        return Some((None, p1));
    }
    match read_bytes(buf, p1, Ghost(inner)) {
        Some((v, end)) => {
            proof {
                lemma_join(buf@, pos as int, p1 as int, end as int);
                assert(enc_bool(true) + enc_bytes(v@) =~= enc_opt_bytes(Some(v)));
            }
            Some((Some(v), end))
        },
        None => None,
    }
}

fn read_script(buf: &Vec<u8>, pos: usize, x: Ghost<ScriptPublicKey>) -> (r: Option<
    (ScriptPublicKey, usize),
>)
    ensures
        r matches Some((w, end)) ==> pos <= end <= buf@.len() && buf@.subrange(pos as int, end as int)
            == enc_script(w),
        fits(buf@, pos as int, enc_script(x@)) ==> (r matches Some((w, end)) && end == pos
            + enc_script(x@).len()),
{
    proof {
        lemma_le_len(x@.version as nat, 2);
        lemma_pow256_8();
        if fits(buf@, pos as int, enc_script(x@)) {
            lemma_fits_split(buf@, pos as int, le_bytes(x@.version as nat, 2), enc_bytes(x@.script@));
        }
    }
    let (v, p1) = match read_le(buf, pos, 2, Ghost(x@.version as nat)) {
        Some(t) => t,
        None => {
            return None;
        },
    };
    let (script, p2) = match read_bytes(buf, p1, Ghost(x@.script@)) {
        Some(t) => t,
        None => {
            return None;
        },
    };
    proof {
        lemma_join(buf@, pos as int, p1 as int, p2 as int);
    }
    Some((ScriptPublicKey { version: v as u16, script }, p2))
}

fn read_outpoint(buf: &Vec<u8>, pos: usize, x: Ghost<TransactionOutpoint>) -> (r: Option<
    (TransactionOutpoint, usize),
>)
    ensures
        r matches Some((w, end)) ==> pos <= end <= buf@.len() && buf@.subrange(pos as int, end as int)
            == enc_outpoint(w),
        fits(buf@, pos as int, enc_outpoint(x@)) ==> (r matches Some((w, end)) && end == pos
            + enc_outpoint(x@).len()),
{
    let blen = buf.len();
    proof {
        lemma_le_len(x@.index as nat, 4);
        lemma_pow256_8();
        if fits(buf@, pos as int, enc_outpoint(x@)) {
            lemma_fits_split(buf@, pos as int, x@.transaction_id@, le_bytes(x@.index as nat, 4));
        }
    }
    if pos > blen || 32 > blen - pos {
        return None;
    }
    let mut id = [0u8; 32];
    let mut k: usize = 0;
    while k < 32
        invariant
            k <= 32,
            pos + 32 <= buf@.len(),
            buf@.len() == blen,
            forall|j: int| 0 <= j < k ==> id@[j] == buf@[pos + j],
        decreases 32 - k,
    {
        id[k] = buf[pos + k];
        k += 1;
    }
    assert(id@ =~= buf@.subrange(pos as int, pos + 32));
    let (index, p2) = match read_le(buf, pos + 32, 4, Ghost(x@.index as nat)) {
        Some(t) => t,
        None => {
            return None;
        },
    };
    proof {
        lemma_join(buf@, pos as int, pos + 32, p2 as int);
    }
    Some((TransactionOutpoint { transaction_id: id, index: index as u32 }, p2))
}

fn read_entry(buf: &Vec<u8>, pos: usize, x: Ghost<UtxoEntry>) -> (r: Option<(UtxoEntry, usize)>)
    ensures
        r matches Some((w, end)) ==> pos <= end <= buf@.len() && buf@.subrange(pos as int, end as int)
            == enc_entry(w),
        fits(buf@, pos as int, enc_entry(x@)) ==> (r matches Some((w, end)) && end == pos
            + enc_entry(x@).len()),
{
    let ghost v = x@;
    let ghost o = enc_outpoint(v.outpoint);
    let ghost a = le_bytes(v.amount as nat, 8);
    let ghost sc = enc_script(v.script_public_key);
    let ghost d = le_bytes(v.block_daa_score as nat, 8);
    let ghost b = enc_bool(v.is_coinbase);
    proof {
        lemma_le_len(v.amount as nat, 8);
        lemma_le_len(v.block_daa_score as nat, 8);
        lemma_pow256_8();
        if fits(buf@, pos as int, enc_entry(v)) {
            lemma_fits_split(buf@, pos as int, o + a + sc + d, b);
            lemma_fits_split(buf@, pos as int, o + a + sc, d);
            lemma_fits_split(buf@, pos as int, o + a, sc);
            lemma_fits_split(buf@, pos as int, o, a);
        }
    }
    let (outpoint, p1) = match read_outpoint(buf, pos, Ghost(v.outpoint)) {
        Some(t) => t,
        None => {
            return None;
        },
    };
    let (amount, p2) = match read_le(buf, p1, 8, Ghost(v.amount as nat)) {
        Some(t) => t,
        None => {
            return None;
        },
    };
    let (script_public_key, p3) = match read_script(buf, p2, Ghost(v.script_public_key)) {
        Some(t) => t,
        None => {
            return None;
        },
    };
    let (block_daa_score, p4) = match read_le(buf, p3, 8, Ghost(v.block_daa_score as nat)) {
        Some(t) => t,
        None => {
            return None;
        },
    };
    let (is_coinbase, p5) = match read_flag(buf, p4, Ghost(v.is_coinbase)) {
        Some(t) => t,
        None => {
            return None;
        },
    };
    proof {
        lemma_join(buf@, pos as int, p1 as int, p2 as int);
        lemma_join(buf@, pos as int, p2 as int, p3 as int);
        lemma_join(buf@, pos as int, p3 as int, p4 as int);
        lemma_join(buf@, pos as int, p4 as int, p5 as int);
    }
    let w = UtxoEntry { outpoint, amount, script_public_key, block_daa_score, is_coinbase };
    assert(buf@.subrange(pos as int, p5 as int) =~= enc_entry(w));
    Some((w, p5))
}

fn read_opt_entry(buf: &Vec<u8>, pos: usize, x: Ghost<Option<UtxoEntry>>) -> (r: Option<
    (Option<UtxoEntry>, usize),
>)
    ensures
        r matches Some((w, end)) ==> pos <= end <= buf@.len() && buf@.subrange(pos as int, end as int)
            == enc_opt_entry(w),
        fits(buf@, pos as int, enc_opt_entry(x@)) ==> (r matches Some((w, end)) && end == pos
            + enc_opt_entry(x@).len()),
{
    let ghost inner = match x@ {
        Some(u) => u,
        None => arbitrary(),
    };
    proof {
        if fits(buf@, pos as int, enc_opt_entry(x@)) {
            let tail = enc_opt_entry(x@).subrange(1, enc_opt_entry(x@).len() as int);
            assert(enc_opt_entry(x@) =~= enc_bool(x@ is Some) + tail);
            lemma_fits_split(buf@, pos as int, enc_bool(x@ is Some), tail);
            if x@ is Some {
                assert(tail =~= enc_entry(inner));
            }
        }
    }
    let (flag, p1) = match read_flag(buf, pos, Ghost(x@ is Some)) {
        Some(t) => t,
        None => {
            return None;
        },
    };
    if !flag {
        return Some((None, p1));
    }
    match read_entry(buf, p1, Ghost(inner)) {
        Some((u, end)) => {
            proof {
                lemma_join(buf@, pos as int, p1 as int, end as int);
                assert(enc_bool(true) + enc_entry(u) =~= enc_opt_entry(Some(u)));
            }
            Some((Some(u), end))
        },
        None => None,
    }
}

fn read_input(buf: &Vec<u8>, pos: usize, x: Ghost<PsktInput>) -> (r: Option<(PsktInput, usize)>)
    ensures
        r matches Some((w, end)) ==> pos <= end <= buf@.len() && buf@.subrange(pos as int, end as int)
            == enc_input(w),
        fits(buf@, pos as int, enc_input(x@)) ==> (r matches Some((w, end)) && end == pos
            + enc_input(x@).len()),
{
    let ghost v = x@;
    let ghost e = enc_opt_entry(v.utxo_entry);
    let ghost o = enc_outpoint(v.previous_outpoint);
    let ghost q = enc_opt_u64(v.sequence);
    let ghost c = enc_opt_u8(v.sig_op_count);
    let ghost rs = enc_opt_bytes(v.redeem_script);
    let ghost f = enc_opt_bytes(v.final_script_sig);
    proof {
        if fits(buf@, pos as int, enc_input(v)) {
            lemma_fits_split(buf@, pos as int, e + o + q + c + rs, f);
            lemma_fits_split(buf@, pos as int, e + o + q + c, rs);
            lemma_fits_split(buf@, pos as int, e + o + q, c);
            lemma_fits_split(buf@, pos as int, e + o, q);
            lemma_fits_split(buf@, pos as int, e, o);
        }
    }
    let (utxo_entry, p1) = match read_opt_entry(buf, pos, Ghost(v.utxo_entry)) {
        Some(t) => t,
        None => {
            return None;
        },
    };
    let (previous_outpoint, p2) = match read_outpoint(buf, p1, Ghost(v.previous_outpoint)) {
        Some(t) => t,
        None => {
            return None;
        },
    };
    let (sequence, p3) = match read_opt_u64(buf, p2, Ghost(v.sequence)) {
        Some(t) => t,
        None => {
            return None;
        },
    };
    let (sig_op_count, p4) = match read_opt_u8(buf, p3, Ghost(v.sig_op_count)) {
        Some(t) => t,
        None => {
            return None;
        },
    };
    let (redeem_script, p5) = match read_opt_bytes(buf, p4, Ghost(v.redeem_script)) {
        Some(t) => t,
        None => {
            return None;
        },
    };
    let (final_script_sig, p6) = match read_opt_bytes(buf, p5, Ghost(v.final_script_sig)) {
        Some(t) => t,
        None => {
            return None;
        },
    };
    proof {
        lemma_join(buf@, pos as int, p1 as int, p2 as int);
        lemma_join(buf@, pos as int, p2 as int, p3 as int);
        lemma_join(buf@, pos as int, p3 as int, p4 as int);
        lemma_join(buf@, pos as int, p4 as int, p5 as int);
        lemma_join(buf@, pos as int, p5 as int, p6 as int);
    }
    let w = PsktInput {
        utxo_entry,
        previous_outpoint,
        sequence,
        sig_op_count,
        redeem_script,
        final_script_sig,
    };
    assert(buf@.subrange(pos as int, p6 as int) =~= enc_input(w));
    Some((w, p6))
}

fn read_output(buf: &Vec<u8>, pos: usize, x: Ghost<PsktOutput>) -> (r: Option<(PsktOutput, usize)>)
    ensures
        r matches Some((w, end)) ==> pos <= end <= buf@.len() && buf@.subrange(pos as int, end as int)
            == enc_output(w),
        fits(buf@, pos as int, enc_output(x@)) ==> (r matches Some((w, end)) && end == pos
            + enc_output(x@).len()),
{
    proof {
        lemma_le_len(x@.amount as nat, 8);
        lemma_pow256_8();
        if fits(buf@, pos as int, enc_output(x@)) {
            lemma_fits_split(
                buf@,
                pos as int,
                le_bytes(x@.amount as nat, 8),
                enc_script(x@.script_public_key),
            );
        }
    }
    let (amount, p1) = match read_le(buf, pos, 8, Ghost(x@.amount as nat)) {
        Some(t) => t,
        None => {
            return None;
        },
    };
    let (script_public_key, p2) = match read_script(buf, p1, Ghost(x@.script_public_key)) {
        Some(t) => t,
        None => {
            return None;
        },
    };
    proof {
        lemma_join(buf@, pos as int, p1 as int, p2 as int);
    }
    Some((PsktOutput { amount, script_public_key }, p2))
}

fn read_global(buf: &Vec<u8>, pos: usize, x: Ghost<PsktGlobal>) -> (r: Option<(PsktGlobal, usize)>)
    ensures
        r matches Some((w, end)) ==> pos <= end <= buf@.len() && buf@.subrange(pos as int, end as int)
            == enc_global(w),
        fits(buf@, pos as int, enc_global(x@)) ==> (r matches Some((w, end)) && end == pos
            + enc_global(x@).len()),
{
    let ghost v = x@;
    let ghost a = le_bytes(v.version as nat, 2);
    let ghost b = le_bytes(v.tx_version as nat, 2);
    let ghost l = enc_opt_u64(v.fallback_lock_time);
    let ghost i = enc_bool(v.inputs_modifiable);
    let ghost o = enc_bool(v.outputs_modifiable);
    let ghost y = enc_opt_bytes(v.payload);
    proof {
        lemma_le_len(v.version as nat, 2);
        lemma_le_len(v.tx_version as nat, 2);
        lemma_pow256_8();
        if fits(buf@, pos as int, enc_global(v)) {
            lemma_fits_split(buf@, pos as int, a + b + l + i + o, y);
            lemma_fits_split(buf@, pos as int, a + b + l + i, o);
            lemma_fits_split(buf@, pos as int, a + b + l, i);
            lemma_fits_split(buf@, pos as int, a + b, l);
            lemma_fits_split(buf@, pos as int, a, b);
        }
    }
    let (version, p1) = match read_le(buf, pos, 2, Ghost(v.version as nat)) {
        Some(t) => t,
        None => {
            return None;
        },
    };
    let (tx_version, p2) = match read_le(buf, p1, 2, Ghost(v.tx_version as nat)) {
        Some(t) => t,
        None => {
            return None;
        },
    };
    let (fallback_lock_time, p3) = match read_opt_u64(buf, p2, Ghost(v.fallback_lock_time)) {
        Some(t) => t,
        None => {
            return None;
        },
    };
    let (inputs_modifiable, p4) = match read_flag(buf, p3, Ghost(v.inputs_modifiable)) {
        Some(t) => t,
        None => {
            return None;
        },
    };
    let (outputs_modifiable, p5) = match read_flag(buf, p4, Ghost(v.outputs_modifiable)) {
        Some(t) => t,
        None => {
            return None;
        },
    };
    let (payload, p6) = match read_opt_bytes(buf, p5, Ghost(v.payload)) {
        Some(t) => t,
        None => {
            return None;
        },
    };
    proof {
        lemma_join(buf@, pos as int, p1 as int, p2 as int);
        lemma_join(buf@, pos as int, p2 as int, p3 as int);
        lemma_join(buf@, pos as int, p3 as int, p4 as int);
        lemma_join(buf@, pos as int, p4 as int, p5 as int);
        lemma_join(buf@, pos as int, p5 as int, p6 as int);
    }
    let w = PsktGlobal {
        version: version as u16,
        tx_version: tx_version as u16,
        fallback_lock_time,
        inputs_modifiable,
        outputs_modifiable,
        payload,
    };
    assert(buf@.subrange(pos as int, p6 as int) =~= enc_global(w));
    Some((w, p6))
}

proof fn lemma_inputs_prefix(b: Seq<u8>, p: int, s: Seq<PsktInput>, k: int)
    requires
        fits(b, p, enc_inputs(s)),
        0 <= k <= s.len(),
    ensures
        fits(b, p, enc_inputs(s.subrange(0, k))),
    decreases s.len() - k,
{
    if k < s.len() {
        assert(s.subrange(0, k + 1).drop_last() =~= s.subrange(0, k));
        lemma_inputs_prefix(b, p, s, k + 1);
        lemma_fits_split(b, p, enc_inputs(s.subrange(0, k)), enc_input(s[k]));
    } else {
        assert(s.subrange(0, k) =~= s);
    }
}

proof fn lemma_inputs_len(s: Seq<PsktInput>)
    ensures
        enc_inputs(s).len() >= s.len(),
    decreases s.len(),
{
    if s.len() > 0 {
        lemma_inputs_len(s.drop_last());
    }
}

fn read_input_list(buf: &Vec<u8>, pos: usize, x: Ghost<Seq<PsktInput>>) -> (r: Option<(Vec<PsktInput>, usize)>)
    ensures
        r matches Some((w, end)) ==> pos <= end <= buf@.len() && buf@.subrange(pos as int, end as int)
            == enc_input_list(w@),
        fits(buf@, pos as int, enc_input_list(x@)) ==> (r matches Some((w, end)) && end == pos
            + enc_input_list(x@).len()),
{
    let blen = buf.len();
    let ghost premise = fits(buf@, pos as int, enc_input_list(x@));
    proof {
        lemma_le_len(x@.len(), 8);
        lemma_pow256_8();
        lemma_inputs_len(x@);
        if premise {
            lemma_fits_split(buf@, pos as int, le_bytes(x@.len(), 8), enc_inputs(x@));
        }
    }
    let (count, p1) = match read_le(buf, pos, 8, Ghost(x@.len())) {
        Some(t) => t,
        None => {
            return None;
        },
    };
    let mut items: Vec<PsktInput> = Vec::new();
    let mut cur = p1;
    let mut i: u64 = 0;
    assert(buf@.subrange(p1 as int, p1 as int) =~= enc_inputs(items@));
    while i < count
        invariant
            buf@.len() == blen,
            pos < p1 <= cur <= blen,
            p1 == pos + 8,
            items@.len() == i,
            i <= count,
            buf@.subrange(p1 as int, cur as int) == enc_inputs(items@),
            premise == fits(buf@, pos as int, enc_input_list(x@)),
            premise ==> count == x@.len() && fits(buf@, p1 as int, enc_inputs(x@)) && cur == p1
                + enc_inputs(x@.subrange(0, i as int)).len(),
        decreases count - i,
    {
        let ghost want = if premise {
            x@[i as int]
        } else {
            arbitrary()
        };
        proof {
            if premise {
                lemma_inputs_prefix(buf@, p1 as int, x@, i + 1);
                assert(x@.subrange(0, i + 1).drop_last() =~= x@.subrange(0, i as int));
                assert(x@.subrange(0, i + 1).last() == x@[i as int]);
                assert(enc_inputs(x@.subrange(0, i + 1)) == enc_inputs(x@.subrange(0, i as int)) + enc_input(
                    x@[i as int],
                ));
                lemma_fits_split(
                    buf@,
                    p1 as int,
                    enc_inputs(x@.subrange(0, i as int)),
                    enc_input(x@[i as int]),
                );
            }
        }
        let (item, next) = match read_input(buf, cur, Ghost(want)) {
            Some(t) => t,
            None => {
                return None;
            },
        };
        let ghost before = items@;
        items.push(item);
        proof {
            lemma_join(buf@, p1 as int, cur as int, next as int);
            assert(items@.drop_last() =~= before);
        }
        cur = next;
        i += 1;
    }
    proof {
        lemma_join(buf@, pos as int, p1 as int, cur as int);
        if premise {
            assert(x@.subrange(0, i as int) =~= x@);
        }
    }
    Some((items, cur))
}

proof fn lemma_outputs_prefix(b: Seq<u8>, p: int, s: Seq<PsktOutput>, k: int)
    requires
        fits(b, p, enc_outputs(s)),
        0 <= k <= s.len(),
    ensures
        fits(b, p, enc_outputs(s.subrange(0, k))),
    decreases s.len() - k,
{
    if k < s.len() {
        assert(s.subrange(0, k + 1).drop_last() =~= s.subrange(0, k));
        lemma_outputs_prefix(b, p, s, k + 1);
        lemma_fits_split(b, p, enc_outputs(s.subrange(0, k)), enc_output(s[k]));
    } else {
        assert(s.subrange(0, k) =~= s);
    }
}

proof fn lemma_outputs_len(s: Seq<PsktOutput>)
    ensures
        enc_outputs(s).len() >= s.len(),
    decreases s.len(),
{
    if s.len() > 0 {
        lemma_outputs_len(s.drop_last());
    }
}

fn read_output_list(buf: &Vec<u8>, pos: usize, x: Ghost<Seq<PsktOutput>>) -> (r: Option<(Vec<PsktOutput>, usize)>)
    ensures
        r matches Some((w, end)) ==> pos <= end <= buf@.len() && buf@.subrange(pos as int, end as int)
            == enc_output_list(w@),
        fits(buf@, pos as int, enc_output_list(x@)) ==> (r matches Some((w, end)) && end == pos
            + enc_output_list(x@).len()),
{
    let blen = buf.len();
    let ghost premise = fits(buf@, pos as int, enc_output_list(x@));
    proof {
        lemma_le_len(x@.len(), 8);
        lemma_pow256_8();
        lemma_outputs_len(x@);
        if premise {
            lemma_fits_split(buf@, pos as int, le_bytes(x@.len(), 8), enc_outputs(x@));
        }
    }
    let (count, p1) = match read_le(buf, pos, 8, Ghost(x@.len())) {
        Some(t) => t,
        None => {
            return None;
        },
    };
    let mut items: Vec<PsktOutput> = Vec::new();
    let mut cur = p1;
    let mut i: u64 = 0;
    assert(buf@.subrange(p1 as int, p1 as int) =~= enc_outputs(items@));
    while i < count
        invariant
            buf@.len() == blen,
            pos < p1 <= cur <= blen,
            p1 == pos + 8,
            items@.len() == i,
            i <= count,
            buf@.subrange(p1 as int, cur as int) == enc_outputs(items@),
            premise == fits(buf@, pos as int, enc_output_list(x@)),
            premise ==> count == x@.len() && fits(buf@, p1 as int, enc_outputs(x@)) && cur == p1
                + enc_outputs(x@.subrange(0, i as int)).len(),
        decreases count - i,
    {
        let ghost want = if premise {
            x@[i as int]
        } else {
            arbitrary()
        };
        proof {
            if premise {
                lemma_outputs_prefix(buf@, p1 as int, x@, i + 1);
                assert(x@.subrange(0, i + 1).drop_last() =~= x@.subrange(0, i as int));
                assert(x@.subrange(0, i + 1).last() == x@[i as int]);
                assert(enc_outputs(x@.subrange(0, i + 1)) == enc_outputs(x@.subrange(0, i as int)) + enc_output(
                    x@[i as int],
                ));
                lemma_fits_split(
                    buf@,
                    p1 as int,
                    enc_outputs(x@.subrange(0, i as int)),
                    enc_output(x@[i as int]),
                );
            }
        }
        let (item, next) = match read_output(buf, cur, Ghost(want)) {
            Some(t) => t,
            None => {
                return None;
            },
        };
        let ghost before = items@;
        items.push(item);
        proof {
            lemma_join(buf@, p1 as int, cur as int, next as int);
            assert(items@.drop_last() =~= before);
        }
        cur = next;
        i += 1;
    }
    proof {
        lemma_join(buf@, pos as int, p1 as int, cur as int);
        if premise {
            assert(x@.subrange(0, i as int) =~= x@);
        }
    }
    Some((items, cur))
}

fn read_inner(buf: &Vec<u8>, pos: usize, x: Ghost<Inner>) -> (r: Option<(Inner, usize)>)
    ensures
        r matches Some((w, end)) ==> pos <= end <= buf@.len() && buf@.subrange(pos as int, end as int)
            == enc_inner(w),
        fits(buf@, pos as int, enc_inner(x@)) ==> (r matches Some((w, end)) && end == pos
            + enc_inner(x@).len()),
{
    let ghost v = x@;
    proof {
        if fits(buf@, pos as int, enc_inner(v)) {
            lemma_fits_split(
                buf@,
                pos as int,
                enc_global(v.global) + enc_input_list(v.inputs@),
                enc_output_list(v.outputs@),
            );
            lemma_fits_split(buf@, pos as int, enc_global(v.global), enc_input_list(v.inputs@));
        }
    }
    let (global, p1) = match read_global(buf, pos, Ghost(v.global)) {
        Some(t) => t,
        None => {
            return None;
        },
    };
    let (inputs, p2) = match read_input_list(buf, p1, Ghost(v.inputs@)) {
        Some(t) => t,
        None => {
            return None;
        },
    };
    let (outputs, p3) = match read_output_list(buf, p2, Ghost(v.outputs@)) {
        Some(t) => t,
        None => {
            return None;
        },
    };
    proof {
        lemma_join(buf@, pos as int, p1 as int, p2 as int);
        lemma_join(buf@, pos as int, p2 as int, p3 as int);
    }
    Some((Inner { global, inputs, outputs }, p3))
}

fn role_of_byte(b: u8) -> (r: Option<Role>)
    ensures
        r matches Some(role) ==> role_byte(role) == b,
        b < 8 ==> r is Some,
{
    if b == 0 {
        Some(Role::NoOp)
    } else if b == 1 {
        Some(Role::Creator)
    } else if b == 2 {
        Some(Role::Constructor)
    } else if b == 3 {
        Some(Role::Updater)
    } else if b == 4 {
        Some(Role::Signer)
    } else if b == 5 {
        Some(Role::Combiner)
    } else if b == 6 {
        Some(Role::Finalizer)
    } else if b == 7 {
        Some(Role::Extractor)
    } else {
        None
    }
}

/// Reads a state from its bytes. What it gives encodes to exactly those
/// bytes, and the bytes of every well-formed state are read back: so
/// encoding, decoding and encoding again gives the same bytes. Anything else
/// is `Serialization`.
pub fn decode(bytes: &Vec<u8>) -> (r: Result<Pskt, Error>)
    ensures
        r matches Ok(p) ==> p.wf() && pskt_bytes(p) == bytes@,
        (exists|p: Pskt| p.wf() && #[trigger] pskt_bytes(p) == bytes@) ==> r is Ok,
        r is Err ==> r == Err::<Pskt, Error>(Error::Serialization),
{
    let ghost premise = exists|p: Pskt| p.wf() && #[trigger] pskt_bytes(p) == bytes@;
    let ghost want = choose|p: Pskt| p.wf() && #[trigger] pskt_bytes(p) == bytes@;
    let ghost want_inner = match want.inner {
        Some(i) => i,
        None => arbitrary(),
    };
    let blen = bytes.len();
    if blen < 2 {
        return Err(Error::Serialization);
    }
    proof {
        if premise {
            let tail = pskt_bytes(want).subrange(2, pskt_bytes(want).len() as int);
            assert(bytes@[0] == role_byte(want.role));
            assert(bytes@[1] == if want.inner is Some { 1u8 } else { 0u8 });
            if want.inner is Some {
                assert(tail =~= enc_inner(want_inner));
                assert(bytes@.subrange(2, bytes@.len() as int) =~= tail);
            }
        }
    }
    let role = match role_of_byte(bytes[0]) {
        Some(role) => role,
        None => {
            return Err(Error::Serialization);
        },
    };
    let flag = bytes[1];
    if flag == 0 {
        if blen != 2 || role != Role::NoOp {
            return Err(Error::Serialization);
        }
        let p = Pskt { role, inner: None };
        assert(pskt_bytes(p) =~= bytes@);
        return Ok(p);
    }
    if flag != 1 {
        return Err(Error::Serialization);
    }
    match read_inner(bytes, 2, Ghost(want_inner)) {
        Some((inner, end)) => {
            if end != blen {
                return Err(Error::Serialization);
            }
            proof {
                lemma_join(bytes@, 0, 2, end as int);
            }
            let p = Pskt { role, inner: Some(inner) };
            assert(pskt_bytes(p) =~= bytes@);
            Ok(p)
        },
        None => Err(Error::Serialization),
    }
}

fn write_bytes(out: &mut Vec<u8>, s: &Vec<u8>)
    ensures
        final(out)@ == old(out)@ + enc_bytes(s@),
{
    push_le(out, s.len() as u64, 8);
    push_slice(out, s.as_slice());
    assert(final(out)@ =~= old(out)@ + enc_bytes(s@));
}

fn write_flag(out: &mut Vec<u8>, b: bool)
    ensures
        final(out)@ == old(out)@ + enc_bool(b),
{
    out.push(if b { 1u8 } else { 0u8 });
    assert(final(out)@ =~= old(out)@ + enc_bool(b));
}

fn write_opt_u64(out: &mut Vec<u8>, o: Option<u64>)
    ensures
        final(out)@ == old(out)@ + enc_opt_u64(o),
{
    match o {
        Some(v) => {
            out.push(1u8);
            push_le(out, v, 8);
        },
        None => out.push(0u8),
    }
    assert(final(out)@ =~= old(out)@ + enc_opt_u64(o));
}

fn write_opt_bytes(out: &mut Vec<u8>, o: &Option<Vec<u8>>)
    ensures
        final(out)@ == old(out)@ + enc_opt_bytes(*o),
{
    match o {
        Some(v) => {
            out.push(1u8);
            write_bytes(out, v);
        },
        None => out.push(0u8),
    }
    assert(final(out)@ =~= old(out)@ + enc_opt_bytes(*o));
}

fn write_script(out: &mut Vec<u8>, s: &ScriptPublicKey)
    ensures
        final(out)@ == old(out)@ + enc_script(*s),
{
    push_le(out, s.version as u64, 2);
    write_bytes(out, &s.script);
    assert(final(out)@ =~= old(out)@ + enc_script(*s));
}

fn write_outpoint(out: &mut Vec<u8>, o: &TransactionOutpoint)
    ensures
        final(out)@ == old(out)@ + enc_outpoint(*o),
{
    push_slice(out, o.transaction_id.as_slice());
    push_le(out, o.index as u64, 4);
    assert(final(out)@ =~= old(out)@ + enc_outpoint(*o));
}

fn write_entry(out: &mut Vec<u8>, u: &UtxoEntry)
    ensures
        final(out)@ == old(out)@ + enc_entry(*u),
{
    write_outpoint(out, &u.outpoint);
    push_le(out, u.amount, 8);
    write_script(out, &u.script_public_key);
    push_le(out, u.block_daa_score, 8);
    write_flag(out, u.is_coinbase);
    assert(final(out)@ =~= old(out)@ + enc_entry(*u));
}

fn write_opt_entry(out: &mut Vec<u8>, o: &Option<UtxoEntry>)
    ensures
        final(out)@ == old(out)@ + enc_opt_entry(*o),
{
    match o {
        Some(u) => {
            out.push(1u8);
            write_entry(out, u);
        },
        None => out.push(0u8),
    }
    assert(final(out)@ =~= old(out)@ + enc_opt_entry(*o));
}

fn write_opt_u8(out: &mut Vec<u8>, o: Option<u8>)
    ensures
        final(out)@ == old(out)@ + enc_opt_u8(o),
{
    match o {
        Some(n) => {
            out.push(1u8);
            out.push(n);
        },
        None => out.push(0u8),
    }
    assert(final(out)@ =~= old(out)@ + enc_opt_u8(o));
}

fn write_input(out: &mut Vec<u8>, i: &PsktInput)
    ensures
        final(out)@ == old(out)@ + enc_input(*i),
{
    let ghost s0 = out@;
    write_opt_entry(out, &i.utxo_entry);
    let ghost s1 = out@;
    write_outpoint(out, &i.previous_outpoint);
    let ghost s2 = out@;
    write_opt_u64(out, i.sequence);
    let ghost s3 = out@;
    write_opt_u8(out, i.sig_op_count);
    let ghost s4 = out@;
    write_opt_bytes(out, &i.redeem_script);
    let ghost s5 = out@;
    write_opt_bytes(out, &i.final_script_sig);
    assert(s2 =~= s0 + enc_opt_entry(i.utxo_entry) + enc_outpoint(i.previous_outpoint));
    assert(s4 =~= s2 + enc_opt_u64(i.sequence) + enc_opt_u8(i.sig_op_count));
    assert(final(out)@ =~= old(out)@ + enc_input(*i));
}

fn write_output(out: &mut Vec<u8>, o: &PsktOutput)
    ensures
        final(out)@ == old(out)@ + enc_output(*o),
{
    push_le(out, o.amount, 8);
    write_script(out, &o.script_public_key);
    assert(final(out)@ =~= old(out)@ + enc_output(*o));
}

fn write_inner(out: &mut Vec<u8>, inner: &Inner)
    ensures
        final(out)@ == old(out)@ + enc_inner(*inner),
{
    let g = &inner.global;
    push_le(out, g.version as u64, 2);
    push_le(out, g.tx_version as u64, 2);
    write_opt_u64(out, g.fallback_lock_time);
    write_flag(out, g.inputs_modifiable);
    write_flag(out, g.outputs_modifiable);
    write_opt_bytes(out, &g.payload);
    let ghost after_global = out@;
    assert(after_global =~= old(out)@ + enc_global(*g));
    push_le(out, inner.inputs.len() as u64, 8);
    let ghost head = out@;
    let mut i: usize = 0;
    while i < inner.inputs.len()
        invariant
            i <= inner.inputs@.len(),
            out@ == head + enc_inputs(inner.inputs@.subrange(0, i as int)),
        decreases inner.inputs.len() - i,
    {
        assert(inner.inputs@.subrange(0, i + 1).drop_last() =~= inner.inputs@.subrange(0, i as int));
        write_input(out, &inner.inputs[i]);
        i += 1;
        assert(out@ =~= head + enc_inputs(inner.inputs@.subrange(0, i as int)));
    }
    assert(inner.inputs@.subrange(0, i as int) =~= inner.inputs@);
    let ghost after_inputs = out@;
    assert(after_inputs =~= after_global + enc_input_list(inner.inputs@));
    push_le(out, inner.outputs.len() as u64, 8);
    let ghost mid = out@;
    let mut j: usize = 0;
    while j < inner.outputs.len()
        invariant
            j <= inner.outputs@.len(),
            out@ == mid + enc_outputs(inner.outputs@.subrange(0, j as int)),
        decreases inner.outputs.len() - j,
    {
        assert(inner.outputs@.subrange(0, j + 1).drop_last() =~= inner.outputs@.subrange(0, j as int));
        write_output(out, &inner.outputs[j]);
        j += 1;
        assert(out@ =~= mid + enc_outputs(inner.outputs@.subrange(0, j as int)));
    }
    assert(inner.outputs@.subrange(0, j as int) =~= inner.outputs@);
    assert(final(out)@ =~= old(out)@ + enc_inner(*inner));
}

/// The bytes of a state: its role, then what it carries.
pub fn encode(p: &Pskt) -> (r: Vec<u8>)
    ensures
        r@ == pskt_bytes(*p),
{
    let mut out: Vec<u8> = Vec::new();
    out.push(
        match p.role {
            Role::NoOp => 0u8,
            Role::Creator => 1u8,
            Role::Constructor => 2u8,
            Role::Updater => 3u8,
            Role::Signer => 4u8,
            Role::Combiner => 5u8,
            Role::Finalizer => 6u8,
            Role::Extractor => 7u8,
        },
    );
    match &p.inner {
        Some(inner) => {
            out.push(1u8);
            write_inner(&mut out, inner);
        },
        None => out.push(0u8),
    }
    assert(out@ =~= pskt_bytes(*p));
    out
}

} // verus!
