//! Seals: bindings of state to transaction outputs, in disclosed and
//! blinded form, and the transaction-output graph that tells how outputs
//! were spent.

use vstd::prelude::*;
use crate::encoding::{le32, le64, push_raw, push_u32, push_u64};
use crate::ids::bytes32_eq;
use amplify::RawArray;
use bp::seals::txout::blind::BlindSeal as BpBlindSeal;
use bp::seals::txout::{CloseMethod as BpCloseMethod, TxPtr};

verus! {

/// A seal standing in for a disclosed one: a commitment hash only.
pub trait ConfidentialSeal: Sized {
    /// The 32 bytes of the commitment.
    spec fn commitment_spec(&self) -> Seq<u8>;

    fn commitment(&self) -> (r: [u8; 32])
        ensures
            r@ == self.commitment_spec(),
    ;

    /// Concealing what is already concealed changes nothing.
    fn conceal(&self) -> (r: Self)
        ensures
            r == *self,
    ;
}

/// A disclosed seal with its one-way concealment.
pub trait ExposedSeal: Sized {
    type Confidential: ConfidentialSeal;

    /// The commitment that concealment gives for this seal.
    spec fn concealed_bytes(&self) -> Seq<u8>;

    fn conceal(&self) -> (r: Self::Confidential)
        ensures
            r.commitment_spec() == self.concealed_bytes(),
    ;
}

/// A disclosed seal: an output, given by the transaction that defines it
/// (absent where that transaction is the one that carries the operation) and
/// its output number, together with a blinding factor.
#[derive(Clone, Copy, PartialEq, Eq, PartialOrd, Ord, Hash, Debug)]
pub struct BlindSeal {
    pub method: CloseMethod,
    pub txid: Option<[u8; 32]>,
    pub vout: u32,
    pub blinding: u64,
}

/// How a seal is closed: by an OP_RETURN or a Taproot commitment in the
/// first output of that kind.
#[derive(Clone, Copy, PartialEq, Eq, PartialOrd, Ord, Hash, Debug)]
pub enum CloseMethod {
    OpretFirst,
    TapretFirst,
}

/// The byte that stands for a close method in encodings.
pub open spec fn method_tag(m: CloseMethod) -> u8 {
    match m {
        CloseMethod::OpretFirst => 0u8,
        CloseMethod::TapretFirst => 1u8,
    }
}

/// The concealed form that bp-seals gives a disclosed seal with these fields.
pub uninterp spec fn bp_secret_seal(tapret: bool, txid: Option<Seq<u8>>, vout: u32, blinding: u64) -> Seq<u8>;

pub open spec fn txid_view(t: Option<[u8; 32]>) -> Option<Seq<u8>> {
    match t {
        None => None,
        Some(v) => Some(v@),
    }
}

/// Relies on bp-seals' `BlindSeal::<TxPtr>::with_blinding` and
/// `to_concealed_seal`: the concealed seal is a function of the close
/// method, transaction pointer, output number and blinding factor.
#[verifier::external_body]
fn bp_conceal(tapret: bool, txid: Option<[u8; 32]>, vout: u32, blinding: u64) -> (r: [u8; 32])
    ensures
        r@ == bp_secret_seal(tapret, txid_view(txid), vout, blinding),
{
    let method = if tapret { BpCloseMethod::TapretFirst } else { BpCloseMethod::OpretFirst };
    let txid = match txid {
        Some(t) => TxPtr::Txid(bp::Txid::from(t)),
        None => TxPtr::WitnessTx,
    };
    let seal = BpBlindSeal::<TxPtr>::with_blinding(method, txid, bp::Vout::from_u32(vout), blinding);
    seal.to_concealed_seal().to_raw_array()
}

/// A concealed seal: the commitment that bp-seals computes for a disclosed one.
#[derive(Clone, Copy, PartialEq, Eq, PartialOrd, Ord, Hash, Debug)]
pub struct SecretSeal {
    pub bytes: [u8; 32],
}

/// Encoding of a disclosed seal: the close method, the transaction id as an
/// option, the output number and the blinding factor.
pub open spec fn seal_encoding(s: BlindSeal) -> Seq<u8> {
    let txid = match s.txid {
        None => seq![0u8],
        Some(t) => seq![1u8] + t@,
    };
    seq![method_tag(s.method)] + txid + le32(s.vout) + le64(s.blinding)
}

impl BlindSeal {
    pub fn encode(&self) -> (r: Vec<u8>)
        ensures
            r@ == seal_encoding(*self),
    {
        let mut out: Vec<u8> = Vec::new();
        match self.method {
            CloseMethod::OpretFirst => out.push(0u8),
            CloseMethod::TapretFirst => out.push(1u8),
        }
        match &self.txid {
            None => out.push(0u8),
            Some(t) => {
                out.push(1u8);
                push_raw(&mut out, t.as_slice());
            },
        }
        push_u32(&mut out, self.vout);
        push_u64(&mut out, self.blinding);
        assert(out@ =~= seal_encoding(*self));
        out
    }
}

/// Why bytes are not the encoding of a disclosed seal.
#[derive(Clone, Copy, PartialEq, Eq, Debug)]
pub enum DecodeError {
    /// The close method byte is neither 0 nor 1, or the next byte is neither
    /// 0 (no transaction id) nor 1 (a transaction id).
    InvalidTag(u8),
    /// The bytes are shorter or longer than the encoding that the first byte announces.
    InvalidLength(usize),
}

fn read_u32(b: &[u8], at: usize) -> (r: u32)
    requires
        at + 4 <= b@.len(),
    ensures
        le32(r) == b@.subrange(at as int, at + 4),
{
    let x0 = b[at];
    let x1 = b[at + 1];
    let x2 = b[at + 2];
    let x3 = b[at + 3];
    let r: u32 = (x0 as u32) | ((x1 as u32) << 8u32) | ((x2 as u32) << 16u32) | ((x3 as u32) << 24u32);
    assert(r as u8 == x0 && (r >> 8u32) as u8 == x1 && (r >> 16u32) as u8 == x2 && (r >> 24u32) as u8 == x3)
        by (bit_vector)
        requires
            r == (x0 as u32) | ((x1 as u32) << 8u32) | ((x2 as u32) << 16u32) | ((x3 as u32) << 24u32),
    ;
    assert(le32(r) =~= b@.subrange(at as int, at + 4));
    r
}

fn read_u64(b: &[u8], at: usize) -> (r: u64)
    requires
        at + 8 <= b@.len(),
    ensures
        le64(r) == b@.subrange(at as int, at + 8),
{
    let x0 = b[at];
    let x1 = b[at + 1];
    let x2 = b[at + 2];
    let x3 = b[at + 3];
    let x4 = b[at + 4];
    let x5 = b[at + 5];
    let x6 = b[at + 6];
    let x7 = b[at + 7];
    let r: u64 = (x0 as u64) | ((x1 as u64) << 8u64) | ((x2 as u64) << 16u64) | ((x3 as u64) << 24u64)
        | ((x4 as u64) << 32u64) | ((x5 as u64) << 40u64) | ((x6 as u64) << 48u64) | ((x7 as u64) << 56u64);
    assert(r as u8 == x0 && (r >> 8u64) as u8 == x1 && (r >> 16u64) as u8 == x2 && (r >> 24u64) as u8 == x3
        && (r >> 32u64) as u8 == x4 && (r >> 40u64) as u8 == x5 && (r >> 48u64) as u8 == x6
        && (r >> 56u64) as u8 == x7) by (bit_vector)
        requires
            r == (x0 as u64) | ((x1 as u64) << 8u64) | ((x2 as u64) << 16u64) | ((x3 as u64) << 24u64)
                | ((x4 as u64) << 32u64) | ((x5 as u64) << 40u64) | ((x6 as u64) << 48u64) | ((x7 as u64) << 56u64),
    ;
    assert(le64(r) =~= b@.subrange(at as int, at + 8));
    r
}

proof fn lemma_le32_injective(x: u32, y: u32)
    requires
        le32(x) == le32(y),
    ensures
        x == y,
{
    assert(le32(x)[0] == le32(y)[0] && le32(x)[1] == le32(y)[1] && le32(x)[2] == le32(y)[2] && le32(x)[3] == le32(y)[3]);
    assert(x as u8 == y as u8 && (x >> 8u32) as u8 == (y >> 8u32) as u8 && (x >> 16u32) as u8 == (y >> 16u32) as u8
        && (x >> 24u32) as u8 == (y >> 24u32) as u8 ==> x == y) by (bit_vector);
}

proof fn lemma_le64_injective(x: u64, y: u64)
    requires
        le64(x) == le64(y),
    ensures
        x == y,
{
    assert forall|i: int| 0 <= i < 8 implies le64(x)[i] == le64(y)[i] by {}
    assert(le64(x)[0] == le64(y)[0] && le64(x)[1] == le64(y)[1] && le64(x)[2] == le64(y)[2] && le64(x)[3] == le64(y)[3]);
    assert(le64(x)[4] == le64(y)[4] && le64(x)[5] == le64(y)[5] && le64(x)[6] == le64(y)[6] && le64(x)[7] == le64(y)[7]);
    assert(x as u8 == y as u8 && (x >> 8u64) as u8 == (y >> 8u64) as u8 && (x >> 16u64) as u8 == (y >> 16u64) as u8
        && (x >> 24u64) as u8 == (y >> 24u64) as u8 && (x >> 32u64) as u8 == (y >> 32u64) as u8
        && (x >> 40u64) as u8 == (y >> 40u64) as u8 && (x >> 48u64) as u8 == (y >> 48u64) as u8
        && (x >> 56u64) as u8 == (y >> 56u64) as u8 ==> x == y) by (bit_vector);
}

/// Distinct disclosed seals have distinct encodings.
pub proof fn lemma_seal_encoding_injective(a: BlindSeal, b: BlindSeal)
    requires
        seal_encoding(a) == seal_encoding(b),
    ensures
        a == b,
{
    let ea = seal_encoding(a);
    let off: int = if a.txid is Some { 34 } else { 2 };
    assert(ea[0] == seal_encoding(b)[0]);
    assert(ea[1] == seal_encoding(b)[1]);
    if let Some(ta) = a.txid {
        let tb = b.txid->Some_0;
        assert forall|i: int| 0 <= i < 32 implies ta[i] == tb[i] by {
            assert(ta@[i] == ea[2 + i]);
            assert(tb@[i] == seal_encoding(b)[2 + i]);
        }
        assert(ta =~= tb);
    }
    assert(ea.subrange(off, off + 4) =~= le32(a.vout));
    assert(seal_encoding(b).subrange(off, off + 4) =~= le32(b.vout));
    lemma_le32_injective(a.vout, b.vout);
    assert(ea.subrange(off + 4, off + 12) =~= le64(a.blinding));
    assert(seal_encoding(b).subrange(off + 4, off + 12) =~= le64(b.blinding));
    lemma_le64_injective(a.blinding, b.blinding);
}

/// Decoding what `encode` wrote gives the seal back.
pub proof fn lemma_seal_round_trip(s: BlindSeal, decoded: BlindSeal)
    requires
        seal_encoding(decoded) == seal_encoding(s),
    ensures
        decoded == s,
{
    lemma_seal_encoding_injective(decoded, s);
}

impl BlindSeal {
    /// Reads a disclosed seal from exactly its encoding.
    pub fn decode(b: &[u8]) -> (r: Result<BlindSeal, DecodeError>)
        ensures
            r matches Ok(s) ==> seal_encoding(s) == b@,
            r is Err ==> forall|s: BlindSeal| seal_encoding(s) != b@,
            r matches Err(DecodeError::InvalidTag(t)) ==> t > 1 && ((b@.len() > 0 && t == b@[0]) || (b@.len() > 1
                && b@[0] <= 1 && t == b@[1])),
            r matches Err(DecodeError::InvalidLength(n)) ==> n == b@.len(),
    {
        if b.len() < 2 {
            proof {
                assert forall|s: BlindSeal| seal_encoding(s) != b@ by {
                    assert(seal_encoding(s).len() > 2);
                }
            }
            return Err(DecodeError::InvalidLength(b.len()));
        }
        let m = b[0];
        if m > 1 {
            proof {
                assert forall|s: BlindSeal| seal_encoding(s) != b@ by {
                    assert(seal_encoding(s)[0] <= 1);
                }
            }
            return Err(DecodeError::InvalidTag(m));
        }
        let tag = b[1];
        if tag > 1 {
            proof {
                assert forall|s: BlindSeal| seal_encoding(s) != b@ by {
                    assert(seal_encoding(s)[1] <= 1);
                }
            }
            return Err(DecodeError::InvalidTag(tag));
        }
        let expected: usize = if tag == 0 { 14 } else { 46 };
        if b.len() != expected {
            proof {
                assert forall|s: BlindSeal| seal_encoding(s) != b@ by {
                    if seal_encoding(s) == b@ {
                        assert(seal_encoding(s)[1] == tag);
                    }
                }
            }
            return Err(DecodeError::InvalidLength(b.len()));
        }
        let method = if m == 0 { CloseMethod::OpretFirst } else { CloseMethod::TapretFirst };
        let mut txid: Option<[u8; 32]> = None;
        let mut at: usize = 2;
        if tag == 1 {
            let mut t = [0u8; 32];
            let mut i: usize = 0;
            while i < 32
                invariant
                    b@.len() == 46,
                    i <= 32,
                    forall|j: int| 0 <= j < i ==> t@[j] == b@[2 + j],
                decreases 32 - i,
            {
                t[i] = b[2 + i];
                i = i + 1;
            }
            assert(t@ =~= b@.subrange(2, 34));
            txid = Some(t);
            at = 34;
        }
        let vout = read_u32(b, at);
        let blinding = read_u64(b, at + 4);
        let s = BlindSeal { method, txid, vout, blinding };
        proof {
            if tag == 0 {
                assert(b@ =~= seq![m, 0u8] + b@.subrange(2, 6) + b@.subrange(6, 14));
            } else {
                assert(b@ =~= seq![m, 1u8] + b@.subrange(2, 34) + b@.subrange(34, 38) + b@.subrange(38, 46));
            }
            assert(seal_encoding(s) =~= b@);
        }
        Ok(s)
    }
}

impl ConfidentialSeal for SecretSeal {
    open spec fn commitment_spec(&self) -> Seq<u8> {
        self.bytes@
    }

    fn commitment(&self) -> (r: [u8; 32]) {
        self.bytes
    }

    fn conceal(&self) -> (r: Self) {
        *self
    }
}

impl ExposedSeal for BlindSeal {
    type Confidential = SecretSeal;

    open spec fn concealed_bytes(&self) -> Seq<u8> {
        bp_secret_seal(self.method is TapretFirst, txid_view(self.txid), self.vout, self.blinding)
    }

    fn conceal(&self) -> (r: SecretSeal) {
        let tapret = match self.method {
            CloseMethod::OpretFirst => false,
            CloseMethod::TapretFirst => true,
        };
        SecretSeal { bytes: bp_conceal(tapret, self.txid, self.vout, self.blinding) }
    }
}

/// Concealment is a function of the seal: equal seals conceal to the same
/// commitment, in every call.
pub proof fn lemma_seal_conceal_deterministic(a: BlindSeal, b: BlindSeal)
    requires
        a == b,
    ensures
        a.concealed_bytes() == b.concealed_bytes(),
{
}

/// A transaction output: transaction id and output number.
#[derive(Clone, Copy, PartialEq, Eq, PartialOrd, Ord, Hash, Debug)]
pub struct Outpoint {
    pub txid: [u8; 32],
    pub vout: u32,
}

/// A transaction as the graph knows it: its id, the outputs it spends and
/// how many outputs it creates.
#[derive(Clone, Debug)]
pub struct GraphTx {
    pub txid: [u8; 32],
    pub inputs: Vec<Outpoint>,
    pub outputs: u32,
}

/// What the graph says of an output.
#[derive(Clone, Copy, PartialEq, Eq, Debug)]
pub enum SpendingStatus {
    /// The output's transaction is in the graph and nothing spends it.
    Unspent,
    /// A transaction of the graph, with this id, spends the output.
    SpentIn([u8; 32]),
    /// The output is known to be spent, by a transaction the graph lacks.
    SpentUnknown,
    /// The transaction that would create the output is not in the graph.
    Absent,
}

/// Transactions of a contiguous history and the outputs known to be spent
/// outside of it.
#[derive(Clone, Debug)]
pub struct TxGraph {
    pub txs: Vec<GraphTx>,
    pub spent_elsewhere: Vec<Outpoint>,
}

/// The graph holds a transaction that creates output `o`.
pub open spec fn creates(txs: Seq<GraphTx>, o: Outpoint) -> bool {
    exists|i: int| 0 <= i < txs.len() && #[trigger] txs[i].txid == o.txid && o.vout < txs[i].outputs
}

/// Transaction `t` spends output `o`.
pub open spec fn spends(t: GraphTx, o: Outpoint) -> bool {
    t.inputs@.contains(o)
}

/// Position of the first transaction that spends `o`, if any.
pub open spec fn first_spender(txs: Seq<GraphTx>, o: Outpoint) -> Option<int>
    decreases txs.len(),
{
    if txs.len() == 0 {
        None
    } else {
        match first_spender(txs.drop_last(), o) {
            Some(i) => Some(i),
            None => if spends(txs.last(), o) { Some(txs.len() - 1) } else { None },
        }
    }
}

/// The status of output `o` in a graph.
pub open spec fn status_of(g: TxGraph, o: Outpoint) -> SpendingStatus {
    if !creates(g.txs@, o) {
        SpendingStatus::Absent
    } else {
        match first_spender(g.txs@, o) {
            Some(i) => SpendingStatus::SpentIn(g.txs@[i].txid),
            None => if g.spent_elsewhere@.contains(o) {
                SpendingStatus::SpentUnknown
            } else {
                SpendingStatus::Unspent
            },
        }
    }
}

proof fn lemma_first_spender_bounds(txs: Seq<GraphTx>, o: Outpoint)
    ensures
        first_spender(txs, o) matches Some(i) ==> 0 <= i < txs.len() && spends(txs[i], o),
        first_spender(txs, o) is None ==> forall|j: int| 0 <= j < txs.len() ==> !spends(#[trigger] txs[j], o),
    decreases txs.len(),
{
    if txs.len() > 0 {
        lemma_first_spender_bounds(txs.drop_last(), o);
        assert forall|j: int| 0 <= j < txs.len() - 1 implies txs.drop_last()[j] == #[trigger] txs[j] by {}
    }
}

/// Spending order in the graph: an output that a transaction of the graph
/// creates, and that nothing spends, is unspent; once a transaction that spends
/// it joins the graph, the output is spent in that transaction.
pub proof fn lemma_spend_after_add(g: TxGraph, t1: GraphTx, t2: GraphTx, o: Outpoint, after: TxGraph)
    requires
        g.txs@.contains(t1),
        t1.txid == o.txid,
        o.vout < t1.outputs,
        forall|j: int| 0 <= j < g.txs@.len() ==> !spends(#[trigger] g.txs@[j], o),
        !g.spent_elsewhere@.contains(o),
        spends(t2, o),
        after.txs@ == g.txs@.push(t2),
        after.spent_elsewhere@ == g.spent_elsewhere@,
    ensures
        status_of(g, o) == SpendingStatus::Unspent,
        status_of(after, o) == SpendingStatus::SpentIn(t2.txid),
{
    lemma_first_spender_bounds(g.txs@, o);
    let k = choose|k: int| 0 <= k < g.txs@.len() && g.txs@[k] == t1;
    assert(g.txs@[k].txid == o.txid && o.vout < g.txs@[k].outputs);
    assert(after.txs@[k] == g.txs@[k]);
    assert(after.txs@.drop_last() =~= g.txs@);
    assert(after.txs@.last() == t2);
}

fn same_outpoint(a: &Outpoint, b: &Outpoint) -> (r: bool)
    ensures
        r == (*a == *b),
{
    bytes32_eq(&a.txid, &b.txid) && a.vout == b.vout
}

fn vec_contains(v: &Vec<Outpoint>, o: Outpoint) -> (r: bool)
    ensures
        r == v@.contains(o),
{
    let mut i: usize = 0;
    while i < v.len()
        invariant
            i <= v@.len(),
            forall|j: int| 0 <= j < i ==> v@[j] != o,
        decreases v@.len() - i,
    {
        if same_outpoint(&v[i], &o) {
            return true;
        }
        i = i + 1;
    }
    false
}

impl TxGraph {
    pub fn new() -> (r: TxGraph)
        ensures
            r.txs@.len() == 0,
            r.spent_elsewhere@.len() == 0,
    {
        TxGraph { txs: Vec::new(), spent_elsewhere: Vec::new() }
    }

    /// Adds a transaction at the end of the history.
    pub fn add_tx(&mut self, tx: GraphTx)
        ensures
            final(self).txs@ == old(self).txs@.push(tx),
            final(self).spent_elsewhere@ == old(self).spent_elsewhere@,
    {
        self.txs.push(tx);
    }

    /// Records that an output was spent by a transaction outside the graph.
    pub fn add_spent_elsewhere(&mut self, o: Outpoint)
        ensures
            final(self).txs@ == old(self).txs@,
            final(self).spent_elsewhere@ == old(self).spent_elsewhere@.push(o),
    {
        self.spent_elsewhere.push(o);
    }

    /// Whether a transaction of the graph with id `a` spends an output of the
    /// transaction with id `b`.
    pub fn spends_output_of(&self, a: &[u8; 32], b: &[u8; 32]) -> (r: bool)
        ensures
            r == exists|i: int, k: int|
                0 <= i < self.txs@.len() && #[trigger] self.txs@[i].txid == *a && 0 <= k < self.txs@[i].inputs@.len()
                    && (#[trigger] self.txs@[i].inputs@[k]).txid == *b,
    {
        let mut i: usize = 0;
        while i < self.txs.len()
            invariant
                i <= self.txs@.len(),
                forall|j: int, k: int|
                    0 <= j < i && #[trigger] self.txs@[j].txid == *a && 0 <= k < self.txs@[j].inputs@.len()
                        ==> (#[trigger] self.txs@[j].inputs@[k]).txid != *b,
            decreases self.txs@.len() - i,
        {
            let tx = &self.txs[i];
            if bytes32_eq(&tx.txid, a) {
                let mut k: usize = 0;
                while k < tx.inputs.len()
                    invariant
                        i < self.txs@.len(),
                        *tx == self.txs@[i as int],
                        tx.txid == *a,
                        k <= tx.inputs@.len(),
                        forall|m: int| 0 <= m < k ==> (#[trigger] tx.inputs@[m]).txid != *b,
                    decreases tx.inputs@.len() - k,
                {
                    if bytes32_eq(&tx.inputs[k].txid, b) {
                        assert(self.txs@[i as int].txid == *a);
                        assert(self.txs@[i as int].inputs@[k as int].txid == *b);
                        return true;
                    }
                    k = k + 1;
                }
            }
            i = i + 1;
        }
        false
    }

    /// How output `o` stands: absent, spent by the first transaction of the
    /// graph that spends it, spent outside the graph, or unspent.
    pub fn spending_status(&self, o: Outpoint) -> (r: SpendingStatus)
        ensures
            r == status_of(*self, o),
    {
        let n = self.txs.len();
        let mut created = false;
        let mut spender: Option<usize> = None;
        let mut i: usize = 0;
        while i < n
            invariant
                n == self.txs@.len(),
                i <= n,
                created <==> exists|k: int| 0 <= k < i && #[trigger] self.txs@[k].txid == o.txid && o.vout < self.txs@[k].outputs,
                match first_spender(self.txs@.subrange(0, i as int), o) {
                    Some(k) => 0 <= k < i && spender == Some(k as usize),
                    None => spender is None,
                },
            decreases n - i,
        {
            let tx = &self.txs[i];
            if bytes32_eq(&tx.txid, &o.txid) && o.vout < tx.outputs {
                created = true;
            }
            let prefix = Ghost(self.txs@.subrange(0, i as int));
            assert(self.txs@.subrange(0, i as int + 1).drop_last() =~= prefix@);
            if spender.is_none() && vec_contains(&tx.inputs, o) {
                spender = Some(i);
            }
            i = i + 1;
        }
        assert(self.txs@.subrange(0, n as int) =~= self.txs@);
        if !created {
            SpendingStatus::Absent
        } else {
            match spender {
                Some(k) => SpendingStatus::SpentIn(self.txs[k].txid),
                None => if vec_contains(&self.spent_elsewhere, o) {
                    SpendingStatus::SpentUnknown
                } else {
                    SpendingStatus::Unspent
                },
            }
        }
    }
}

} // verus!
