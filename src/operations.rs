//! Contract operations (genesis, state transitions and state extensions),
//! their commitment encodings and identifiers, and a uniform view over them.

use vstd::prelude::*;
use crate::encoding::{blob16, le16, opt_blob16, push_blob16, push_opt_blob16, push_raw, push_u16};
use crate::ids::{
    cmp_bytes32, lex_less, tagged_digest, tagged_sha256, ContractId, OpId, EXTENSION_TAG, GENESIS_TAG, TRANSITION_TAG,
};
use crate::state::{assignments_commit, Assignments, TypedAssigns};

verus! {

/// The chain a contract lives on.
#[derive(Clone, Copy, PartialEq, Eq, PartialOrd, Ord, Hash, Debug)]
pub enum Chain {
    Bitcoin,
    Testnet3,
    Regtest,
    Signet,
}

/// The byte that stands for a chain in encodings.
pub open spec fn chain_tag(c: Chain) -> u8 {
    match c {
        Chain::Bitcoin => 0x00u8,
        Chain::Testnet3 => 0x83u8,
        Chain::Regtest => 0x80u8,
        Chain::Signet => 0x84u8,
    }
}

pub fn chain_byte(c: Chain) -> (r: u8)
    ensures
        r == chain_tag(c),
{
    match c {
        Chain::Bitcoin => 0x00u8,
        Chain::Testnet3 => 0x83u8,
        Chain::Regtest => 0x80u8,
        Chain::Signet => 0x84u8,
    }
}

/// The three kinds of operation.
#[derive(Clone, Copy, PartialEq, Eq, PartialOrd, Ord, Hash, Debug)]
pub enum OpType {
    Genesis,
    StateTransition,
    StateExtension,
}

/// The kind of an operation with its transition or extension type.
#[derive(Clone, Copy, PartialEq, Eq, PartialOrd, Ord, Hash, Debug)]
pub enum OpFullType {
    Genesis,
    StateTransition(u16),
    StateExtension(u16),
}

/// One global state value of a given global state type.
#[derive(Clone, PartialEq, Eq, Hash, Debug)]
pub struct GlobalValue {
    pub ty: u16,
    pub data: Vec<u8>,
}

/// Global state that an operation defines.
#[derive(Clone, PartialEq, Eq, Hash, Debug)]
pub struct GlobalState {
    pub values: Vec<GlobalValue>,
}

/// The indices of one assignment type that a transition consumes.
#[derive(Clone, PartialEq, Eq, Hash, Debug)]
pub struct TypeInputs {
    pub ty: u16,
    pub indices: Vec<u16>,
}

/// What a transition consumes of one prior operation.
#[derive(Clone, PartialEq, Eq, Hash, Debug)]
pub struct OpInputs {
    pub op: OpId,
    pub types: Vec<TypeInputs>,
}

/// The valencies that an extension redeems of one prior operation.
#[derive(Clone, PartialEq, Eq, Hash, Debug)]
pub struct Redeemed {
    pub op: OpId,
    pub valencies: Vec<u16>,
}

/// One consumed output: the prior operation, the assignment type and the index.
#[derive(Clone, Copy, PartialEq, Eq, PartialOrd, Ord, Hash, Debug)]
pub struct Opout {
    pub op: OpId,
    pub ty: u16,
    pub no: u16,
}

/// A list of 16-bit values, each in little-endian order.
pub open spec fn u16s_body(s: Seq<u16>) -> Seq<u8>
    decreases s.len(),
{
    if s.len() == 0 {
        seq![]
    } else {
        u16s_body(s.drop_last()) + le16(s.last())
    }
}

/// A list of 16-bit values preceded by its size as one byte.
pub open spec fn u16s_enc(s: Seq<u16>) -> Seq<u8> {
    seq![s.len() as u8] + u16s_body(s)
}

pub open spec fn globals_body(s: Seq<GlobalValue>) -> Seq<u8>
    decreases s.len(),
{
    if s.len() == 0 {
        seq![]
    } else {
        globals_body(s.drop_last()) + le16(s.last().ty) + blob16(s.last().data@)
    }
}

/// Encoding of global state: the number of values, then each value's type and blob.
pub open spec fn globals_enc(g: GlobalState) -> Seq<u8> {
    seq![g.values@.len() as u8] + globals_body(g.values@)
}

pub open spec fn type_inputs_body(s: Seq<TypeInputs>) -> Seq<u8>
    decreases s.len(),
{
    if s.len() == 0 {
        seq![]
    } else {
        type_inputs_body(s.drop_last()) + le16(s.last().ty) + u16s_enc(s.last().indices@)
    }
}

pub open spec fn op_inputs_enc(o: OpInputs) -> Seq<u8> {
    o.op.bytes@ + seq![o.types@.len() as u8] + type_inputs_body(o.types@)
}

pub open spec fn inputs_body(s: Seq<OpInputs>) -> Seq<u8>
    decreases s.len(),
{
    if s.len() == 0 {
        seq![]
    } else {
        inputs_body(s.drop_last()) + op_inputs_enc(s.last())
    }
}

/// Encoding of a transition's inputs.
pub open spec fn inputs_enc(s: Seq<OpInputs>) -> Seq<u8> {
    seq![s.len() as u8] + inputs_body(s)
}

pub open spec fn redeemed_body(s: Seq<Redeemed>) -> Seq<u8>
    decreases s.len(),
{
    if s.len() == 0 {
        seq![]
    } else {
        redeemed_body(s.drop_last()) + s.last().op.bytes@ + u16s_enc(s.last().valencies@)
    }
}

/// Encoding of an extension's redeemed valencies.
pub open spec fn redeemed_enc(s: Seq<Redeemed>) -> Seq<u8> {
    seq![s.len() as u8] + redeemed_body(s)
}

pub open spec fn meta_view(m: Option<Vec<u8>>) -> Option<Seq<u8>> {
    match m {
        None => None,
        Some(v) => Some(v@),
    }
}

pub open spec fn meta_wf(m: Option<Vec<u8>>) -> bool {
    m matches Some(v) ==> v@.len() <= u16::MAX
}

pub open spec fn globals_wf(g: GlobalState) -> bool {
    &&& g.values@.len() <= 255
    &&& forall|i: int| 0 <= i < g.values@.len() ==> (#[trigger] g.values@[i]).data@.len() <= u16::MAX
}

/// Strictly ascending 16-bit values, hence unique.
pub open spec fn u16s_ascending(s: Seq<u16>) -> bool {
    forall|i: int, j: int| 0 <= i < j < s.len() ==> s[i] < s[j]
}

/// An ordered set of at most 255 values, such as valencies.
pub open spec fn u16_set_wf(s: Seq<u16>) -> bool {
    s.len() <= 255 && u16s_ascending(s)
}

/// Assignment types of one prior operation: at most 255, strictly
/// ascending, each with at most 255 indices.
pub open spec fn op_inputs_wf(o: OpInputs) -> bool {
    &&& o.types@.len() <= 255
    &&& forall|a: int, b: int| 0 <= a < b < o.types@.len() ==> (#[trigger] o.types@[a]).ty < (#[trigger] o.types@[b]).ty
    &&& forall|j: int| 0 <= j < o.types@.len() ==> (#[trigger] o.types@[j]).indices@.len() <= 255
}

/// A transition's inputs: an ordered map of at most 255 prior operations, by
/// ascending identifier, each an ordered map of assignment types.
pub open spec fn inputs_wf(s: Seq<OpInputs>) -> bool {
    &&& s.len() <= 255
    &&& forall|i: int, j: int| 0 <= i < j < s.len() ==> lex_less((#[trigger] s[i]).op.bytes@, (#[trigger] s[j]).op.bytes@)
    &&& forall|i: int| 0 <= i < s.len() ==> op_inputs_wf(#[trigger] s[i])
}

/// An extension's redeemed valencies: an ordered map of at most 255 prior
/// operations, by ascending identifier, each with an ordered set of valencies.
pub open spec fn redeemed_wf(s: Seq<Redeemed>) -> bool {
    &&& s.len() <= 255
    &&& forall|i: int, j: int| 0 <= i < j < s.len() ==> lex_less((#[trigger] s[i]).op.bytes@, (#[trigger] s[j]).op.bytes@)
    &&& forall|i: int| 0 <= i < s.len() ==> u16_set_wf((#[trigger] s[i]).valencies@)
}

/// Appends a list of 16-bit values preceded by its size.
pub fn push_u16s(out: &mut Vec<u8>, v: &Vec<u16>)
    requires
        v@.len() <= 255,
    ensures
        final(out)@ == old(out)@ + u16s_enc(v@),
{
    out.push(v.len() as u8);
    let start = Ghost(out@);
    let mut i: usize = 0;
    while i < v.len()
        invariant
            i <= v@.len(),
            out@ == start@ + u16s_body(v@.subrange(0, i as int)),
        decreases v@.len() - i,
    {
        push_u16(out, v[i]);
        assert(v@.subrange(0, i as int + 1).drop_last() =~= v@.subrange(0, i as int));
        i = i + 1;
        assert(out@ =~= start@ + u16s_body(v@.subrange(0, i as int)));
    }
    assert(v@.subrange(0, i as int) =~= v@);
    assert(final(out)@ =~= old(out)@ + u16s_enc(v@));
}

pub fn push_globals(out: &mut Vec<u8>, g: &GlobalState)
    requires
        globals_wf(*g),
    ensures
        final(out)@ == old(out)@ + globals_enc(*g),
{
    out.push(g.values.len() as u8);
    let start = Ghost(out@);
    let mut i: usize = 0;
    while i < g.values.len()
        invariant
            globals_wf(*g),
            i <= g.values@.len(),
            out@ == start@ + globals_body(g.values@.subrange(0, i as int)),
        decreases g.values@.len() - i,
    {
        let gv = &g.values[i];
        push_u16(out, gv.ty);
        push_blob16(out, &gv.data);
        assert(g.values@.subrange(0, i as int + 1).drop_last() =~= g.values@.subrange(0, i as int));
        i = i + 1;
        assert(out@ =~= start@ + globals_body(g.values@.subrange(0, i as int)));
    }
    assert(g.values@.subrange(0, i as int) =~= g.values@);
    assert(final(out)@ =~= old(out)@ + globals_enc(*g));
}

fn push_op_inputs(out: &mut Vec<u8>, o: &OpInputs)
    requires
        op_inputs_wf(*o),
    ensures
        final(out)@ == old(out)@ + op_inputs_enc(*o),
{
    push_raw(out, o.op.bytes.as_slice());
    out.push(o.types.len() as u8);
    let start = Ghost(out@);
    let mut i: usize = 0;
    while i < o.types.len()
        invariant
            forall|j: int| 0 <= j < o.types@.len() ==> (#[trigger] o.types@[j]).indices@.len() <= 255,
            i <= o.types@.len(),
            out@ == start@ + type_inputs_body(o.types@.subrange(0, i as int)),
        decreases o.types@.len() - i,
    {
        let t = &o.types[i];
        push_u16(out, t.ty);
        push_u16s(out, &t.indices);
        assert(o.types@.subrange(0, i as int + 1).drop_last() =~= o.types@.subrange(0, i as int));
        i = i + 1;
        assert(out@ =~= start@ + type_inputs_body(o.types@.subrange(0, i as int)));
    }
    assert(o.types@.subrange(0, i as int) =~= o.types@);
    assert(final(out)@ =~= old(out)@ + op_inputs_enc(*o));
}

pub fn push_inputs(out: &mut Vec<u8>, s: &Vec<OpInputs>)
    requires
        inputs_wf(s@),
    ensures
        final(out)@ == old(out)@ + inputs_enc(s@),
{
    out.push(s.len() as u8);
    let start = Ghost(out@);
    let mut i: usize = 0;
    while i < s.len()
        invariant
            inputs_wf(s@),
            i <= s@.len(),
            out@ == start@ + inputs_body(s@.subrange(0, i as int)),
        decreases s@.len() - i,
    {
        let o = &s[i];
        assert(op_inputs_wf(s@[i as int]));
        push_op_inputs(out, o);
        assert(s@.subrange(0, i as int + 1).drop_last() =~= s@.subrange(0, i as int));
        i = i + 1;
        assert(out@ =~= start@ + inputs_body(s@.subrange(0, i as int)));
    }
    assert(s@.subrange(0, i as int) =~= s@);
    assert(final(out)@ =~= old(out)@ + inputs_enc(s@));
}

pub fn push_redeemed(out: &mut Vec<u8>, s: &Vec<Redeemed>)
    requires
        redeemed_wf(s@),
    ensures
        final(out)@ == old(out)@ + redeemed_enc(s@),
{
    out.push(s.len() as u8);
    let start = Ghost(out@);
    let mut i: usize = 0;
    while i < s.len()
        invariant
            redeemed_wf(s@),
            i <= s@.len(),
            out@ == start@ + redeemed_body(s@.subrange(0, i as int)),
        decreases s@.len() - i,
    {
        let r = &s[i];
        assert(u16_set_wf(s@[i as int].valencies@));
        push_raw(out, r.op.bytes.as_slice());
        push_u16s(out, &r.valencies);
        assert(s@.subrange(0, i as int + 1).drop_last() =~= s@.subrange(0, i as int));
        i = i + 1;
        assert(out@ =~= start@ + redeemed_body(s@.subrange(0, i as int)));
    }
    assert(s@.subrange(0, i as int) =~= s@);
    assert(final(out)@ =~= old(out)@ + redeemed_enc(s@));
}

/// Consumed outputs of one assignment type, in the order of the indices.
pub open spec fn indices_outs(op: OpId, ty: u16, s: Seq<u16>) -> Seq<Opout>
    decreases s.len(),
{
    if s.len() == 0 {
        seq![]
    } else {
        indices_outs(op, ty, s.drop_last()).push(Opout { op, ty, no: s.last() })
    }
}

/// Consumed outputs of one prior operation, type after type.
pub open spec fn types_outs(op: OpId, s: Seq<TypeInputs>) -> Seq<Opout>
    decreases s.len(),
{
    if s.len() == 0 {
        seq![]
    } else {
        types_outs(op, s.drop_last()) + indices_outs(op, s.last().ty, s.last().indices@)
    }
}

/// All consumed outputs of a transition's inputs, operation after operation.
pub open spec fn inputs_outs(s: Seq<OpInputs>) -> Seq<Opout>
    decreases s.len(),
{
    if s.len() == 0 {
        seq![]
    } else {
        inputs_outs(s.drop_last()) + types_outs(s.last().op, s.last().types@)
    }
}

fn push_indices_outs(out: &mut Vec<Opout>, op: OpId, ty: u16, v: &Vec<u16>)
    ensures
        final(out)@ == old(out)@ + indices_outs(op, ty, v@),
{
    let start = Ghost(out@);
    let mut i: usize = 0;
    while i < v.len()
        invariant
            i <= v@.len(),
            out@ == start@ + indices_outs(op, ty, v@.subrange(0, i as int)),
        decreases v@.len() - i,
    {
        out.push(Opout { op, ty, no: v[i] });
        assert(v@.subrange(0, i as int + 1).drop_last() =~= v@.subrange(0, i as int));
        i = i + 1;
        assert(out@ =~= start@ + indices_outs(op, ty, v@.subrange(0, i as int)));
    }
    assert(v@.subrange(0, i as int) =~= v@);
}

fn push_types_outs(out: &mut Vec<Opout>, op: OpId, v: &Vec<TypeInputs>)
    ensures
        final(out)@ == old(out)@ + types_outs(op, v@),
{
    let start = Ghost(out@);
    let mut i: usize = 0;
    while i < v.len()
        invariant
            i <= v@.len(),
            out@ == start@ + types_outs(op, v@.subrange(0, i as int)),
        decreases v@.len() - i,
    {
        push_indices_outs(out, op, v[i].ty, &v[i].indices);
        assert(v@.subrange(0, i as int + 1).drop_last() =~= v@.subrange(0, i as int));
        i = i + 1;
        assert(out@ =~= start@ + types_outs(op, v@.subrange(0, i as int)));
    }
    assert(v@.subrange(0, i as int) =~= v@);
}

/// Flattens a transition's inputs into consumed outputs, in order.
pub fn flatten_inputs(v: &Vec<OpInputs>) -> (r: Vec<Opout>)
    ensures
        r@ == inputs_outs(v@),
{
    let mut out: Vec<Opout> = Vec::new();
    let mut i: usize = 0;
    while i < v.len()
        invariant
            i <= v@.len(),
            out@ == inputs_outs(v@.subrange(0, i as int)),
        decreases v@.len() - i,
    {
        push_types_outs(&mut out, v[i].op, &v[i].types);
        assert(v@.subrange(0, i as int + 1).drop_last() =~= v@.subrange(0, i as int));
        i = i + 1;
        assert(out@ =~= inputs_outs(v@.subrange(0, i as int)));
    }
    assert(v@.subrange(0, i as int) =~= v@);
    out
}

/// The root operation of a contract.
#[derive(Clone, PartialEq, Eq, Hash, Debug)]
pub struct Genesis {
    pub ffv: u16,
    pub schema_id: [u8; 32],
    pub chain: Chain,
    pub metadata: Option<Vec<u8>>,
    pub globals: GlobalState,
    pub assignments: Assignments,
    pub valencies: Vec<u16>,
}

/// A state extension: new state on valencies that prior operations declared.
#[derive(Clone, PartialEq, Eq, Hash, Debug)]
pub struct Extension {
    pub ffv: u16,
    pub extension_type: u16,
    pub contract_id: ContractId,
    pub metadata: Option<Vec<u8>>,
    pub globals: GlobalState,
    pub assignments: Assignments,
    pub redeemed: Vec<Redeemed>,
    pub valencies: Vec<u16>,
}

/// A state transition: consumes indexed outputs of prior operations and
/// assigns new state.
#[derive(Clone, PartialEq, Eq, Hash, Debug)]
pub struct Transition {
    pub ffv: u16,
    pub transition_type: u16,
    pub metadata: Option<Vec<u8>>,
    pub globals: GlobalState,
    pub inputs: Vec<OpInputs>,
    pub assignments: Assignments,
    pub valencies: Vec<u16>,
}

pub open spec fn genesis_wf(g: Genesis) -> bool {
    &&& meta_wf(g.metadata)
    &&& globals_wf(g.globals)
    &&& g.assignments.wf()
    &&& u16_set_wf(g.valencies@)
}

pub open spec fn extension_wf(e: Extension) -> bool {
    &&& meta_wf(e.metadata)
    &&& globals_wf(e.globals)
    &&& e.assignments.wf()
    &&& redeemed_wf(e.redeemed@)
    &&& u16_set_wf(e.valencies@)
}

pub open spec fn transition_wf(t: Transition) -> bool {
    &&& meta_wf(t.metadata)
    &&& globals_wf(t.globals)
    &&& inputs_wf(t.inputs@)
    &&& t.assignments.wf()
    &&& u16_set_wf(t.valencies@)
}

/// Commitment encoding of a genesis, field after field.
pub open spec fn genesis_encoding(g: Genesis) -> Seq<u8> {
    le16(g.ffv) + g.schema_id@ + seq![chain_tag(g.chain)] + opt_blob16(meta_view(g.metadata))
        + globals_enc(g.globals) + assignments_commit(g.assignments@) + u16s_enc(g.valencies@)
}

/// Commitment encoding of an extension, field after field.
pub open spec fn extension_encoding(e: Extension) -> Seq<u8> {
    le16(e.ffv) + le16(e.extension_type) + e.contract_id.bytes@ + opt_blob16(meta_view(e.metadata))
        + globals_enc(e.globals) + assignments_commit(e.assignments@) + redeemed_enc(e.redeemed@)
        + u16s_enc(e.valencies@)
}

/// Commitment encoding of a transition, field after field.
pub open spec fn transition_encoding(t: Transition) -> Seq<u8> {
    le16(t.ffv) + le16(t.transition_type) + opt_blob16(meta_view(t.metadata))
        + globals_enc(t.globals) + inputs_enc(t.inputs@) + assignments_commit(t.assignments@)
        + u16s_enc(t.valencies@)
}

pub open spec fn genesis_id(g: Genesis) -> Seq<u8> {
    tagged_sha256(GENESIS_TAG@, genesis_encoding(g))
}

pub open spec fn extension_id(e: Extension) -> Seq<u8> {
    tagged_sha256(EXTENSION_TAG@, extension_encoding(e))
}

pub open spec fn transition_id(t: Transition) -> Seq<u8> {
    tagged_sha256(TRANSITION_TAG@, transition_encoding(t))
}

/// The kind of an operation with its type.
pub open spec fn op_type_of(t: OpFullType) -> OpType {
    match t {
        OpFullType::Genesis => OpType::Genesis,
        OpFullType::StateTransition(_) => OpType::StateTransition,
        OpFullType::StateExtension(_) => OpType::StateExtension,
    }
}

/// The read-only query surface shared by every kind of operation.
pub trait Operation {
    /// The operation fits its commitment encoding.
    spec fn op_wf(&self) -> bool;

    spec fn full_type_spec(&self) -> OpFullType;

    /// The 32 bytes of the operation's identifier.
    spec fn id_spec(&self) -> Seq<u8>;

    spec fn metadata_spec(&self) -> Option<Seq<u8>>;

    spec fn globals_spec(&self) -> GlobalState;

    spec fn valencies_spec(&self) -> Seq<u16>;

    spec fn assignments_spec(&self) -> Seq<(u16, TypedAssigns)>;

    /// The prior outputs the operation consumes.
    spec fn prev_outs_spec(&self) -> Seq<Opout>;

    fn op_type(&self) -> (r: OpType)
        ensures
            r == op_type_of(self.full_type_spec()),
    ;

    fn full_type(&self) -> (r: OpFullType)
        ensures
            r == self.full_type_spec(),
    ;

    fn id(&self) -> (r: OpId)
        requires
            self.op_wf(),
        ensures
            r.bytes@ == self.id_spec(),
    ;

    fn transition_type(&self) -> (r: Option<u16>)
        ensures
            r == match self.full_type_spec() {
                OpFullType::StateTransition(t) => Some(t),
                _ => None,
            },
    ;

    fn extension_type(&self) -> (r: Option<u16>)
        ensures
            r == match self.full_type_spec() {
                OpFullType::StateExtension(t) => Some(t),
                _ => None,
            },
    ;

    fn metadata(&self) -> (r: Option<&Vec<u8>>)
        ensures
            match r {
                Some(m) => self.metadata_spec() == Some(m@),
                None => self.metadata_spec() is None,
            },
    ;

    fn globals(&self) -> (r: &GlobalState)
        ensures
            *r == self.globals_spec(),
    ;

    fn valencies(&self) -> (r: &Vec<u16>)
        ensures
            r@ == self.valencies_spec(),
    ;

    fn assignments(&self) -> (r: &Assignments)
        ensures
            r@ == self.assignments_spec(),
    ;

    /// The typed assignment set of an assignment type, if the operation has one.
    fn assignments_by_type(&self, t: u16) -> (r: Option<&TypedAssigns>)
        ensures
            match r {
                Some(a) => exists|i: int|
                    0 <= i < self.assignments_spec().len() && (#[trigger] self.assignments_spec()[i]).0 == t
                        && self.assignments_spec()[i].1 == *a,
                None => forall|i: int|
                    0 <= i < self.assignments_spec().len() ==> (#[trigger] self.assignments_spec()[i]).0 != t,
            },
    ;

    /// Consumed prior outputs: empty for genesis and extensions, the flattened
    /// inputs for transitions.
    fn prev_outs(&self) -> (r: Vec<Opout>)
        ensures
            r@ == self.prev_outs_spec(),
    ;
}

impl Genesis {
    pub fn commit_encode(&self) -> (r: Vec<u8>)
        requires
            genesis_wf(*self),
        ensures
            r@ == genesis_encoding(*self),
    {
        let mut out: Vec<u8> = Vec::new();
        push_u16(&mut out, self.ffv);
        push_raw(&mut out, self.schema_id.as_slice());
        out.push(chain_byte(self.chain));
        push_opt_blob16(&mut out, &self.metadata);
        push_globals(&mut out, &self.globals);
        self.assignments.commit_encode(&mut out);
        push_u16s(&mut out, &self.valencies);
        assert(out@ =~= genesis_encoding(*self));
        out
    }

    /// The contract identifier: the genesis identifier's 32 bytes.
    pub fn contract_id(&self) -> (r: ContractId)
        requires
            genesis_wf(*self),
        ensures
            r.bytes@ == genesis_id(*self),
    {
        ContractId::from_op_id(self.id())
    }
}

impl Extension {
    pub fn commit_encode(&self) -> (r: Vec<u8>)
        requires
            extension_wf(*self),
        ensures
            r@ == extension_encoding(*self),
    {
        let mut out: Vec<u8> = Vec::new();
        push_u16(&mut out, self.ffv);
        push_u16(&mut out, self.extension_type);
        push_raw(&mut out, self.contract_id.bytes.as_slice());
        push_opt_blob16(&mut out, &self.metadata);
        push_globals(&mut out, &self.globals);
        self.assignments.commit_encode(&mut out);
        push_redeemed(&mut out, &self.redeemed);
        push_u16s(&mut out, &self.valencies);
        assert(out@ =~= extension_encoding(*self));
        out
    }

    /// The contract the extension belongs to, by explicit reference.
    pub fn contract_id(&self) -> (r: ContractId)
        ensures
            r == self.contract_id,
    {
        self.contract_id
    }

    /// The valencies redeemed of prior operations.
    pub fn redeemed(&self) -> (r: &Vec<Redeemed>)
        ensures
            r == &self.redeemed,
    {
        &self.redeemed
    }
}

impl Transition {
    pub fn commit_encode(&self) -> (r: Vec<u8>)
        requires
            transition_wf(*self),
        ensures
            r@ == transition_encoding(*self),
    {
        let mut out: Vec<u8> = Vec::new();
        push_u16(&mut out, self.ffv);
        push_u16(&mut out, self.transition_type);
        push_opt_blob16(&mut out, &self.metadata);
        push_globals(&mut out, &self.globals);
        push_inputs(&mut out, &self.inputs);
        self.assignments.commit_encode(&mut out);
        push_u16s(&mut out, &self.valencies);
        assert(out@ =~= transition_encoding(*self));
        out
    }

    /// Transitions are ordered by their identifiers alone.
    pub fn cmp(&self, other: &Transition) -> (r: core::cmp::Ordering)
        requires
            transition_wf(*self),
            transition_wf(*other),
        ensures
            r == core::cmp::Ordering::Equal <==> transition_id(*self) == transition_id(*other),
            r == core::cmp::Ordering::Less <==> lex_less(transition_id(*self), transition_id(*other)),
            r == core::cmp::Ordering::Greater <==> lex_less(transition_id(*other), transition_id(*self)),
    {
        let a = self.id();
        let b = other.id();
        cmp_bytes32(&a.bytes, &b.bytes)
    }

    /// The order of `cmp`, which is total.
    pub fn partial_cmp(&self, other: &Transition) -> (r: Option<core::cmp::Ordering>)
        requires
            transition_wf(*self),
            transition_wf(*other),
        ensures
            r matches Some(o) && (o == core::cmp::Ordering::Equal <==> transition_id(*self) == transition_id(*other)),
            r matches Some(o) && (o == core::cmp::Ordering::Less <==> lex_less(transition_id(*self), transition_id(*other))),
            r matches Some(o) && (o == core::cmp::Ordering::Greater <==> lex_less(transition_id(*other), transition_id(*self))),
    {
        Some(self.cmp(other))
    }

    /// The prior outputs this transition consumes, as given.
    pub fn prev_state(&self) -> (r: &Vec<OpInputs>)
        ensures
            r == &self.inputs,
    {
        &self.inputs
    }
}

impl Operation for Genesis {
    open spec fn op_wf(&self) -> bool {
        genesis_wf(*self)
    }

    open spec fn full_type_spec(&self) -> OpFullType {
        OpFullType::Genesis
    }

    open spec fn id_spec(&self) -> Seq<u8> {
        genesis_id(*self)
    }

    open spec fn metadata_spec(&self) -> Option<Seq<u8>> {
        meta_view(self.metadata)
    }

    open spec fn globals_spec(&self) -> GlobalState {
        self.globals
    }

    open spec fn valencies_spec(&self) -> Seq<u16> {
        self.valencies@
    }

    open spec fn assignments_spec(&self) -> Seq<(u16, TypedAssigns)> {
        self.assignments@
    }

    open spec fn prev_outs_spec(&self) -> Seq<Opout> {
        seq![]
    }

    fn op_type(&self) -> (r: OpType) {
        OpType::Genesis
    }

    fn full_type(&self) -> (r: OpFullType) {
        OpFullType::Genesis
    }

    fn id(&self) -> (r: OpId) {
        let msg = self.commit_encode();
        OpId::from_bytes(tagged_digest(&GENESIS_TAG, &msg))
    }

    fn transition_type(&self) -> (r: Option<u16>) {
        None
    }

    fn extension_type(&self) -> (r: Option<u16>) {
        None
    }

    fn metadata(&self) -> (r: Option<&Vec<u8>>) {
        self.metadata.as_ref()
    }

    fn globals(&self) -> (r: &GlobalState) {
        &self.globals
    }

    fn valencies(&self) -> (r: &Vec<u16>) {
        &self.valencies
    }

    fn assignments(&self) -> (r: &Assignments) {
        &self.assignments
    }

    fn assignments_by_type(&self, t: u16) -> (r: Option<&TypedAssigns>) {
        proof {
            assert(self.assignments_spec() == self.assignments@);
        }
        self.assignments.get(t)
    }

    fn prev_outs(&self) -> (r: Vec<Opout>) {
        Vec::new()
    }
}

impl Operation for Extension {
    open spec fn op_wf(&self) -> bool {
        extension_wf(*self)
    }

    open spec fn full_type_spec(&self) -> OpFullType {
        OpFullType::StateExtension(self.extension_type)
    }

    open spec fn id_spec(&self) -> Seq<u8> {
        extension_id(*self)
    }

    open spec fn metadata_spec(&self) -> Option<Seq<u8>> {
        meta_view(self.metadata)
    }

    open spec fn globals_spec(&self) -> GlobalState {
        self.globals
    }

    open spec fn valencies_spec(&self) -> Seq<u16> {
        self.valencies@
    }

    open spec fn assignments_spec(&self) -> Seq<(u16, TypedAssigns)> {
        self.assignments@
    }

    open spec fn prev_outs_spec(&self) -> Seq<Opout> {
        seq![]
    }

    fn op_type(&self) -> (r: OpType) {
        OpType::StateExtension
    }

    fn full_type(&self) -> (r: OpFullType) {
        OpFullType::StateExtension(self.extension_type)
    }

    fn id(&self) -> (r: OpId) {
        let msg = self.commit_encode();
        OpId::from_bytes(tagged_digest(&EXTENSION_TAG, &msg))
    }

    fn transition_type(&self) -> (r: Option<u16>) {
        None
    }

    fn extension_type(&self) -> (r: Option<u16>) {
        Some(self.extension_type)
    }

    fn metadata(&self) -> (r: Option<&Vec<u8>>) {
        self.metadata.as_ref()
    }

    fn globals(&self) -> (r: &GlobalState) {
        &self.globals
    }

    fn valencies(&self) -> (r: &Vec<u16>) {
        &self.valencies
    }

    fn assignments(&self) -> (r: &Assignments) {
        &self.assignments
    }

    fn assignments_by_type(&self, t: u16) -> (r: Option<&TypedAssigns>) {
        proof {
            assert(self.assignments_spec() == self.assignments@);
        }
        self.assignments.get(t)
    }

    fn prev_outs(&self) -> (r: Vec<Opout>) {
        Vec::new()
    }
}

impl Operation for Transition {
    open spec fn op_wf(&self) -> bool {
        transition_wf(*self)
    }

    open spec fn full_type_spec(&self) -> OpFullType {
        OpFullType::StateTransition(self.transition_type)
    }

    open spec fn id_spec(&self) -> Seq<u8> {
        transition_id(*self)
    }

    open spec fn metadata_spec(&self) -> Option<Seq<u8>> {
        meta_view(self.metadata)
    }

    open spec fn globals_spec(&self) -> GlobalState {
        self.globals
    }

    open spec fn valencies_spec(&self) -> Seq<u16> {
        self.valencies@
    }

    open spec fn assignments_spec(&self) -> Seq<(u16, TypedAssigns)> {
        self.assignments@
    }

    open spec fn prev_outs_spec(&self) -> Seq<Opout> {
        inputs_outs(self.inputs@)
    }

    fn op_type(&self) -> (r: OpType) {
        OpType::StateTransition
    }

    fn full_type(&self) -> (r: OpFullType) {
        OpFullType::StateTransition(self.transition_type)
    }

    fn id(&self) -> (r: OpId) {
        let msg = self.commit_encode();
        OpId::from_bytes(tagged_digest(&TRANSITION_TAG, &msg))
    }

    fn transition_type(&self) -> (r: Option<u16>) {
        Some(self.transition_type)
    }

    fn extension_type(&self) -> (r: Option<u16>) {
        None
    }

    fn metadata(&self) -> (r: Option<&Vec<u8>>) {
        self.metadata.as_ref()
    }

    fn globals(&self) -> (r: &GlobalState) {
        &self.globals
    }

    fn valencies(&self) -> (r: &Vec<u16>) {
        &self.valencies
    }

    fn assignments(&self) -> (r: &Assignments) {
        &self.assignments
    }

    fn assignments_by_type(&self, t: u16) -> (r: Option<&TypedAssigns>) {
        proof {
            assert(self.assignments_spec() == self.assignments@);
        }
        self.assignments.get(t)
    }

    fn prev_outs(&self) -> (r: Vec<Opout>) {
        flatten_inputs(&self.inputs)
    }
}

/// A handle on an operation of any kind, forwarding every query to it.
#[derive(Clone, Copy, PartialEq, Eq, Hash, Debug)]
pub enum OpRef<'op> {
    Genesis(&'op Genesis),
    Transition(&'op Transition),
    Extension(&'op Extension),
}

impl<'op> Operation for OpRef<'op> {
    open spec fn op_wf(&self) -> bool {
        match *self {
            OpRef::Genesis(op) => op.op_wf(),
            OpRef::Transition(op) => op.op_wf(),
            OpRef::Extension(op) => op.op_wf(),
        }
    }

    open spec fn full_type_spec(&self) -> OpFullType {
        match *self {
            OpRef::Genesis(op) => op.full_type_spec(),
            OpRef::Transition(op) => op.full_type_spec(),
            OpRef::Extension(op) => op.full_type_spec(),
        }
    }

    open spec fn id_spec(&self) -> Seq<u8> {
        match *self {
            OpRef::Genesis(op) => op.id_spec(),
            OpRef::Transition(op) => op.id_spec(),
            OpRef::Extension(op) => op.id_spec(),
        }
    }

    open spec fn metadata_spec(&self) -> Option<Seq<u8>> {
        match *self {
            OpRef::Genesis(op) => op.metadata_spec(),
            OpRef::Transition(op) => op.metadata_spec(),
            OpRef::Extension(op) => op.metadata_spec(),
        }
    }

    open spec fn globals_spec(&self) -> GlobalState {
        match *self {
            OpRef::Genesis(op) => op.globals_spec(),
            OpRef::Transition(op) => op.globals_spec(),
            OpRef::Extension(op) => op.globals_spec(),
        }
    }

    open spec fn valencies_spec(&self) -> Seq<u16> {
        match *self {
            OpRef::Genesis(op) => op.valencies_spec(),
            OpRef::Transition(op) => op.valencies_spec(),
            OpRef::Extension(op) => op.valencies_spec(),
        }
    }

    open spec fn assignments_spec(&self) -> Seq<(u16, TypedAssigns)> {
        match *self {
            OpRef::Genesis(op) => op.assignments_spec(),
            OpRef::Transition(op) => op.assignments_spec(),
            OpRef::Extension(op) => op.assignments_spec(),
        }
    }

    open spec fn prev_outs_spec(&self) -> Seq<Opout> {
        match *self {
            OpRef::Genesis(op) => op.prev_outs_spec(),
            OpRef::Transition(op) => op.prev_outs_spec(),
            OpRef::Extension(op) => op.prev_outs_spec(),
        }
    }

    fn op_type(&self) -> (r: OpType) {
        match self {
            OpRef::Genesis(op) => op.op_type(),
            OpRef::Transition(op) => op.op_type(),
            OpRef::Extension(op) => op.op_type(),
        }
    }

    fn full_type(&self) -> (r: OpFullType) {
        match self {
            OpRef::Genesis(op) => op.full_type(),
            OpRef::Transition(op) => op.full_type(),
            OpRef::Extension(op) => op.full_type(),
        }
    }

    fn id(&self) -> (r: OpId) {
        match self {
            OpRef::Genesis(op) => op.id(),
            OpRef::Transition(op) => op.id(),
            OpRef::Extension(op) => op.id(),
        }
    }

    fn transition_type(&self) -> (r: Option<u16>) {
        match self {
            OpRef::Genesis(op) => op.transition_type(),
            OpRef::Transition(op) => op.transition_type(),
            OpRef::Extension(op) => op.transition_type(),
        }
    }

    fn extension_type(&self) -> (r: Option<u16>) {
        match self {
            OpRef::Genesis(op) => op.extension_type(),
            OpRef::Transition(op) => op.extension_type(),
            OpRef::Extension(op) => op.extension_type(),
        }
    }

    fn metadata(&self) -> (r: Option<&Vec<u8>>) {
        match self {
            OpRef::Genesis(op) => op.metadata(),
            OpRef::Transition(op) => op.metadata(),
            OpRef::Extension(op) => op.metadata(),
        }
    }

    fn globals(&self) -> (r: &GlobalState) {
        match self {
            OpRef::Genesis(op) => op.globals(),
            OpRef::Transition(op) => op.globals(),
            OpRef::Extension(op) => op.globals(),
        }
    }

    fn valencies(&self) -> (r: &Vec<u16>) {
        match self {
            OpRef::Genesis(op) => op.valencies(),
            OpRef::Transition(op) => op.valencies(),
            OpRef::Extension(op) => op.valencies(),
        }
    }

    fn assignments(&self) -> (r: &Assignments) {
        match self {
            OpRef::Genesis(op) => op.assignments(),
            OpRef::Transition(op) => op.assignments(),
            OpRef::Extension(op) => op.assignments(),
        }
    }

    fn prev_outs(&self) -> (r: Vec<Opout>) {
        match self {
            OpRef::Genesis(op) => op.prev_outs(),
            OpRef::Transition(op) => op.prev_outs(),
            OpRef::Extension(op) => op.prev_outs(),
        }
    }

    fn assignments_by_type(&self, t: u16) -> (r: Option<&TypedAssigns>) {
        match self {
            OpRef::Genesis(op) => {
                proof {
                    assert(self.assignments_spec() == op.assignments_spec());
                }
                op.assignments_by_type(t)
            },
            OpRef::Transition(op) => {
                proof {
                    assert(self.assignments_spec() == op.assignments_spec());
                }
                op.assignments_by_type(t)
            },
            OpRef::Extension(op) => {
                proof {
                    assert(self.assignments_spec() == op.assignments_spec());
                }
                op.assignments_by_type(t)
            },
        }
    }
}

/// An operation's identifier is a function of its content alone: equal
/// operations have equal identifiers, in every call.
pub proof fn lemma_id_deterministic<O: Operation>(a: O, b: O)
    requires
        a == b,
    ensures
        a.id_spec() == b.id_spec(),
        a.prev_outs_spec() == b.prev_outs_spec(),
{
}

/// The three domain tags differ, so the same encoded bytes are committed to
/// under a different tag as a genesis, a transition or an extension.
pub proof fn lemma_domain_tags_distinct(msg: Seq<u8>)
    ensures
        (GENESIS_TAG@, msg) != (TRANSITION_TAG@, msg),
        (GENESIS_TAG@, msg) != (EXTENSION_TAG@, msg),
        (TRANSITION_TAG@, msg) != (EXTENSION_TAG@, msg),
{
    assert(GENESIS_TAG@[14] == 103u8);
    assert(TRANSITION_TAG@[14] == 116u8);
    assert(EXTENSION_TAG@[14] == 101u8);
}

/// The contract identifier of a genesis and its operation identifier are
/// the same 32 bytes.
pub proof fn lemma_contract_id_is_genesis_id(g: Genesis, c: ContractId, o: OpId)
    requires
        c.bytes@ == genesis_id(g),
        o.bytes@ == g.id_spec(),
    ensures
        c.bytes == o.bytes,
{
    assert forall|i: int| 0 <= i < 32 implies c.bytes[i] == o.bytes[i] by {
        assert(c.bytes@[i] == o.bytes@[i]);
    }
    assert(c.bytes =~= o.bytes);
}

/// Two transitions of different transition types have different commitment
/// encodings, hence are committed to as different messages.
pub proof fn lemma_transition_type_separates(a: Transition, b: Transition)
    requires
        a.transition_type != b.transition_type,
    ensures
        transition_encoding(a) != transition_encoding(b),
{
    let x = a.transition_type;
    let y = b.transition_type;
    if transition_encoding(a) == transition_encoding(b) {
        assert(transition_encoding(a)[2] == x as u8);
        assert(transition_encoding(a)[3] == (x >> 8u16) as u8);
        assert(transition_encoding(b)[2] == y as u8);
        assert(transition_encoding(b)[3] == (y >> 8u16) as u8);
        assert(x as u8 == y as u8 && (x >> 8u16) as u8 == (y >> 8u16) as u8 ==> x == y) by (bit_vector);
    }
}

/// Why an operation does not fit its commitment encoding.
#[derive(Clone, Copy, PartialEq, Eq, Debug)]
pub enum FormatError {
    /// The metadata blob is longer than 65535 bytes.
    Metadata,
    /// More than 255 global values, or a value longer than 65535 bytes.
    Globals,
    /// The assignments container is not well formed.
    Assignments,
    /// Transition inputs are not an ordered map within their size limits.
    Inputs,
    /// Redeemed valencies are not an ordered map within their size limits.
    Redeemed,
    /// Valencies are not an ordered set of at most 255 values.
    Valencies,
}

/// Whether a list of values is an ordered set of at most 255 values.
pub fn u16_set_ok(v: &Vec<u16>) -> (r: bool)
    ensures
        r == u16_set_wf(v@),
{
    let n = v.len();
    if n > 255 {
        return false;
    }
    let mut i: usize = 0;
    while i < n
        invariant
            n == v@.len(),
            i <= n,
            forall|a: int, b: int| 0 <= a < b < i ==> v@[a] < v@[b],
        decreases n - i,
    {
        if i > 0 && v[i - 1] >= v[i] {
            return false;
        }
        assert forall|a: int, b: int| 0 <= a < b < i + 1 implies v@[a] < v@[b] by {
            if b == i && a < i - 1 {
                assert(v@[a] < v@[i - 1]);
            }
        }
        i = i + 1;
    }
    true
}

fn op_inputs_ok(o: &OpInputs) -> (r: bool)
    ensures
        r == op_inputs_wf(*o),
{
    let n = o.types.len();
    if n > 255 {
        return false;
    }
    let mut i: usize = 0;
    while i < n
        invariant
            n == o.types@.len(),
            i <= n,
            forall|a: int, b: int| 0 <= a < b < i ==> (#[trigger] o.types@[a]).ty < (#[trigger] o.types@[b]).ty,
            forall|j: int| 0 <= j < i ==> (#[trigger] o.types@[j]).indices@.len() <= 255,
        decreases n - i,
    {
        if i > 0 && o.types[i - 1].ty >= o.types[i].ty {
            return false;
        }
        if o.types[i].indices.len() > 255 {
            return false;
        }
        assert forall|a: int, b: int| 0 <= a < b < i + 1 implies (#[trigger] o.types@[a]).ty < (#[trigger] o.types@[b]).ty by {
            if b == i && a < i - 1 {
                assert(o.types@[a].ty < o.types@[i - 1].ty);
            }
        }
        i = i + 1;
    }
    true
}

fn inputs_ascending(s: &Vec<OpInputs>) -> (r: bool)
    ensures
        r == forall|i: int, j: int| 0 <= i < j < s@.len() ==> lex_less((#[trigger] s@[i]).op.bytes@, (#[trigger] s@[j]).op.bytes@),
{
    let n = s.len();
    let mut j: usize = 0;
    while j < n
        invariant
            n == s@.len(),
            j <= n,
            forall|a: int, b: int| 0 <= a < b < j ==> lex_less((#[trigger] s@[a]).op.bytes@, (#[trigger] s@[b]).op.bytes@),
        decreases n - j,
    {
        let mut i: usize = 0;
        while i < j
            invariant
                n == s@.len(),
                i <= j < n,
                forall|a: int, b: int| 0 <= a < b < j ==> lex_less((#[trigger] s@[a]).op.bytes@, (#[trigger] s@[b]).op.bytes@),
                forall|a: int| 0 <= a < i ==> lex_less((#[trigger] s@[a]).op.bytes@, s@[j as int].op.bytes@),
            decreases j - i,
        {
            match cmp_bytes32(&s[i].op.bytes, &s[j].op.bytes) {
                core::cmp::Ordering::Less => {},
                _ => {
                    return false;
                },
            }
            i = i + 1;
        }
        j = j + 1;
    }
    true
}

fn redeemed_ascending(s: &Vec<Redeemed>) -> (r: bool)
    ensures
        r == forall|i: int, j: int| 0 <= i < j < s@.len() ==> lex_less((#[trigger] s@[i]).op.bytes@, (#[trigger] s@[j]).op.bytes@),
{
    let n = s.len();
    let mut j: usize = 0;
    while j < n
        invariant
            n == s@.len(),
            j <= n,
            forall|a: int, b: int| 0 <= a < b < j ==> lex_less((#[trigger] s@[a]).op.bytes@, (#[trigger] s@[b]).op.bytes@),
        decreases n - j,
    {
        let mut i: usize = 0;
        while i < j
            invariant
                n == s@.len(),
                i <= j < n,
                forall|a: int, b: int| 0 <= a < b < j ==> lex_less((#[trigger] s@[a]).op.bytes@, (#[trigger] s@[b]).op.bytes@),
                forall|a: int| 0 <= a < i ==> lex_less((#[trigger] s@[a]).op.bytes@, s@[j as int].op.bytes@),
            decreases j - i,
        {
            match cmp_bytes32(&s[i].op.bytes, &s[j].op.bytes) {
                core::cmp::Ordering::Less => {},
                _ => {
                    return false;
                },
            }
            i = i + 1;
        }
        j = j + 1;
    }
    true
}

/// Whether transition inputs are an ordered map within their size limits.
pub fn inputs_ok(s: &Vec<OpInputs>) -> (r: bool)
    ensures
        r == inputs_wf(s@),
{
    if s.len() > 255 || !inputs_ascending(s) {
        return false;
    }
    let mut i: usize = 0;
    while i < s.len()
        invariant
            i <= s@.len(),
            forall|k: int| 0 <= k < i ==> op_inputs_wf(#[trigger] s@[k]),
        decreases s@.len() - i,
    {
        if !op_inputs_ok(&s[i]) {
            return false;
        }
        i = i + 1;
    }
    true
}

/// Whether redeemed valencies are an ordered map within their size limits.
pub fn redeemed_ok(s: &Vec<Redeemed>) -> (r: bool)
    ensures
        r == redeemed_wf(s@),
{
    if s.len() > 255 || !redeemed_ascending(s) {
        return false;
    }
    let mut i: usize = 0;
    while i < s.len()
        invariant
            i <= s@.len(),
            forall|k: int| 0 <= k < i ==> u16_set_wf((#[trigger] s@[k]).valencies@),
        decreases s@.len() - i,
    {
        if !u16_set_ok(&s[i].valencies) {
            return false;
        }
        i = i + 1;
    }
    true
}

/// Whether global state fits its encoding.
pub fn globals_ok(g: &GlobalState) -> (r: bool)
    ensures
        r == globals_wf(*g),
{
    if g.values.len() > 255 {
        return false;
    }
    let mut i: usize = 0;
    while i < g.values.len()
        invariant
            i <= g.values@.len(),
            forall|k: int| 0 <= k < i ==> (#[trigger] g.values@[k]).data@.len() <= u16::MAX,
        decreases g.values@.len() - i,
    {
        if g.values[i].data.len() > 65535 {
            return false;
        }
        i = i + 1;
    }
    true
}

/// Whether optional metadata fits its encoding.
pub fn meta_ok(m: &Option<Vec<u8>>) -> (r: bool)
    ensures
        r == meta_wf(*m),
{
    match m {
        Some(v) => v.len() <= 65535,
        None => true,
    }
}

impl Genesis {
    /// Tests, before any commitment, that the genesis fits its encoding.
    pub fn check_format(&self) -> (r: Result<(), FormatError>)
        ensures
            r is Ok <==> genesis_wf(*self),
            r == Err::<(), FormatError>(FormatError::Metadata) ==> !meta_wf(self.metadata),
            r == Err::<(), FormatError>(FormatError::Globals) ==> !globals_wf(self.globals),
            r == Err::<(), FormatError>(FormatError::Assignments) ==> !self.assignments.wf(),
            r == Err::<(), FormatError>(FormatError::Valencies) ==> !u16_set_wf(self.valencies@),
            r != Err::<(), FormatError>(FormatError::Inputs),
            r != Err::<(), FormatError>(FormatError::Redeemed),
    {
        if !meta_ok(&self.metadata) {
            return Err(FormatError::Metadata);
        }
        if !globals_ok(&self.globals) {
            return Err(FormatError::Globals);
        }
        if !self.assignments.is_wf() {
            return Err(FormatError::Assignments);
        }
        if !u16_set_ok(&self.valencies) {
            return Err(FormatError::Valencies);
        }
        Ok(())
    }
}

impl Extension {
    /// Tests, before any commitment, that the extension fits its encoding.
    pub fn check_format(&self) -> (r: Result<(), FormatError>)
        ensures
            r is Ok <==> extension_wf(*self),
            r == Err::<(), FormatError>(FormatError::Metadata) ==> !meta_wf(self.metadata),
            r == Err::<(), FormatError>(FormatError::Globals) ==> !globals_wf(self.globals),
            r == Err::<(), FormatError>(FormatError::Assignments) ==> !self.assignments.wf(),
            r == Err::<(), FormatError>(FormatError::Redeemed) ==> !redeemed_wf(self.redeemed@),
            r == Err::<(), FormatError>(FormatError::Valencies) ==> !u16_set_wf(self.valencies@),
            r != Err::<(), FormatError>(FormatError::Inputs),
    {
        if !meta_ok(&self.metadata) {
            return Err(FormatError::Metadata);
        }
        if !globals_ok(&self.globals) {
            return Err(FormatError::Globals);
        }
        if !self.assignments.is_wf() {
            return Err(FormatError::Assignments);
        }
        if !redeemed_ok(&self.redeemed) {
            return Err(FormatError::Redeemed);
        }
        if !u16_set_ok(&self.valencies) {
            return Err(FormatError::Valencies);
        }
        Ok(())
    }
}

impl Transition {
    /// Tests, before any commitment, that the transition fits its encoding.
    pub fn check_format(&self) -> (r: Result<(), FormatError>)
        ensures
            r is Ok <==> transition_wf(*self),
            r == Err::<(), FormatError>(FormatError::Metadata) ==> !meta_wf(self.metadata),
            r == Err::<(), FormatError>(FormatError::Globals) ==> !globals_wf(self.globals),
            r == Err::<(), FormatError>(FormatError::Inputs) ==> !inputs_wf(self.inputs@),
            r == Err::<(), FormatError>(FormatError::Assignments) ==> !self.assignments.wf(),
            r == Err::<(), FormatError>(FormatError::Valencies) ==> !u16_set_wf(self.valencies@),
            r != Err::<(), FormatError>(FormatError::Redeemed),
    {
        if !meta_ok(&self.metadata) {
            return Err(FormatError::Metadata);
        }
        if !globals_ok(&self.globals) {
            return Err(FormatError::Globals);
        }
        if !inputs_ok(&self.inputs) {
            return Err(FormatError::Inputs);
        }
        if !self.assignments.is_wf() {
            return Err(FormatError::Assignments);
        }
        if !u16_set_ok(&self.valencies) {
            return Err(FormatError::Valencies);
        }
        Ok(())
    }
}

proof fn lemma_indices_outs_fields(op: OpId, ty: u16, s: Seq<u16>)
    ensures
        indices_outs(op, ty, s).len() == s.len(),
        forall|k: int| 0 <= k < s.len() ==> (#[trigger] indices_outs(op, ty, s)[k]) == (Opout { op, ty, no: s[k] }),
    decreases s.len(),
{
    if s.len() > 0 {
        lemma_indices_outs_fields(op, ty, s.drop_last());
    }
}

/// Every output of one prior operation carries that operation and one of its
/// listed assignment types, and types come out in ascending order.
proof fn lemma_types_outs_ordered(op: OpId, s: Seq<TypeInputs>)
    requires
        forall|a: int, b: int| 0 <= a < b < s.len() ==> (#[trigger] s[a]).ty < (#[trigger] s[b]).ty,
    ensures
        forall|k: int| 0 <= k < types_outs(op, s).len() ==> (#[trigger] types_outs(op, s)[k]).op == op,
        forall|k: int| 0 <= k < types_outs(op, s).len() ==> exists|m: int|
            0 <= m < s.len() && (#[trigger] types_outs(op, s)[k]).ty == s[m].ty,
        forall|i: int, j: int| 0 <= i < j < types_outs(op, s).len() ==>
            (#[trigger] types_outs(op, s)[i]).ty <= (#[trigger] types_outs(op, s)[j]).ty,
    decreases s.len(),
{
    if s.len() > 0 {
        let p = s.drop_last();
        lemma_types_outs_ordered(op, p);
        let last = s.last();
        lemma_indices_outs_fields(op, last.ty, last.indices@);
        let left = types_outs(op, p);
        let right = indices_outs(op, last.ty, last.indices@);
        let all = types_outs(op, s);
        assert(all == left + right);
        assert forall|k: int| 0 <= k < all.len() implies (#[trigger] all[k]).op == op && exists|m: int|
            0 <= m < s.len() && all[k].ty == s[m].ty by {
            if k < left.len() {
                let m = choose|m: int| 0 <= m < p.len() && left[k].ty == p[m].ty;
                assert(s[m] == p[m]);
            } else {
                assert(all[k] == right[k - left.len()]);
                assert(all[k].ty == s[s.len() - 1].ty);
            }
        }
        assert forall|i: int, j: int| 0 <= i < j < all.len() implies (#[trigger] all[i]).ty <= (#[trigger] all[j]).ty by {
            if j < left.len() {
                assert(all[i] == left[i] && all[j] == left[j]);
            } else if i >= left.len() {
                assert(all[i] == right[i - left.len()] && all[j] == right[j - left.len()]);
            } else {
                let m = choose|m: int| 0 <= m < p.len() && left[i].ty == p[m].ty;
                assert(s[m] == p[m]);
                assert(all[i] == left[i]);
                assert(all[j] == right[j - left.len()]);
                assert(s[m].ty < s[s.len() - 1].ty);
            }
        }
    }
}

/// Order of consumed outputs: `(op, ty)` key of output `x` is at most that of `y`.
pub open spec fn opout_key_le(x: Opout, y: Opout) -> bool {
    lex_less(x.op.bytes@, y.op.bytes@) || (x.op == y.op && x.ty <= y.ty)
}

proof fn lemma_inputs_outs_ordered(s: Seq<OpInputs>)
    requires
        inputs_wf(s),
    ensures
        forall|k: int| 0 <= k < inputs_outs(s).len() ==> exists|m: int|
            0 <= m < s.len() && (#[trigger] inputs_outs(s)[k]).op == s[m].op,
        forall|i: int, j: int| 0 <= i < j < inputs_outs(s).len() ==>
            opout_key_le(#[trigger] inputs_outs(s)[i], #[trigger] inputs_outs(s)[j]),
    decreases s.len(),
{
    if s.len() > 0 {
        let p = s.drop_last();
        assert(inputs_wf(p)) by {
            assert forall|i: int, j: int| 0 <= i < j < p.len() implies lex_less((#[trigger] p[i]).op.bytes@, (#[trigger] p[j]).op.bytes@) by {
                assert(p[i] == s[i] && p[j] == s[j]);
            }
            assert forall|i: int| 0 <= i < p.len() implies op_inputs_wf(#[trigger] p[i]) by {
                assert(p[i] == s[i]);
            }
        }
        lemma_inputs_outs_ordered(p);
        let last = s.last();
        assert(op_inputs_wf(s[s.len() - 1]));
        lemma_types_outs_ordered(last.op, last.types@);
        let left = inputs_outs(p);
        let right = types_outs(last.op, last.types@);
        let all = inputs_outs(s);
        assert(all == left + right);
        assert forall|k: int| 0 <= k < all.len() implies exists|m: int| 0 <= m < s.len() && (#[trigger] all[k]).op == s[m].op by {
            if k < left.len() {
                let m = choose|m: int| 0 <= m < p.len() && left[k].op == p[m].op;
                assert(s[m] == p[m]);
                assert(all[k] == left[k]);
            } else {
                assert(all[k] == right[k - left.len()]);
                assert(all[k].op == s[s.len() - 1].op);
            }
        }
        assert forall|i: int, j: int| 0 <= i < j < all.len() implies opout_key_le(#[trigger] all[i], #[trigger] all[j]) by {
            if j < left.len() {
                assert(all[i] == left[i] && all[j] == left[j]);
            } else if i >= left.len() {
                assert(all[i] == right[i - left.len()] && all[j] == right[j - left.len()]);
            } else {
                let m = choose|m: int| 0 <= m < p.len() && left[i].op == p[m].op;
                assert(s[m] == p[m]);
                assert(all[i] == left[i]);
                assert(all[j] == right[j - left.len()]);
                assert(lex_less(s[m].op.bytes@, s[s.len() - 1].op.bytes@));
            }
        }
    }
}

/// The outputs a well-formed transition consumes come out sorted by prior
/// operation identifier, then by assignment type.
pub proof fn lemma_prev_outs_sorted(t: Transition)
    requires
        transition_wf(t),
    ensures
        forall|i: int, j: int| 0 <= i < j < t.prev_outs_spec().len() ==>
            opout_key_le(#[trigger] t.prev_outs_spec()[i], #[trigger] t.prev_outs_spec()[j]),
{
    lemma_inputs_outs_ordered(t.inputs@);
}

} // verus!
