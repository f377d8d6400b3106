//! State attached to seals: the four kinds of state in disclosed and
//! concealed form, assignments of state to seals, and the per-operation
//! container of assignments keyed by assignment type.

use vstd::prelude::*;
use crate::encoding::{blob16, le16, le64, push_blob16, push_raw, push_u16, push_u64};
use crate::ids::{bytes32_eq, tagged_digest, tagged_sha256, CONCEAL_TAG};
use crate::seals::{BlindSeal, ConfidentialSeal, ExposedSeal, SecretSeal};

verus! {

/// The four kinds of state.
#[derive(Clone, Copy, PartialEq, Eq, PartialOrd, Ord, Hash, Debug)]
pub enum StateType {
    Void,
    Fungible,
    Structured,
    Attachment,
}

/// The byte that stands for a kind of state in encodings.
pub open spec fn state_type_tag(t: StateType) -> u8 {
    match t {
        StateType::Void => 0u8,
        StateType::Fungible => 1u8,
        StateType::Structured => 2u8,
        StateType::Attachment => 3u8,
    }
}

pub fn state_type_byte(t: StateType) -> (r: u8)
    ensures
        r == state_type_tag(t),
{
    match t {
        StateType::Void => 0u8,
        StateType::Fungible => 1u8,
        StateType::Structured => 2u8,
        StateType::Attachment => 3u8,
    }
}

/// State that only commits to the actual state data.
pub trait ConfidentialState: Sized {
    spec fn commitment_spec(&self) -> Seq<u8>;

    spec fn state_type_spec(&self) -> StateType;

    fn state_type(&self) -> (r: StateType)
        ensures
            r == self.state_type_spec(),
    ;

    fn state_commitment(&self) -> (r: [u8; 32])
        ensures
            r@ == self.commitment_spec(),
    ;

    /// Concealing what is already concealed changes nothing.
    fn conceal(&self) -> (r: Self)
        ensures
            r == *self,
    ;
}

/// State holding explicit data, with its one-way concealment.
pub trait ExposedState: Sized {
    type Confidential: ConfidentialState;

    spec fn state_type_spec(&self) -> StateType;

    /// The state fits its encoding.
    spec fn encodable(&self) -> bool;

    /// The commitment that concealment gives for this state.
    spec fn concealed_commitment(&self) -> Seq<u8>;

    fn state_type(&self) -> (r: StateType)
        ensures
            r == self.state_type_spec(),
    ;

    fn conceal(&self) -> (r: Self::Confidential)
        requires
            self.encodable(),
        ensures
            r.commitment_spec() == self.concealed_commitment(),
            r.state_type_spec() == self.state_type_spec(),
    ;
}

/// Disclosed state of one of the four kinds.
#[derive(Clone, PartialEq, Eq, PartialOrd, Ord, Hash, Debug)]
pub enum RevealedState {
    /// An ownership right with no payload.
    Void,
    /// A fungible amount with its blinding factor.
    Fungible { value: u64, blinding: [u8; 32] },
    /// A structured data blob.
    Data(Vec<u8>),
    /// A reference to an attachment by its identifier.
    Attachment([u8; 32]),
}

/// Concealed state: its kind and a commitment to its data.
#[derive(Clone, Copy, PartialEq, Eq, PartialOrd, Ord, Hash, Debug)]
pub struct ConcealedState {
    pub ty: StateType,
    pub commitment: [u8; 32],
}

pub open spec fn revealed_type(s: RevealedState) -> StateType {
    match s {
        RevealedState::Void => StateType::Void,
        RevealedState::Fungible { .. } => StateType::Fungible,
        RevealedState::Data(_) => StateType::Structured,
        RevealedState::Attachment(_) => StateType::Attachment,
    }
}

/// Disclosed state fits its encoding: a data blob holds at most 65535 bytes.
pub open spec fn state_wf(s: RevealedState) -> bool {
    s matches RevealedState::Data(d) ==> d@.len() <= u16::MAX
}

/// Encoding of disclosed state: the kind's byte, then its payload.
pub open spec fn state_encoding(s: RevealedState) -> Seq<u8> {
    match s {
        RevealedState::Void => seq![0u8],
        RevealedState::Fungible { value, blinding } => seq![1u8] + le64(value) + blinding@,
        RevealedState::Data(d) => seq![2u8] + blob16(d@),
        RevealedState::Attachment(id) => seq![3u8] + id@,
    }
}

impl RevealedState {
    pub fn encode(&self) -> (r: Vec<u8>)
        requires
            state_wf(*self),
        ensures
            r@ == state_encoding(*self),
    {
        let mut out: Vec<u8> = Vec::new();
        match self {
            RevealedState::Void => {
                out.push(0u8);
            },
            RevealedState::Fungible { value, blinding } => {
                out.push(1u8);
                push_u64(&mut out, *value);
                push_raw(&mut out, blinding.as_slice());
            },
            RevealedState::Data(d) => {
                out.push(2u8);
                push_blob16(&mut out, d);
            },
            RevealedState::Attachment(id) => {
                out.push(3u8);
                push_raw(&mut out, id.as_slice());
            },
        }
        assert(out@ =~= state_encoding(*self));
        out
    }
}

impl ConfidentialState for ConcealedState {
    open spec fn commitment_spec(&self) -> Seq<u8> {
        self.commitment@
    }

    open spec fn state_type_spec(&self) -> StateType {
        self.ty
    }

    fn state_type(&self) -> (r: StateType) {
        self.ty
    }

    fn state_commitment(&self) -> (r: [u8; 32]) {
        self.commitment
    }

    fn conceal(&self) -> (r: Self) {
        *self
    }
}

impl ExposedState for RevealedState {
    type Confidential = ConcealedState;

    open spec fn state_type_spec(&self) -> StateType {
        revealed_type(*self)
    }

    open spec fn encodable(&self) -> bool {
        state_wf(*self)
    }

    open spec fn concealed_commitment(&self) -> Seq<u8> {
        tagged_sha256(CONCEAL_TAG@, state_encoding(*self))
    }

    fn state_type(&self) -> (r: StateType) {
        match self {
            RevealedState::Void => StateType::Void,
            RevealedState::Fungible { .. } => StateType::Fungible,
            RevealedState::Data(_) => StateType::Structured,
            RevealedState::Attachment(_) => StateType::Attachment,
        }
    }

    fn conceal(&self) -> (r: ConcealedState) {
        let msg = self.encode();
        ConcealedState { ty: self.state_type(), commitment: tagged_digest(&CONCEAL_TAG, &msg) }
    }
}

/// Concealment of state is a function of the state: equal states conceal to
/// the same commitment, of the same kind, in every call.
pub proof fn lemma_state_conceal_deterministic(a: RevealedState, b: RevealedState)
    requires
        a == b,
    ensures
        a.concealed_commitment() == b.concealed_commitment(),
        a.state_type_spec() == b.state_type_spec(),
{
}

/// A seal in an assignment, disclosed or concealed.
#[derive(Clone, Copy, PartialEq, Eq, PartialOrd, Ord, Hash, Debug)]
pub enum SealSlot {
    Revealed(BlindSeal),
    Concealed(SecretSeal),
}

/// State in an assignment, disclosed or concealed.
#[derive(Clone, PartialEq, Eq, PartialOrd, Ord, Hash, Debug)]
pub enum StateSlot {
    Revealed(RevealedState),
    Concealed(ConcealedState),
}

/// One state value bound to one seal.
#[derive(Clone, PartialEq, Eq, PartialOrd, Ord, Hash, Debug)]
pub struct Assign {
    pub seal: SealSlot,
    pub state: StateSlot,
}

/// The concealed form of a seal slot.
pub open spec fn seal_commitment(s: SealSlot) -> Seq<u8> {
    match s {
        SealSlot::Revealed(b) => b.concealed_bytes(),
        SealSlot::Concealed(c) => c.bytes@,
    }
}

pub open spec fn slot_type(s: StateSlot) -> StateType {
    match s {
        StateSlot::Revealed(r) => revealed_type(r),
        StateSlot::Concealed(c) => c.ty,
    }
}

/// Commitment encoding of a state slot: the kind's byte and the concealed commitment.
pub open spec fn state_commit_encoding(s: StateSlot) -> Seq<u8> {
    match s {
        StateSlot::Revealed(r) => seq![state_type_tag(revealed_type(r))] + r.concealed_commitment(),
        StateSlot::Concealed(c) => seq![state_type_tag(c.ty)] + c.commitment@,
    }
}

/// Commitment encoding of an assignment: always through the concealed forms.
pub open spec fn assign_commit(a: Assign) -> Seq<u8> {
    seal_commitment(a.seal) + state_commit_encoding(a.state)
}

pub open spec fn assign_wf(a: Assign) -> bool {
    a.state matches StateSlot::Revealed(r) ==> state_wf(r)
}

pub open spec fn is_concealed(a: Assign) -> bool {
    a.seal is Concealed && a.state is Concealed
}

impl SealSlot {
    /// The concealed seal, computed where the seal is disclosed.
    pub fn commitment(&self) -> (r: [u8; 32])
        ensures
            r@ == seal_commitment(*self),
    {
        match self {
            SealSlot::Revealed(b) => b.conceal().bytes,
            SealSlot::Concealed(c) => c.bytes,
        }
    }
}

impl StateSlot {
    pub fn concealed(&self) -> (r: ConcealedState)
        requires
            *self matches StateSlot::Revealed(st) ==> state_wf(st),
        ensures
            seq![state_type_tag(r.ty)] + r.commitment@ == state_commit_encoding(*self),
    {
        match self {
            StateSlot::Revealed(st) => st.conceal(),
            StateSlot::Concealed(c) => *c,
        }
    }
}

impl Assign {
    /// The fully concealed assignment, with the same commitment encoding.
    pub fn conceal(&self) -> (r: Assign)
        requires
            assign_wf(*self),
        ensures
            is_concealed(r),
            assign_wf(r),
            assign_commit(r) == assign_commit(*self),
            slot_type(r.state) == slot_type(self.state),
    {
        let seal = SecretSeal { bytes: self.seal.commitment() };
        let state = self.state.concealed();
        proof {
            assert(seq![state_type_tag(state.ty)] + state.commitment@ == state_commit_encoding(self.state));
            assert(state.ty == slot_type(self.state)) by {
                assert((seq![state_type_tag(state.ty)] + state.commitment@)[0] == state_type_tag(state.ty));
            }
        }
        Assign { seal: SealSlot::Concealed(seal), state: StateSlot::Concealed(state) }
    }

    pub fn commit_encode(&self, out: &mut Vec<u8>)
        requires
            assign_wf(*self),
        ensures
            final(out)@ == old(out)@ + assign_commit(*self),
    {
        let seal = self.seal.commitment();
        push_raw(out, seal.as_slice());
        let st = self.state.concealed();
        out.push(state_type_byte(st.ty));
        push_raw(out, st.commitment.as_slice());
        assert(final(out)@ =~= old(out)@ + assign_commit(*self));
    }
}

/// Concealment keeps the commitment: an assignment and its concealed form
/// encode alike, and concealing is a function of the assignment.
pub proof fn lemma_conceal_keeps_commitment(a: Assign, c: Assign)
    requires
        assign_wf(a),
        is_concealed(c),
        seal_commitment(c.seal) == seal_commitment(a.seal),
        state_commit_encoding(c.state) == state_commit_encoding(a.state),
    ensures
        assign_commit(c) == assign_commit(a),
{
}

/// All assignments of one state kind for one assignment type.
#[derive(Clone, PartialEq, Eq, Hash, Debug)]
pub struct TypedAssigns {
    pub ty: StateType,
    pub items: Vec<Assign>,
}

/// Commitment encodings of a run of assignments, one after the other.
pub open spec fn assigns_body(s: Seq<Assign>) -> Seq<u8>
    decreases s.len(),
{
    if s.len() == 0 {
        seq![]
    } else {
        assigns_body(s.drop_last()) + assign_commit(s.last())
    }
}

/// A typed set fits its encoding and holds state of its kind only.
pub open spec fn typed_wf(t: TypedAssigns) -> bool {
    &&& t.items@.len() <= u16::MAX
    &&& forall|i: int| 0 <= i < t.items@.len() ==> assign_wf(#[trigger] t.items@[i])
    &&& forall|i: int| 0 <= i < t.items@.len() ==> slot_type((#[trigger] t.items@[i]).state) == t.ty
}

/// Commitment encoding of a typed set: its kind, its size and its assignments.
pub open spec fn typed_commit(t: TypedAssigns) -> Seq<u8> {
    seq![state_type_tag(t.ty)] + le16(t.items@.len() as u16) + assigns_body(t.items@)
}

/// No two assignments of the set are on the same seal, disclosed or not.
pub open spec fn seals_unique(s: Seq<Assign>) -> bool {
    forall|i: int, j: int|
        0 <= i < j < s.len() ==> seal_commitment(#[trigger] s[i].seal) != seal_commitment(#[trigger] s[j].seal)
}

impl TypedAssigns {
    pub fn commit_encode(&self, out: &mut Vec<u8>)
        requires
            typed_wf(*self),
        ensures
            final(out)@ == old(out)@ + typed_commit(*self),
    {
        out.push(state_type_byte(self.ty));
        push_u16(out, self.items.len() as u16);
        let start = Ghost(out@);
        let mut i: usize = 0;
        while i < self.items.len()
            invariant
                typed_wf(*self),
                i <= self.items@.len(),
                out@ == start@ + assigns_body(self.items@.subrange(0, i as int)),
            decreases self.items@.len() - i,
        {
            self.items[i].commit_encode(out);
            assert(self.items@.subrange(0, i as int + 1).drop_last() =~= self.items@.subrange(0, i as int));
            i = i + 1;
            assert(out@ =~= start@ + assigns_body(self.items@.subrange(0, i as int)));
        }
        assert(self.items@.subrange(0, i as int) =~= self.items@);
        assert(final(out)@ =~= old(out)@ + typed_commit(*self));
    }

    /// Rejects a set with two assignments on the same seal, giving the
    /// position of the later one.
    pub fn check_unique_seals(&self) -> (r: Result<(), usize>)
        ensures
            r is Ok <==> seals_unique(self.items@),
            r matches Err(j) ==> j < self.items@.len() && exists|i: int|
                0 <= i < j && seal_commitment(self.items@[i].seal) == seal_commitment(self.items@[j as int].seal),
            r matches Err(j) ==> seals_unique(self.items@.subrange(0, j as int)),
    {
        let n = self.items.len();
        let mut seals: Vec<[u8; 32]> = Vec::new();
        let mut k: usize = 0;
        while k < n
            invariant
                n == self.items@.len(),
                k <= n,
                seals@.len() == k,
                forall|m: int| 0 <= m < k ==> (#[trigger] seals@[m])@ == seal_commitment(self.items@[m].seal),
            decreases n - k,
        {
            seals.push(self.items[k].seal.commitment());
            k = k + 1;
        }
        let mut j: usize = 0;
        while j < n
            invariant
                n == self.items@.len(),
                seals@.len() == n,
                j <= n,
                forall|m: int| 0 <= m < n ==> (#[trigger] seals@[m])@ == seal_commitment(self.items@[m].seal),
                seals_unique(self.items@.subrange(0, j as int)),
            decreases n - j,
        {
            let mut i: usize = 0;
            while i < j
                invariant
                    n == self.items@.len(),
                    seals@.len() == n,
                    i <= j < n,
                    seals_unique(self.items@.subrange(0, j as int)),
                    forall|m: int| 0 <= m < n ==> (#[trigger] seals@[m])@ == seal_commitment(self.items@[m].seal),
                    forall|m: int| 0 <= m < i ==> seal_commitment(self.items@[m].seal) != seal_commitment(self.items@[j as int].seal),
                decreases j - i,
            {
                if bytes32_eq(&seals[i], &seals[j]) {
                    assert(seals@[i as int]@ == seals@[j as int]@);
                    assert(!seals_unique(self.items@)) by {
                        assert(seal_commitment(self.items@[i as int].seal) == seal_commitment(self.items@[j as int].seal));
                    }
                    return Err(j);
                }
                assert(seals@[i as int]@ != seals@[j as int]@);
                i = i + 1;
            }
            let next = Ghost(self.items@.subrange(0, j as int + 1));
            assert forall|a: int, b: int| 0 <= a < b < next@.len() implies
                seal_commitment(#[trigger] next@[a].seal) != seal_commitment(#[trigger] next@[b].seal) by {
                if b < j {
                    assert(next@[a] == self.items@.subrange(0, j as int)[a]);
                    assert(next@[b] == self.items@.subrange(0, j as int)[b]);
                }
            }
            j = j + 1;
        }
        assert(self.items@.subrange(0, n as int) =~= self.items@);
        Ok(())
    }
}

/// Why an assignment type could not be added to an operation's assignments.
#[derive(Clone, Copy, PartialEq, Eq, Debug)]
pub enum AssignmentsError {
    /// The assignment type is already present.
    DuplicateType(u16),
    /// An operation holds at most 255 assignment types.
    TooManyTypes,
}

/// The typed assignment sets of one operation, by assignment type: unique
/// keys in ascending order.
#[derive(Clone, PartialEq, Eq, Hash, Debug)]
pub struct Assignments {
    entries: Vec<(u16, TypedAssigns)>,
}

/// Keys strictly ascending, hence unique.
pub open spec fn keys_ascending(s: Seq<(u16, TypedAssigns)>) -> bool {
    forall|i: int, j: int| 0 <= i < j < s.len() ==> (#[trigger] s[i]).0 < (#[trigger] s[j]).0
}

/// Commitment encodings of the entries, one after the other: key, then set.
pub open spec fn entries_body(s: Seq<(u16, TypedAssigns)>) -> Seq<u8>
    decreases s.len(),
{
    if s.len() == 0 {
        seq![]
    } else {
        entries_body(s.drop_last()) + le16(s.last().0) + typed_commit(s.last().1)
    }
}

/// Commitment encoding of the container: the number of entries as one byte,
/// then each entry in ascending key order.
pub open spec fn assignments_commit(s: Seq<(u16, TypedAssigns)>) -> Seq<u8> {
    seq![s.len() as u8] + entries_body(s)
}

impl View for Assignments {
    type V = Seq<(u16, TypedAssigns)>;

    closed spec fn view(&self) -> Seq<(u16, TypedAssigns)> {
        self.entries@
    }
}

impl Assignments {
    pub open spec fn wf(&self) -> bool {
        &&& keys_ascending(self@)
        &&& self@.len() <= 255
        &&& forall|i: int| 0 <= i < self@.len() ==> typed_wf(#[trigger] self@[i].1)
    }

    pub fn new() -> (r: Assignments)
        ensures
            r.wf(),
            r@.len() == 0,
    {
        Assignments { entries: Vec::new() }
    }

    pub fn len(&self) -> (r: usize)
        ensures
            r == self@.len(),
    {
        self.entries.len()
    }

    /// Adds the set of an assignment type not yet present, keeping the keys in order.
    pub fn insert(&mut self, ty: u16, set: TypedAssigns) -> (r: Result<(), AssignmentsError>)
        requires
            old(self).wf(),
            typed_wf(set),
        ensures
            final(self).wf(),
            r == Err::<(), AssignmentsError>(AssignmentsError::DuplicateType(ty)) <==> exists|i: int|
                0 <= i < old(self)@.len() && (#[trigger] old(self)@[i]).0 == ty,
            r == Err::<(), AssignmentsError>(AssignmentsError::TooManyTypes) <==> (forall|i: int|
                0 <= i < old(self)@.len() ==> (#[trigger] old(self)@[i]).0 != ty) && old(self)@.len() == 255,
            r matches Err(AssignmentsError::DuplicateType(t)) ==> t == ty,
            r is Err ==> final(self)@ == old(self)@,
            r is Ok ==> exists|p: int| 0 <= p <= old(self)@.len() && final(self)@ == old(self)@.insert(p, (ty, set)),
            r is Ok ==> exists|p: int| 0 <= p < final(self)@.len() && #[trigger] final(self)@[p] == (ty, set),
    {
        let n = self.entries.len();
        let mut i: usize = 0;
        while i < n
            invariant
                n == self@.len(),
                i <= n,
                forall|j: int| 0 <= j < i ==> (#[trigger] self@[j]).0 < ty,
            ensures
                i <= n,
                forall|j: int| 0 <= j < i ==> (#[trigger] self@[j]).0 < ty,
                i < n ==> self@[i as int].0 >= ty,
            decreases n - i,
        {
            if self.entries[i].0 >= ty {
                break;
            }
            i = i + 1;
        }
        if i < n && self.entries[i].0 == ty {
            return Err(AssignmentsError::DuplicateType(ty));
        }
        assert forall|j: int| 0 <= j < n implies (#[trigger] self@[j]).0 != ty by {
            if j > i {
                assert(self@[i as int].0 < self@[j].0);
            }
        }
        if n == 255 {
            return Err(AssignmentsError::TooManyTypes);
        }
        let ghost before = self@;
        self.entries.insert(i, (ty, set));
        assert(self@ == before.insert(i as int, (ty, set)));
        assert forall|a: int, b: int| 0 <= a < b < self@.len() implies (#[trigger] self@[a]).0 < (#[trigger] self@[b]).0 by {
            if b < i {
            } else if b == i {
            } else if a < i {
                assert(self@[b] == before[b - 1]);
            } else if a == i {
                assert(self@[b] == before[b - 1]);
                assert(before[i as int].0 >= ty || i as int == b - 1);
                if i as int != b - 1 {
                    assert(before[i as int].0 < before[b - 1].0);
                }
            } else {
                assert(self@[a] == before[a - 1]);
                assert(self@[b] == before[b - 1]);
            }
        }
        assert forall|k: int| 0 <= k < self@.len() implies typed_wf(#[trigger] self@[k].1) by {
            if k > i {
                assert(self@[k] == before[k - 1]);
            }
        }
        assert(self@[i as int] == (ty, set));
        Ok(())
    }

    /// The set of an assignment type, if present.
    pub fn get(&self, ty: u16) -> (r: Option<&TypedAssigns>)
        ensures
            match r {
                Some(t) => exists|i: int| 0 <= i < self@.len() && (#[trigger] self@[i]).0 == ty && self@[i].1 == *t,
                None => forall|i: int| 0 <= i < self@.len() ==> (#[trigger] self@[i]).0 != ty,
            },
    {
        let mut i: usize = 0;
        while i < self.entries.len()
            invariant
                i <= self@.len(),
                forall|j: int| 0 <= j < i ==> (#[trigger] self@[j]).0 != ty,
            decreases self@.len() - i,
        {
            if self.entries[i].0 == ty {
                return Some(&self.entries[i].1);
            }
            i = i + 1;
        }
        None
    }

    /// Writes the commitment encoding of the container.
    pub fn commit_encode(&self, out: &mut Vec<u8>)
        requires
            self.wf(),
        ensures
            final(out)@ == old(out)@ + assignments_commit(self@),
    {
        out.push(self.entries.len() as u8);
        let start = Ghost(out@);
        let mut i: usize = 0;
        while i < self.entries.len()
            invariant
                self.wf(),
                i <= self@.len(),
                out@ == start@ + entries_body(self@.subrange(0, i as int)),
            decreases self@.len() - i,
        {
            let entry = &self.entries[i];
            push_u16(out, entry.0);
            entry.1.commit_encode(out);
            assert(self@.subrange(0, i as int + 1).drop_last() =~= self@.subrange(0, i as int));
            i = i + 1;
            assert(out@ =~= start@ + entries_body(self@.subrange(0, i as int)));
        }
        assert(self@.subrange(0, i as int) =~= self@);
        assert(final(out)@ =~= old(out)@ + assignments_commit(self@));
    }
}

proof fn lemma_ascending_same_entries(s: Seq<(u16, TypedAssigns)>, t: Seq<(u16, TypedAssigns)>)
    requires
        keys_ascending(s),
        keys_ascending(t),
        forall|x: (u16, TypedAssigns)| s.contains(x) <==> t.contains(x),
    ensures
        s == t,
    decreases s.len(),
{
    if s.len() == 0 {
        if t.len() > 0 {
            assert(t.contains(t[0]));
        }
        assert(s =~= t);
    } else {
        assert(s.contains(s[0]));
        assert(t.len() > 0);
        assert(t.contains(t[0]));
        let j = choose|j: int| 0 <= j < t.len() && t[j] == s[0];
        let k = choose|k: int| 0 <= k < s.len() && s[k] == t[0];
        if j != 0 {
            assert(t[0].0 < t[j].0);
            if k != 0 {
                assert(s[0].0 < s[k].0);
            }
        }
        assert(j == 0);
        let s1 = s.subrange(1, s.len() as int);
        let t1 = t.subrange(1, t.len() as int);
        assert forall|x: (u16, TypedAssigns)| s1.contains(x) <==> t1.contains(x) by {
            if s1.contains(x) {
                let a = choose|a: int| 0 <= a < s1.len() && s1[a] == x;
                assert(s[a + 1] == x);
                assert(s[0].0 < s[a + 1].0);
                assert(s.contains(x));
                let b = choose|b: int| 0 <= b < t.len() && t[b] == x;
                assert(b != 0);
                assert(t1[b - 1] == x);
            }
            if t1.contains(x) {
                let a = choose|a: int| 0 <= a < t1.len() && t1[a] == x;
                assert(t[a + 1] == x);
                assert(t[0].0 < t[a + 1].0);
                assert(t.contains(x));
                let b = choose|b: int| 0 <= b < s.len() && s[b] == x;
                assert(b != 0);
                assert(s1[b - 1] == x);
            }
        }
        lemma_ascending_same_entries(s1, t1);
        assert(s =~= seq![s[0]] + s1);
        assert(t =~= seq![t[0]] + t1);
    }
}

/// The commitment encoding does not depend on the order in which entries were
/// added: two well-formed containers holding the same entries encode alike.
pub proof fn lemma_commit_independent_of_insertion_order(a: Assignments, b: Assignments)
    requires
        a.wf(),
        b.wf(),
        forall|x: (u16, TypedAssigns)| a@.contains(x) <==> b@.contains(x),
    ensures
        a@ == b@,
        assignments_commit(a@) == assignments_commit(b@),
{
    lemma_ascending_same_entries(a@, b@);
}

fn same_state_type(a: StateType, b: StateType) -> (r: bool)
    ensures
        r == (a == b),
{
    match (a, b) {
        (StateType::Void, StateType::Void) => true,
        (StateType::Fungible, StateType::Fungible) => true,
        (StateType::Structured, StateType::Structured) => true,
        (StateType::Attachment, StateType::Attachment) => true,
        _ => false,
    }
}

impl StateSlot {
    pub fn state_type(&self) -> (r: StateType)
        ensures
            r == slot_type(*self),
    {
        match self {
            StateSlot::Revealed(st) => st.state_type(),
            StateSlot::Concealed(c) => c.ty,
        }
    }
}

impl Assign {
    /// Whether the assignment fits its encoding.
    pub fn is_wf(&self) -> (r: bool)
        ensures
            r == assign_wf(*self),
    {
        match &self.state {
            StateSlot::Revealed(RevealedState::Data(d)) => d.len() <= 65535,
            _ => true,
        }
    }
}

impl TypedAssigns {
    /// Whether the set fits its encoding and holds state of its kind only.
    pub fn is_wf(&self) -> (r: bool)
        ensures
            r == typed_wf(*self),
    {
        if self.items.len() > 65535 {
            return false;
        }
        let mut i: usize = 0;
        while i < self.items.len()
            invariant
                i <= self.items@.len(),
                forall|j: int| 0 <= j < i ==> assign_wf(#[trigger] self.items@[j]),
                forall|j: int| 0 <= j < i ==> slot_type((#[trigger] self.items@[j]).state) == self.ty,
            decreases self.items@.len() - i,
        {
            let a = &self.items[i];
            if !a.is_wf() || !same_state_type(a.state.state_type(), self.ty) {
                return false;
            }
            i = i + 1;
        }
        true
    }
}

impl Assignments {
    /// Whether the container holds at most 255 well-formed sets under
    /// strictly ascending keys.
    pub fn is_wf(&self) -> (r: bool)
        ensures
            r == self.wf(),
    {
        let n = self.entries.len();
        if n > 255 {
            return false;
        }
        let mut i: usize = 0;
        while i < n
            invariant
                n == self@.len(),
                n <= 255,
                i <= n,
                forall|a: int, b: int| 0 <= a < b < i ==> (#[trigger] self@[a]).0 < (#[trigger] self@[b]).0,
                forall|k: int| 0 <= k < i ==> typed_wf(#[trigger] self@[k].1),
            decreases n - i,
        {
            if i > 0 && self.entries[i - 1].0 >= self.entries[i].0 {
                return false;
            }
            if !self.entries[i].1.is_wf() {
                return false;
            }
            assert forall|a: int, b: int| 0 <= a < b < i + 1 implies (#[trigger] self@[a]).0 < (#[trigger] self@[b]).0 by {
                if b == i && a < i - 1 {
                    assert(self@[a].0 < self@[i - 1].0);
                }
            }
            i = i + 1;
        }
        true
    }
}

proof fn lemma_assigns_body_pointwise(s: Seq<Assign>, t: Seq<Assign>)
    requires
        s.len() == t.len(),
        forall|k: int| 0 <= k < s.len() ==> assign_commit(#[trigger] s[k]) == assign_commit(t[k]),
    ensures
        assigns_body(s) == assigns_body(t),
    decreases s.len(),
{
    if s.len() > 0 {
        lemma_assigns_body_pointwise(s.drop_last(), t.drop_last());
    }
}

proof fn lemma_entries_body_pointwise(s: Seq<(u16, TypedAssigns)>, t: Seq<(u16, TypedAssigns)>)
    requires
        s.len() == t.len(),
        forall|k: int| 0 <= k < s.len() ==> (#[trigger] s[k]).0 == t[k].0 && typed_commit(s[k].1) == typed_commit(t[k].1),
    ensures
        entries_body(s) == entries_body(t),
    decreases s.len(),
{
    if s.len() > 0 {
        lemma_entries_body_pointwise(s.drop_last(), t.drop_last());
    }
}

impl TypedAssigns {
    /// The set with every assignment concealed; it commits to the same bytes.
    pub fn conceal(&self) -> (r: TypedAssigns)
        requires
            typed_wf(*self),
        ensures
            typed_wf(r),
            r.ty == self.ty,
            r.items@.len() == self.items@.len(),
            forall|k: int| 0 <= k < r.items@.len() ==> is_concealed(#[trigger] r.items@[k]),
            forall|k: int| 0 <= k < r.items@.len() ==> assign_commit(#[trigger] r.items@[k]) == assign_commit(self.items@[k]),
            typed_commit(r) == typed_commit(*self),
    {
        let mut items: Vec<Assign> = Vec::new();
        let mut i: usize = 0;
        while i < self.items.len()
            invariant
                typed_wf(*self),
                i <= self.items@.len(),
                items@.len() == i,
                forall|k: int| 0 <= k < i ==> is_concealed(#[trigger] items@[k]),
                forall|k: int| 0 <= k < i ==> assign_wf(#[trigger] items@[k]),
                forall|k: int| 0 <= k < i ==> slot_type((#[trigger] items@[k]).state) == self.ty,
                forall|k: int| 0 <= k < i ==> assign_commit(#[trigger] items@[k]) == assign_commit(self.items@[k]),
            decreases self.items@.len() - i,
        {
            let c = self.items[i].conceal();
            items.push(c);
            i = i + 1;
        }
        let r = TypedAssigns { ty: self.ty, items };
        proof {
            lemma_assigns_body_pointwise(r.items@, self.items@);
        }
        r
    }
}

impl Assignments {
    /// The container with every assignment concealed, under the same keys;
    /// it commits to the same bytes.
    pub fn conceal(&self) -> (r: Assignments)
        requires
            self.wf(),
        ensures
            r.wf(),
            r@.len() == self@.len(),
            forall|k: int| 0 <= k < r@.len() ==> (#[trigger] r@[k]).0 == self@[k].0,
            forall|k: int, m: int| 0 <= k < r@.len() && 0 <= m < r@[k].1.items@.len() ==>
                is_concealed(#[trigger] r@[k].1.items@[m]),
            assignments_commit(r@) == assignments_commit(self@),
    {
        let mut entries: Vec<(u16, TypedAssigns)> = Vec::new();
        let mut i: usize = 0;
        while i < self.entries.len()
            invariant
                self.wf(),
                i <= self@.len(),
                entries@.len() == i,
                forall|k: int| 0 <= k < i ==> (#[trigger] entries@[k]).0 == self@[k].0,
                forall|k: int| 0 <= k < i ==> typed_wf((#[trigger] entries@[k]).1),
                forall|k: int| 0 <= k < i ==> typed_commit((#[trigger] entries@[k]).1) == typed_commit(self@[k].1),
                forall|k: int, m: int| 0 <= k < i && 0 <= m < entries@[k].1.items@.len() ==>
                    is_concealed(#[trigger] entries@[k].1.items@[m]),
            decreases self@.len() - i,
        {
            let e = &self.entries[i];
            let c = e.1.conceal();
            entries.push((e.0, c));
            i = i + 1;
        }
        let r = Assignments { entries };
        proof {
            lemma_entries_body_pointwise(r@, self@);
            assert forall|a: int, b: int| 0 <= a < b < r@.len() implies (#[trigger] r@[a]).0 < (#[trigger] r@[b]).0 by {
                assert(self@[a].0 < self@[b].0);
            }
        }
        r
    }
}

/// A concealed assignment is determined by its commitment encoding.
pub proof fn lemma_concealed_assign_unique(a: Assign, b: Assign)
    requires
        is_concealed(a),
        is_concealed(b),
        assign_commit(a) == assign_commit(b),
    ensures
        a == b,
{
    let sa = a.seal->Concealed_0;
    let sb = b.seal->Concealed_0;
    let ca = a.state->Concealed_0;
    let cb = b.state->Concealed_0;
    let ea = assign_commit(a);
    assert(ea == sa.bytes@ + (seq![state_type_tag(ca.ty)] + ca.commitment@));
    assert(assign_commit(b) == sb.bytes@ + (seq![state_type_tag(cb.ty)] + cb.commitment@));
    assert forall|i: int| 0 <= i < 32 implies sa.bytes[i] == sb.bytes[i] by {
        assert(sa.bytes@[i] == ea[i]);
        assert(sb.bytes@[i] == assign_commit(b)[i]);
    }
    assert(sa.bytes =~= sb.bytes);
    assert(ea[32] == state_type_tag(ca.ty));
    assert(assign_commit(b)[32] == state_type_tag(cb.ty));
    assert(ca.ty == cb.ty);
    assert forall|i: int| 0 <= i < 32 implies ca.commitment[i] == cb.commitment[i] by {
        assert(ca.commitment@[i] == ea[33 + i]);
        assert(cb.commitment@[i] == assign_commit(b)[33 + i]);
    }
    assert(ca.commitment =~= cb.commitment);
}

/// Concealing a typed set is deterministic: any two results of concealing
/// the same set hold the same concealed assignments.
pub proof fn lemma_typed_conceal_deterministic(t: TypedAssigns, r1: TypedAssigns, r2: TypedAssigns)
    requires
        r1.ty == t.ty && r2.ty == t.ty,
        r1.items@.len() == t.items@.len() && r2.items@.len() == t.items@.len(),
        forall|k: int| 0 <= k < r1.items@.len() ==> is_concealed(#[trigger] r1.items@[k]),
        forall|k: int| 0 <= k < r2.items@.len() ==> is_concealed(#[trigger] r2.items@[k]),
        forall|k: int| 0 <= k < r1.items@.len() ==> assign_commit(#[trigger] r1.items@[k]) == assign_commit(t.items@[k]),
        forall|k: int| 0 <= k < r2.items@.len() ==> assign_commit(#[trigger] r2.items@[k]) == assign_commit(t.items@[k]),
    ensures
        r1.ty == r2.ty,
        r1.items@ == r2.items@,
{
    assert forall|k: int| 0 <= k < r1.items@.len() implies r1.items@[k] == r2.items@[k] by {
        lemma_concealed_assign_unique(r1.items@[k], r2.items@[k]);
    }
    assert(r1.items@ =~= r2.items@);
}

impl Default for Assignments {
    fn default() -> (r: Assignments)
        ensures
            r.wf(),
            r@.len() == 0,
    {
        Assignments::new()
    }
}

} // verus!
