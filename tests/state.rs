use rgb_core::seals::{
    BlindSeal, CloseMethod, ConfidentialSeal, DecodeError, ExposedSeal, GraphTx, Outpoint, SecretSeal, SpendingStatus, TxGraph,
};
use rgb_core::state::{
    Assign, Assignments, AssignmentsError, ConcealedState, ConfidentialState, ExposedState,
    RevealedState, SealSlot, StateSlot, StateType, TypedAssigns,
};

fn right_on(seal: BlindSeal) -> Assign {
    Assign { seal: SealSlot::Revealed(seal), state: StateSlot::Revealed(RevealedState::Void) }
}

fn set_of(items: Vec<Assign>) -> TypedAssigns {
    TypedAssigns { ty: StateType::Void, items }
}

#[test]
fn seal_conceal_is_deterministic_and_idempotent() {
    let s = BlindSeal { method: CloseMethod::OpretFirst, txid: Some([5u8; 32]), vout: 2, blinding: 77 };
    let c1 = s.conceal();
    let c2 = s.conceal();
    assert_eq!(c1, c2);
    assert_eq!(ConfidentialSeal::conceal(&c1), c1);
    let other = BlindSeal { method: CloseMethod::OpretFirst, txid: Some([5u8; 32]), vout: 2, blinding: 78 };
    assert_ne!(other.conceal(), c1);
    assert_ne!(c1.commitment(), [0u8; 32]);
}

#[test]
fn seal_encoding_exact_bytes() {
    let s = BlindSeal { method: CloseMethod::OpretFirst, txid: None, vout: 0x01020304, blinding: 0x05 };
    assert_eq!(s.encode(), vec![0, 0, 4, 3, 2, 1, 5, 0, 0, 0, 0, 0, 0, 0]);
    let t = BlindSeal { method: CloseMethod::TapretFirst, txid: None, vout: 0x01020304, blinding: 0x05 };
    assert_eq!(t.encode()[0], 1);
    assert_ne!(t.conceal(), s.conceal());
}

#[test]
fn state_conceal_is_deterministic_and_idempotent() {
    let st = RevealedState::Fungible { value: 100, blinding: [1u8; 32] };
    let c = st.conceal();
    assert_eq!(c, st.conceal());
    assert_eq!(c.ty, StateType::Fungible);
    assert_eq!(ConfidentialState::conceal(&c), c);
    let other = RevealedState::Fungible { value: 101, blinding: [1u8; 32] };
    assert_ne!(other.conceal().commitment, c.commitment);
    assert_eq!(RevealedState::Data(vec![1, 2]).encode(), vec![2, 2, 0, 1, 2]);
}

#[test]
fn assignment_commitment_is_the_same_concealed_or_not() {
    let a = Assign {
        seal: SealSlot::Revealed(BlindSeal { method: CloseMethod::OpretFirst, txid: None, vout: 1, blinding: 9 }),
        state: StateSlot::Revealed(RevealedState::Attachment([8u8; 32])),
    };
    let c = a.conceal();
    assert!(matches!(c.seal, SealSlot::Concealed(_)));
    assert!(matches!(c.state, StateSlot::Concealed(_)));
    let mut x = Vec::new();
    a.commit_encode(&mut x);
    let mut y = Vec::new();
    c.commit_encode(&mut y);
    assert_eq!(x, y);
    assert_eq!(x.len(), 65);
}

#[test]
fn duplicate_assignment_type_is_rejected() {
    let mut a = Assignments::new();
    assert_eq!(a.insert(3, set_of(vec![])), Ok(()));
    assert_eq!(a.insert(1, set_of(vec![])), Ok(()));
    assert_eq!(a.insert(3, set_of(vec![])), Err(AssignmentsError::DuplicateType(3)));
    assert_eq!(a.len(), 2);
    assert!(a.get(1).is_some());
    assert!(a.get(2).is_none());
    let mut out = Vec::new();
    a.commit_encode(&mut out);
    // count, then key 1 before key 3, each an empty set of rights
    assert_eq!(out, vec![2, 1, 0, 0, 0, 0, 3, 0, 0, 0, 0]);
}

#[test]
fn too_many_assignment_types() {
    let mut a = Assignments::default();
    for ty in 0..255u16 {
        assert_eq!(a.insert(ty, set_of(vec![])), Ok(()));
    }
    assert_eq!(a.insert(1000, set_of(vec![])), Err(AssignmentsError::TooManyTypes));
    assert_eq!(a.len(), 255);
}

#[test]
fn same_seal_twice_is_rejected() {
    let s = BlindSeal { method: CloseMethod::OpretFirst, txid: Some([1u8; 32]), vout: 0, blinding: 3 };
    let t = BlindSeal { method: CloseMethod::OpretFirst, txid: Some([1u8; 32]), vout: 1, blinding: 3 };
    assert_eq!(set_of(vec![right_on(s), right_on(t)]).check_unique_seals(), Ok(()));
    assert_eq!(set_of(vec![right_on(s), right_on(t), right_on(s)]).check_unique_seals(), Err(2));
    let hidden = Assign {
        seal: SealSlot::Concealed(SecretSeal { bytes: s.conceal().bytes }),
        state: StateSlot::Concealed(ConcealedState { ty: StateType::Void, commitment: [0u8; 32] }),
    };
    assert_eq!(set_of(vec![right_on(s), hidden]).check_unique_seals(), Err(1));
    assert_eq!(set_of(vec![]).check_unique_seals(), Ok(()));
}

#[test]
fn spending_status_follows_the_graph() {
    let t1 = [1u8; 32];
    let t2 = [2u8; 32];
    let o = Outpoint { txid: t1, vout: 0 };
    let mut g = TxGraph::new();
    assert_eq!(g.spending_status(o), SpendingStatus::Absent);
    g.add_tx(GraphTx { txid: t1, inputs: vec![], outputs: 2 });
    assert_eq!(g.spending_status(o), SpendingStatus::Unspent);
    assert_eq!(g.spending_status(Outpoint { txid: t1, vout: 2 }), SpendingStatus::Absent);
    g.add_tx(GraphTx { txid: t2, inputs: vec![o], outputs: 1 });
    assert_eq!(g.spending_status(o), SpendingStatus::SpentIn(t2));
    let o2 = Outpoint { txid: t2, vout: 0 };
    assert_eq!(g.spending_status(o2), SpendingStatus::Unspent);
    g.add_spent_elsewhere(o2);
    assert_eq!(g.spending_status(o2), SpendingStatus::SpentUnknown);
}

#[test]
fn seal_decode_round_trip_and_errors() {
    let s = BlindSeal { method: CloseMethod::OpretFirst, txid: Some([6u8; 32]), vout: 70000, blinding: u64::MAX };
    assert_eq!(BlindSeal::decode(&s.encode()), Ok(s));
    let n = BlindSeal { method: CloseMethod::OpretFirst, txid: None, vout: 1, blinding: 2 };
    assert_eq!(BlindSeal::decode(&n.encode()), Ok(n));
    assert_eq!(BlindSeal::decode(&[]), Err(DecodeError::InvalidLength(0)));
    assert_eq!(BlindSeal::decode(&[2, 0, 0]), Err(DecodeError::InvalidTag(2)));
    assert_eq!(BlindSeal::decode(&[0, 5, 0]), Err(DecodeError::InvalidTag(5)));
    let tap = BlindSeal { method: CloseMethod::TapretFirst, txid: Some([1u8; 32]), vout: 3, blinding: 4 };
    assert_eq!(BlindSeal::decode(&tap.encode()), Ok(tap));
    assert_eq!(BlindSeal::decode(&[0, 1, 2]), Err(DecodeError::InvalidLength(3)));
}

#[test]
fn graph_adjacency_between_transactions() {
    let t1 = [1u8; 32];
    let t2 = [2u8; 32];
    let t3 = [3u8; 32];
    let mut g = TxGraph::new();
    g.add_tx(GraphTx { txid: t1, inputs: vec![], outputs: 1 });
    g.add_tx(GraphTx { txid: t2, inputs: vec![Outpoint { txid: t1, vout: 0 }], outputs: 1 });
    assert!(g.spends_output_of(&t2, &t1));
    assert!(!g.spends_output_of(&t1, &t2));
    assert!(!g.spends_output_of(&t3, &t1));
}

#[test]
fn commitment_independent_of_insertion_order() {
    let mut a = Assignments::new();
    a.insert(5, set_of(vec![])).unwrap();
    a.insert(2, set_of(vec![])).unwrap();
    a.insert(9, set_of(vec![])).unwrap();
    let mut b = Assignments::new();
    b.insert(9, set_of(vec![])).unwrap();
    b.insert(5, set_of(vec![])).unwrap();
    b.insert(2, set_of(vec![])).unwrap();
    let mut x = Vec::new();
    a.commit_encode(&mut x);
    let mut y = Vec::new();
    b.commit_encode(&mut y);
    assert_eq!(x, y);
    assert_eq!(a, b);
}

#[test]
fn container_conceal_keeps_commitment() {
    let s = BlindSeal { method: CloseMethod::TapretFirst, txid: Some([2u8; 32]), vout: 1, blinding: 5 };
    let set = TypedAssigns {
        ty: StateType::Structured,
        items: vec![Assign {
            seal: SealSlot::Revealed(s),
            state: StateSlot::Revealed(RevealedState::Data(vec![9, 9, 9])),
        }],
    };
    let mut a = Assignments::new();
    a.insert(7, set.clone()).unwrap();
    let c1 = a.conceal();
    let c2 = a.conceal();
    assert_eq!(c1, c2);
    assert_ne!(c1, a);
    let (mut x, mut y) = (Vec::new(), Vec::new());
    a.commit_encode(&mut x);
    c1.commit_encode(&mut y);
    assert_eq!(x, y);
    let tc = set.conceal();
    assert!(matches!(tc.items[0].seal, SealSlot::Concealed(_)));
    assert!(matches!(tc.items[0].state, StateSlot::Concealed(_)));
    assert!(a.is_wf() && c1.is_wf() && tc.is_wf());
}
