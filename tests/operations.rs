use commit_verify::mpc::ProtocolId;
use rgb_core::ids::{ContractId, OpId};
use rgb_core::operations::{
    Chain, Extension, FormatError, Genesis, GlobalState, GlobalValue, OpFullType, OpInputs, OpRef, OpType,
    Operation, Opout, Redeemed, Transition, TypeInputs,
};
use rgb_core::seals::{BlindSeal, CloseMethod};
use rgb_core::state::{Assign, Assignments, RevealedState, SealSlot, StateSlot, StateType, TypedAssigns};

const FUNGIBLE_TYPE: u16 = 4000;

fn fungible_set(seal: BlindSeal, value: u64) -> TypedAssigns {
    TypedAssigns {
        ty: StateType::Fungible,
        items: vec![Assign {
            seal: SealSlot::Revealed(seal),
            state: StateSlot::Revealed(RevealedState::Fungible { value, blinding: [7u8; 32] }),
        }],
    }
}

fn genesis_with(seal: BlindSeal) -> Genesis {
    let mut assignments = Assignments::new();
    assignments.insert(FUNGIBLE_TYPE, fungible_set(seal, 100)).unwrap();
    Genesis {
        ffv: 0,
        schema_id: [1u8; 32],
        chain: Chain::Bitcoin,
        metadata: None,
        globals: GlobalState { values: vec![GlobalValue { ty: 2000, data: b"TICKER".to_vec() }] },
        assignments,
        valencies: vec![],
    }
}

fn transition_with(prev: OpId, ty: u16, seal: BlindSeal) -> Transition {
    let mut assignments = Assignments::new();
    assignments.insert(FUNGIBLE_TYPE, fungible_set(seal, 100)).unwrap();
    Transition {
        ffv: 0,
        transition_type: ty,
        metadata: None,
        globals: GlobalState { values: vec![] },
        inputs: vec![OpInputs { op: prev, types: vec![TypeInputs { ty: FUNGIBLE_TYPE, indices: vec![0] }] }],
        assignments,
        valencies: vec![],
    }
}

fn empty_transition(ty: u16, inputs: Vec<OpInputs>) -> Transition {
    Transition {
        ffv: 0,
        transition_type: ty,
        metadata: None,
        globals: GlobalState { values: vec![] },
        inputs,
        assignments: Assignments::new(),
        valencies: vec![],
    }
}

#[test]
fn id_is_stable_across_calls() {
    let g = genesis_with(BlindSeal { method: CloseMethod::OpretFirst, txid: Some([9u8; 32]), vout: 1, blinding: 42 });
    assert_eq!(g.commit_encode(), g.commit_encode());
    assert_eq!(g.id(), g.id());
    assert_eq!(g.id(), g.clone().id());
    let t = empty_transition(1, vec![]);
    assert_eq!(t.id(), t.id());
}

#[test]
fn transition_encoding_exact_bytes() {
    let t = empty_transition(0x0102, vec![]);
    // ffv, transition type, no metadata, no globals, no inputs, no assignments, no valencies
    assert_eq!(t.commit_encode(), vec![0, 0, 0x02, 0x01, 0, 0, 0, 0, 0]);
}

#[test]
fn same_payload_under_three_kinds_gives_three_ids() {
    let g = Genesis {
        ffv: 0,
        schema_id: [0u8; 32],
        chain: Chain::Bitcoin,
        metadata: None,
        globals: GlobalState { values: vec![] },
        assignments: Assignments::new(),
        valencies: vec![],
    };
    let t = empty_transition(0, vec![]);
    let e = Extension {
        ffv: 0,
        extension_type: 0,
        contract_id: ContractId::from_bytes([0u8; 32]),
        metadata: None,
        globals: GlobalState { values: vec![] },
        assignments: Assignments::new(),
        redeemed: vec![],
        valencies: vec![],
    };
    assert_ne!(g.id(), t.id());
    assert_ne!(g.id(), e.id());
    assert_ne!(t.id(), e.id());
}

#[test]
fn contract_id_is_genesis_id() {
    let g = genesis_with(BlindSeal { method: CloseMethod::OpretFirst, txid: None, vout: 0, blinding: 1 });
    let c = g.contract_id();
    assert_eq!(c.bytes, g.id().bytes);
    assert_eq!(ContractId::from_op_id(g.id()), c);
    assert_eq!(ProtocolId::from(c.bytes), ProtocolId::from(g.id().bytes));
}

#[test]
fn op_id_hex_round_trip() {
    let g = genesis_with(BlindSeal { method: CloseMethod::OpretFirst, txid: None, vout: 3, blinding: 5 });
    let id = g.id();
    let text = id.to_hex();
    assert_eq!(text.len(), 64);
    assert_eq!(OpId::from_str(&text).unwrap(), id);
    assert_eq!(OpId::from_str(&text.to_uppercase()).unwrap(), id);
}

#[test]
fn op_id_hex_exact() {
    let mut bytes = [0u8; 32];
    bytes[0] = 0xab;
    bytes[31] = 0x01;
    let id = OpId::from_bytes(bytes);
    let text = id.to_hex();
    assert!(text.starts_with("ab00"));
    assert!(text.ends_with("0001"));
}

#[test]
fn op_id_hex_rejects_malformed() {
    assert!(OpId::from_str("abc").is_err());
    assert!(OpId::from_str("abcd").is_err());
    let bad = format!("{}zz", "0".repeat(62));
    assert!(OpId::from_str(&bad).is_err());
    assert!(OpId::from_str("").is_err());
}

#[test]
fn contract_id_base58_text() {
    let a = ContractId::from_bytes([1u8; 32]);
    let b = ContractId::from_bytes([2u8; 32]);
    let ta = a.to_baid58_string();
    assert!(ta.starts_with("rgb:"));
    assert!(ta.len() > 40);
    assert_eq!(ta, a.to_baid58_string());
    assert_ne!(ta, b.to_baid58_string());
    assert_eq!(a.to_baid58_payload(), [1u8; 32]);
}

#[test]
fn prev_outs_flattens_in_order() {
    let op_a = OpId::from_bytes([0xaa; 32]);
    let t = empty_transition(
        1,
        vec![OpInputs { op: op_a, types: vec![TypeInputs { ty: 1, indices: vec![0, 2] }] }],
    );
    assert_eq!(
        t.prev_outs(),
        vec![Opout { op: op_a, ty: 1, no: 0 }, Opout { op: op_a, ty: 1, no: 2 }]
    );
}

#[test]
fn prev_outs_empty_for_genesis_and_extension() {
    let g = genesis_with(BlindSeal { method: CloseMethod::OpretFirst, txid: None, vout: 0, blinding: 0 });
    assert!(g.prev_outs().is_empty());
    let e = Extension {
        ffv: 0,
        extension_type: 7,
        contract_id: g.contract_id(),
        metadata: Some(vec![1, 2, 3]),
        globals: GlobalState { values: vec![] },
        assignments: Assignments::new(),
        redeemed: vec![Redeemed { op: g.id(), valencies: vec![1] }],
        valencies: vec![],
    };
    assert!(e.prev_outs().is_empty());
    assert_eq!(e.redeemed().len(), 1);
    assert_eq!(e.contract_id(), g.contract_id());
    assert_eq!(e.extension_type(), Some(7));
    assert_eq!(e.transition_type(), None);
    assert_eq!(e.full_type(), OpFullType::StateExtension(7));
    assert_eq!(e.metadata(), Some(&vec![1, 2, 3]));
}

#[test]
fn genesis_then_transition_scenario() {
    let s1 = BlindSeal { method: CloseMethod::OpretFirst, txid: None, vout: 0, blinding: 11 };
    let s2 = BlindSeal { method: CloseMethod::OpretFirst, txid: Some([3u8; 32]), vout: 1, blinding: 22 };
    let g = genesis_with(s1);
    let c = g.contract_id();
    assert_eq!(c.bytes, g.id().bytes);
    let t = transition_with(g.id(), 10, s2);
    assert_eq!(t.prev_outs(), vec![Opout { op: g.id(), ty: FUNGIBLE_TYPE, no: 0 }]);
    assert_ne!(t.id(), g.id());
    let t_other = transition_with(g.id(), 11, s2);
    assert_ne!(t.id(), t_other.id());
    assert_eq!(t.prev_state().len(), 1);
    assert!(t.assignments_by_type(FUNGIBLE_TYPE).is_some());
    assert!(t.assignments_by_type(1).is_none());
}

#[test]
fn op_ref_forwards_every_query() {
    let g = genesis_with(BlindSeal { method: CloseMethod::OpretFirst, txid: None, vout: 0, blinding: 1 });
    let t = transition_with(g.id(), 5, BlindSeal { method: CloseMethod::OpretFirst, txid: Some([4u8; 32]), vout: 0, blinding: 2 });
    let rg = OpRef::Genesis(&g);
    let rt = OpRef::Transition(&t);
    assert_eq!(rg.id(), g.id());
    assert_eq!(rt.id(), t.id());
    assert_eq!(rg.op_type(), OpType::Genesis);
    assert_eq!(rt.op_type(), OpType::StateTransition);
    assert_eq!(rt.transition_type(), Some(5));
    assert_eq!(rt.prev_outs(), t.prev_outs());
    assert_eq!(rg.globals(), g.globals());
    assert_eq!(rg.valencies(), g.valencies());
    assert_eq!(rg.metadata(), None);
}

#[test]
fn transitions_order_by_id() {
    let a = empty_transition(1, vec![]);
    let b = empty_transition(2, vec![]);
    let expected = a.id().bytes.cmp(&b.id().bytes);
    assert_eq!(a.cmp(&b), expected);
    assert_eq!(a.partial_cmp(&b), Some(expected));
    assert_eq!(a.cmp(&a), std::cmp::Ordering::Equal);
}

#[test]
fn unordered_inputs_are_rejected_before_commitment() {
    let high = OpId::from_bytes([0x09; 32]);
    let low = OpId::from_bytes([0x07; 32]);
    let one = |op: OpId| OpInputs { op, types: vec![TypeInputs { ty: 1, indices: vec![0] }] };
    let sorted = empty_transition(1, vec![one(low), one(high)]);
    assert_eq!(sorted.check_format(), Ok(()));
    let outs = sorted.prev_outs();
    assert_eq!(outs[0].op, low);
    assert_eq!(outs[1].op, high);
    let unsorted = empty_transition(1, vec![one(high), one(low)]);
    assert_eq!(unsorted.check_format(), Err(FormatError::Inputs));
    let dup = empty_transition(1, vec![one(low), one(low)]);
    assert_eq!(dup.check_format(), Err(FormatError::Inputs));
    let types_desc = empty_transition(
        1,
        vec![OpInputs {
            op: low,
            types: vec![TypeInputs { ty: 2, indices: vec![] }, TypeInputs { ty: 1, indices: vec![] }],
        }],
    );
    assert_eq!(types_desc.check_format(), Err(FormatError::Inputs));
}

#[test]
fn format_errors_name_the_field() {
    let mut t = empty_transition(1, vec![]);
    t.valencies = vec![3, 2];
    assert_eq!(t.check_format(), Err(FormatError::Valencies));
    t.valencies = vec![2, 3];
    assert_eq!(t.check_format(), Ok(()));
    t.metadata = Some(vec![0u8; 70000]);
    assert_eq!(t.check_format(), Err(FormatError::Metadata));
    let g = genesis_with(BlindSeal { method: CloseMethod::OpretFirst, txid: None, vout: 0, blinding: 0 });
    assert_eq!(g.check_format(), Ok(()));
    let mut big = g.clone();
    big.globals = GlobalState { values: (0..300u16).map(|ty| GlobalValue { ty, data: vec![] }).collect() };
    assert_eq!(big.check_format(), Err(FormatError::Globals));
    let e = Extension {
        ffv: 0,
        extension_type: 1,
        contract_id: g.contract_id(),
        metadata: None,
        globals: GlobalState { values: vec![] },
        assignments: Assignments::new(),
        redeemed: vec![Redeemed { op: g.id(), valencies: vec![2, 2] }],
        valencies: vec![],
    };
    assert_eq!(e.check_format(), Err(FormatError::Redeemed));
}
