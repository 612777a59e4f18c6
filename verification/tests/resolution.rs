use light_request::field::Field;
use light_request::field::Hash256;
use light_request::field::NoSuchOutput;
use light_request::field::Output;
use light_request::field::OutputKind;
use light_request::mapping::IndexMapping;
use light_request::storage::IncompleteRequest;
use light_request::storage::Response;
use light_request::tables::DeclTable;
use light_request::tables::OutputTable;

fn h(b: u8) -> Hash256 {
    Hash256::new(vec![b; 32])
}

fn all_scalar_request() -> IncompleteRequest {
    IncompleteRequest {
        block_hash: Field::Scalar(h(1)),
        address_hash: Field::Scalar(h(2)),
        key_hash: Field::Scalar(h(3)),
    }
}

#[test]
fn complete_succeeds_when_all_scalar() {
    let complete = all_scalar_request().complete().unwrap();
    assert_eq!(complete.block_hash, h(1));
    assert_eq!(complete.address_hash, h(2));
    assert_eq!(complete.key_hash, h(3));
}

#[test]
fn complete_fails_with_backreference() {
    let mut req = all_scalar_request();
    req.key_hash = Field::BackReference(0, 0);
    assert_eq!(req.complete(), Err(NoSuchOutput));
}

#[test]
fn into_scalar_unwraps_scalar() {
    assert_eq!(Field::Scalar(7u64).into_scalar(), Ok(7u64));
}

#[test]
fn into_scalar_rejects_backreference() {
    assert_eq!(Field::<u64>::BackReference(3, 1).into_scalar(), Err(NoSuchOutput));
}

#[test]
fn fill_resolves_from_registered_output() {
    let mut table = OutputTable::new();
    table.register_response(vec![Output::Hash(h(7))]);
    let mut req = all_scalar_request();
    req.block_hash = Field::BackReference(0, 0);
    req.fill(&table);
    assert_eq!(req.block_hash, Field::Scalar(h(7)));
    let complete = req.complete().unwrap();
    assert_eq!(complete.block_hash, h(7));
}

#[test]
fn fill_ignores_missing_output() {
    let table = OutputTable::new();
    let mut req = all_scalar_request();
    req.address_hash = Field::BackReference(0, 0);
    req.fill(&table);
    assert_eq!(req.address_hash, Field::BackReference(0, 0));
}

#[test]
fn fill_ignores_wrong_kind() {
    let mut table = OutputTable::new();
    table.register_response(vec![Output::Number(42)]);
    let mut req = all_scalar_request();
    req.key_hash = Field::BackReference(0, 0);
    req.fill(&table);
    assert_eq!(req.key_hash, Field::BackReference(0, 0));
}

#[test]
fn fill_twice_equals_once() {
    let mut table = OutputTable::new();
    table.register_response(vec![Output::Hash(h(9))]);
    let mut once = all_scalar_request();
    once.block_hash = Field::BackReference(0, 0);
    once.address_hash = Field::BackReference(0, 1);
    let mut twice = once.clone();
    once.fill(&table);
    twice.fill(&table);
    twice.fill(&table);
    assert_eq!(once, twice);
}

#[test]
fn fill_only_adds_resolutions() {
    let mut table = OutputTable::new();
    table.register_response(vec![Output::Hash(h(9))]);
    let mut req = all_scalar_request();
    req.address_hash = Field::BackReference(0, 0);
    req.key_hash = Field::BackReference(5, 0);
    req.fill(&table);
    // already-resolved slots stay resolved, one more resolves, one stays open
    assert_eq!(req.block_hash, Field::Scalar(h(1)));
    assert_eq!(req.address_hash, Field::Scalar(h(9)));
    assert_eq!(req.key_hash, Field::BackReference(5, 0));
}

#[test]
fn adjust_refs_identity_leaves_request_unchanged() {
    let mut req = all_scalar_request();
    req.block_hash = Field::BackReference(4, 1);
    let before = req.clone();
    req.adjust_refs(&IndexMapping::identity());
    assert_eq!(req, before);
}

#[test]
fn adjust_refs_rewrites_backreferences_only() {
    let mut req = all_scalar_request();
    req.block_hash = Field::BackReference(1, 0);
    req.key_hash = Field::BackReference(2, 3);
    req.adjust_refs(&IndexMapping::new(vec![2, 0, 1]));
    assert_eq!(req.block_hash, Field::BackReference(0, 0));
    assert_eq!(req.address_hash, Field::Scalar(h(2)));
    assert_eq!(req.key_hash, Field::BackReference(1, 3));
}

#[test]
fn adjust_refs_twice_equals_composition() {
    let m1 = IndexMapping::new(vec![1, 2, 0]);
    let m2 = IndexMapping::new(vec![0, 2]);
    let mut step_by_step = all_scalar_request();
    step_by_step.block_hash = Field::BackReference(0, 0);
    step_by_step.address_hash = Field::BackReference(2, 1);
    let mut composed = step_by_step.clone();
    step_by_step.adjust_refs(&m1);
    step_by_step.adjust_refs(&m2);
    composed.adjust_refs(&m1.compose(&m2));
    assert_eq!(step_by_step, composed);
}

#[test]
fn index_mapping_is_identity_beyond_its_table() {
    let m = IndexMapping::new(vec![5, 6]);
    assert_eq!(m.lookup(0), 5);
    assert_eq!(m.lookup(1), 6);
    assert_eq!(m.lookup(2), 2);
    assert_eq!(m.lookup(100), 100);
}

#[test]
fn check_outputs_accepts_valid_refs() {
    let mut decls = DeclTable::new();
    decls.push_request(vec![OutputKind::Hash]);
    let mut req = all_scalar_request();
    req.block_hash = Field::BackReference(0, 0);
    assert_eq!(req.check_outputs(&decls, 1), Ok(()));
}

#[test]
fn check_outputs_rejects_undeclared_index() {
    // the earlier request declares only output index 0
    let mut decls = DeclTable::new();
    decls.push_request(vec![OutputKind::Hash]);
    let mut req = all_scalar_request();
    req.block_hash = Field::BackReference(0, 1);
    assert_eq!(req.check_outputs(&decls, 1), Err(NoSuchOutput));
}

#[test]
fn check_outputs_rejects_forward_and_self_reference() {
    let mut decls = DeclTable::new();
    decls.push_request(vec![OutputKind::Hash]);
    decls.push_request(vec![OutputKind::Hash]);
    decls.push_request(vec![OutputKind::Hash]);
    let mut req = all_scalar_request();
    req.block_hash = Field::BackReference(1, 0);
    assert_eq!(req.check_outputs(&decls, 1), Err(NoSuchOutput));
    req.block_hash = Field::BackReference(2, 0);
    assert_eq!(req.check_outputs(&decls, 1), Err(NoSuchOutput));
}

#[test]
fn check_outputs_rejects_kind_mismatch() {
    let mut decls = DeclTable::new();
    decls.push_request(vec![OutputKind::Number]);
    let mut req = all_scalar_request();
    req.block_hash = Field::BackReference(0, 0);
    assert_eq!(req.check_outputs(&decls, 1), Err(NoSuchOutput));
}

#[test]
fn check_outputs_accepts_all_scalar_request() {
    let decls = DeclTable::new();
    assert_eq!(all_scalar_request().check_outputs(&decls, 0), Ok(()));
}

#[test]
fn note_outputs_declares_one_hash() {
    assert_eq!(all_scalar_request().note_outputs(), vec![OutputKind::Hash]);
}

#[test]
fn fill_outputs_exposes_storage_value() {
    let resp = Response { proof_nodes: vec![vec![1, 2, 3]], value: h(8) };
    assert_eq!(resp.fill_outputs(), vec![Output::Hash(h(8))]);
}

#[test]
fn output_table_lookup_hits_and_misses() {
    let mut table = OutputTable::new();
    table.register_response(vec![Output::Hash(h(1)), Output::Number(2)]);
    assert_eq!(table.lookup(0, 0), Ok(Output::Hash(h(1))));
    assert_eq!(table.lookup(0, 1), Ok(Output::Number(2)));
    assert_eq!(table.lookup(0, 2), Err(NoSuchOutput));
    assert_eq!(table.lookup(1, 0), Err(NoSuchOutput));
}

#[test]
fn pipelined_batch_resolves_in_order() {
    // request A (all scalar) and request B referencing A's output 0
    let a = all_scalar_request();
    let mut b = IncompleteRequest {
        block_hash: Field::BackReference(0, 0),
        address_hash: Field::Scalar(h(4)),
        key_hash: Field::Scalar(h(5)),
    };

    // validation at batch-construction time
    let mut decls = DeclTable::new();
    decls.push_request(a.note_outputs());
    assert_eq!(b.check_outputs(&decls, 1), Ok(()));

    // B cannot complete before A's response arrives
    assert_eq!(b.clone().complete(), Err(NoSuchOutput));

    // A's response arrives: its outputs are registered, B resolves
    let response_to_a = Response { proof_nodes: vec![vec![0xaa]], value: h(6) };
    let mut table = OutputTable::new();
    table.register_response(response_to_a.fill_outputs());
    b.fill(&table);
    assert_eq!(b.block_hash, Field::Scalar(h(6)));
    let complete = b.complete().unwrap();
    assert_eq!(complete.block_hash, h(6));
}
