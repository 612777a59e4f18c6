use light_request::batch::Batch;
use light_request::field::Field;
use light_request::field::Hash256;
use light_request::field::NoSuchOutput;
use light_request::field::Output;
use light_request::mapping::IndexMapping;
use light_request::storage::IncompleteRequest;

fn h(b: u8) -> Hash256 {
    Hash256::new(vec![b; 32])
}

fn scalar_request(b: u8) -> IncompleteRequest {
    IncompleteRequest {
        block_hash: Field::Scalar(h(b)),
        address_hash: Field::Scalar(h(b)),
        key_hash: Field::Scalar(h(b)),
    }
}

#[test]
fn batch_accepts_backreference_to_earlier_entry() {
    let mut batch = Batch::new();
    assert_eq!(batch.push_request(scalar_request(1)), Ok(()));
    let mut later = scalar_request(2);
    later.block_hash = Field::BackReference(0, 0);
    assert_eq!(batch.push_request(later), Ok(()));
    assert_eq!(batch.len(), 2);
}

#[test]
fn batch_rejects_reference_to_undeclared_output() {
    let mut batch = Batch::new();
    assert_eq!(batch.push_request(scalar_request(1)), Ok(()));
    let mut later = scalar_request(2);
    later.block_hash = Field::BackReference(0, 1);
    assert_eq!(batch.push_request(later), Err(NoSuchOutput));
    assert_eq!(batch.len(), 1);
}

#[test]
fn batch_rejects_forward_reference() {
    let mut batch = Batch::new();
    let mut first = scalar_request(1);
    first.key_hash = Field::BackReference(0, 0);
    assert_eq!(batch.push_request(first), Err(NoSuchOutput));
    assert_eq!(batch.len(), 0);
}

#[test]
fn batch_resolves_and_completes_in_order() {
    let mut batch = Batch::new();
    batch.push_request(scalar_request(1)).unwrap();
    let mut later = scalar_request(2);
    later.block_hash = Field::BackReference(0, 0);
    batch.push_request(later).unwrap();

    // not yet resolved: completion is refused
    assert_eq!(batch.complete_all(), Err(NoSuchOutput));

    // the first response arrives and exposes its storage value
    batch.register_response(vec![Output::Hash(h(9))]);
    batch.fill_all();

    let complete = batch.complete_all().unwrap();
    assert_eq!(complete.len(), 2);
    assert_eq!(complete[0].block_hash, h(1));
    assert_eq!(complete[1].block_hash, h(9));
    assert_eq!(complete[1].address_hash, h(2));
}

#[test]
fn batch_adjust_all_renumbers_every_entry() {
    let mut batch = Batch::new();
    batch.push_request(scalar_request(1)).unwrap();
    let mut later = scalar_request(2);
    later.block_hash = Field::BackReference(0, 0);
    batch.push_request(later).unwrap();

    // as if two cached entries had been pruned before this batch
    batch.adjust_all(&IndexMapping::new(vec![5, 6]));
    batch.register_response(vec![Output::Hash(h(9))]);
    batch.fill_all();

    // the reference now points at entry 5, which has no registered output
    assert_eq!(batch.complete_all(), Err(NoSuchOutput));
}
