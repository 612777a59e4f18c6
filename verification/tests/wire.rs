use light_request::codec::decode_request;
use light_request::codec::decode_response;
use light_request::codec::encode_request;
use light_request::codec::encode_response;
use light_request::field::Hash256;
use light_request::storage::CompleteRequest;
use light_request::storage::Response;

fn h(b: u8) -> Hash256 {
    Hash256::new(vec![b; 32])
}

#[test]
fn request_round_trip() {
    let req = CompleteRequest { block_hash: h(1), address_hash: h(2), key_hash: h(3) };
    let wire = encode_request(&req);
    assert_eq!(decode_request(&wire), Some(req));
}

#[test]
fn request_wire_layout_is_the_fixed_triple() {
    let req = CompleteRequest { block_hash: h(1), address_hash: h(2), key_hash: h(3) };
    let wire = encode_request(&req);
    let mut expected = vec![1u8; 32];
    expected.extend(vec![2u8; 32]);
    expected.extend(vec![3u8; 32]);
    assert_eq!(wire, expected);
}

#[test]
fn decode_request_rejects_wrong_length() {
    assert_eq!(decode_request(&vec![]), None);
    assert_eq!(decode_request(&vec![0u8; 95]), None);
    assert_eq!(decode_request(&vec![0u8; 97]), None);
}

#[test]
fn response_round_trip() {
    let resp = Response {
        proof_nodes: vec![vec![], vec![1, 2, 3], vec![0xff; 10]],
        value: h(9),
    };
    let wire = encode_response(&resp);
    assert_eq!(decode_response(&wire), Some(resp));
}

#[test]
fn response_round_trip_with_empty_proof() {
    let resp = Response { proof_nodes: vec![], value: h(0) };
    let wire = encode_response(&resp);
    assert_eq!(wire.len(), 8 + 32);
    assert_eq!(decode_response(&wire), Some(resp));
}

#[test]
fn response_wire_layout_is_count_lengths_and_value() {
    let resp = Response { proof_nodes: vec![vec![0xab, 0xcd]], value: h(7) };
    let wire = encode_response(&resp);
    let mut expected = vec![0u8, 0, 0, 0, 0, 0, 0, 1]; // one proof node
    expected.extend(vec![0u8, 0, 0, 0, 0, 0, 0, 2]); // of two bytes
    expected.extend(vec![0xab, 0xcd]);
    expected.extend(vec![7u8; 32]); // the fixed-size value
    assert_eq!(wire, expected);
}

#[test]
fn decode_response_rejects_truncated_data() {
    let resp = Response { proof_nodes: vec![vec![1, 2, 3]], value: h(9) };
    let mut wire = encode_response(&resp);
    wire.pop();
    assert_eq!(decode_response(&wire), None);
    assert_eq!(decode_response(&vec![0u8; 7]), None);
}

#[test]
fn decode_response_rejects_overstated_count() {
    // claims one proof node but holds none
    let mut wire = vec![0u8, 0, 0, 0, 0, 0, 0, 1];
    wire.extend(vec![0u8; 32]);
    assert_eq!(decode_response(&wire), None);
}

#[test]
fn decode_response_rejects_misaligned_value() {
    // a valid empty proof path followed by a value of the wrong size
    let mut wire = vec![0u8; 8];
    wire.extend(vec![0u8; 31]);
    assert_eq!(decode_response(&wire), None);
}
