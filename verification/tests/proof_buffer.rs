use expander_rs::{FieldSerde, Fr, M31Ext3, Msn61, Proof, M31};

#[test]
fn append_takes_a_prefix() {
    let mut proof = Proof::default();
    assert_eq!(proof.position(), 0);
    proof.append_u8_slice(&[1, 2, 3, 4, 5], 3);
    assert_eq!(proof.bytes, vec![1, 2, 3]);
    proof.append_u8_slice(&[9], 0);
    proof.append_u8_slice(&[7, 8], 2);
    assert_eq!(proof.bytes, vec![1, 2, 3, 7, 8]);
    assert_eq!(proof.position(), 0);
}

#[test]
fn step_moves_the_cursor() {
    let mut proof = Proof::from_bytes(vec![0, 1, 2, 3, 4, 5, 6, 7, 8, 9]);
    proof.step(4);
    assert_eq!(proof.position(), 4);
    assert_eq!(proof.get_next_slice(3), Some(vec![4, 5, 6]));
    assert_eq!(proof.position(), 7);
    proof.step(0);
    assert_eq!(proof.position(), 7);
}

#[test]
fn elements_are_read_in_order() {
    let mut proof = Proof::default();
    let mut bytes = Vec::new();
    Msn61 { v: 11 }.serialize_into(&mut bytes);
    M31 { v: 12 }.serialize_into(&mut bytes);
    Msn61 { v: 13 }.serialize_into(&mut bytes);
    let len = bytes.len();
    proof.append_u8_slice(&bytes, len);
    assert_eq!(proof.get_next_and_step::<Msn61>(), Some(Msn61 { v: 11 }));
    assert_eq!(proof.position(), 8);
    assert_eq!(proof.get_next_and_step::<M31>(), Some(M31 { v: 12 }));
    assert_eq!(proof.position(), 12);
    assert_eq!(proof.get_next_and_step::<Msn61>(), Some(Msn61 { v: 13 }));
    assert_eq!(proof.position(), 20);
    // exhausted
    assert_eq!(proof.get_next_and_step::<M31>(), None);
    assert_eq!(proof.position(), 20);
}

#[test]
fn underflow_is_detected_and_leaves_the_cursor() {
    let mut proof = Proof::from_bytes(vec![1, 0, 0]);
    assert_eq!(proof.get_next_and_step::<M31>(), None);
    assert_eq!(proof.get_next_hash(), None);
    assert_eq!(proof.get_next_slice(4), None);
    assert_eq!(proof.position(), 0);
    assert_eq!(proof.get_next_slice(3), Some(vec![1, 0, 0]));
    assert_eq!(proof.get_next_slice(0), Some(vec![]));
    assert_eq!(proof.get_next_slice(1), None);
    // a cursor beyond the end
    proof.step(5);
    assert_eq!(proof.get_next_and_step::<M31>(), None);
    assert_eq!(proof.get_next_hash(), None);
    assert_eq!(proof.get_next_slice(1), None);
    assert_eq!(proof.get_next_slice(0), Some(vec![]));
    assert_eq!(proof.position(), 8);
}

#[test]
fn encodings_out_of_range_are_refused() {
    let mut proof = Proof::from_bytes(vec![0xff, 0xff, 0xff, 0x7f, 5, 0, 0, 0]);
    assert_eq!(proof.get_next_and_step::<M31>(), None);
    assert_eq!(proof.position(), 0);
    proof.step(4);
    assert_eq!(proof.get_next_and_step::<M31>(), Some(M31 { v: 5 }));
    let mut wide = Proof::from_bytes(vec![0xff; 32]);
    assert_eq!(wide.get_next_and_step::<Fr>(), None);
    assert!(wide.get_next_and_step::<M31Ext3>().is_none());
    assert_eq!(wide.position(), 0);
}

#[test]
fn hashes_are_thirty_two_bytes() {
    let bytes: Vec<u8> = (0..40).collect();
    let mut proof = Proof::from_bytes(bytes.clone());
    proof.step(3);
    let hash = proof.get_next_hash().unwrap();
    assert_eq!(hash.to_vec(), bytes[3..35].to_vec());
    assert_eq!(proof.position(), 35);
    assert_eq!(proof.get_next_hash(), None);
    assert_eq!(proof.position(), 35);
}
