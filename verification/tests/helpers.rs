use shade_storage::{
    encode_length, may_deserialize, must_deserialize, namespaces_with_key,
    nested_namespaces_with_key, Borsh, Serde, StoreError,
};

#[test]
fn encode_length_works() {
    assert_eq!(encode_length(b""), *b"\x00\x00");
    assert_eq!(encode_length(b"a"), *b"\x00\x01");
    assert_eq!(encode_length(b"aa"), *b"\x00\x02");
    assert_eq!(encode_length(b"aaa"), *b"\x00\x03");
    assert_eq!(encode_length(&vec![1; 255]), *b"\x00\xff");
    assert_eq!(encode_length(&vec![1; 256]), *b"\x01\x00");
    assert_eq!(encode_length(&vec![1; 12345]), *b"\x30\x39");
    assert_eq!(encode_length(&vec![1; 65535]), *b"\xff\xff");
}

#[test]
fn may_deserialize_handles_some() {
    let age: i32 = 42;
    let value = <Borsh as Serde<i32>>::serialize(&age).unwrap();

    let may_parse: Option<i32> = may_deserialize::<i32>(&Some(value)).unwrap();
    assert_eq!(may_parse, Some(age));
}

#[test]
fn may_deserialize_handles_none() {
    let may_parse = may_deserialize::<i32>(&None).unwrap();
    assert_eq!(may_parse, None);
}

#[test]
fn must_deserialize_handles_some() {
    let age: i32 = 42;
    let value = <Borsh as Serde<i32>>::serialize(&age).unwrap();
    let loaded = Some(value);

    let parsed: i32 = must_deserialize::<i32>(&loaded).unwrap();
    assert_eq!(parsed, age);
}

#[test]
fn must_deserialize_handles_none() {
    let parsed = must_deserialize::<i32>(&None);
    match parsed.unwrap_err() {
        StoreError::NotFound { kind, .. } => {
            assert_eq!(kind, "i32")
        }
        e => panic!("Unexpected error {:?}", e),
    }
}

#[test]
fn may_deserialize_rejects_bytes_of_the_wrong_length() {
    let short = Some(vec![1u8, 2, 3]);
    assert!(matches!(
        may_deserialize::<i32>(&short),
        Err(StoreError::Codec { .. })
    ));
    assert!(matches!(
        must_deserialize::<u32>(&short),
        Err(StoreError::Codec { .. })
    ));
}

#[test]
fn namespaces_with_key_prefixes_each_namespace() {
    let key = namespaces_with_key(&[b"people", b"ab"], b"john");
    assert_eq!(key, b"\x00\x06people\x00\x02abjohn".to_vec());
    assert_eq!(namespaces_with_key(&[], b"john"), b"john".to_vec());
}

#[test]
fn nested_namespaces_with_key_joins_both_groups() {
    let key = nested_namespaces_with_key(&[b"allow"], &[b"john"], b"maria");
    assert_eq!(key, b"\x00\x05allow\x00\x04johnmaria".to_vec());
    assert_eq!(
        nested_namespaces_with_key(&[b"allow", b"john"], &[], b"maria"),
        namespaces_with_key(&[b"allow", b"john"], b"maria")
    );
}
