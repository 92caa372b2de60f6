use cloudtun::encode::xor_inplace_simd;

#[test]
fn test_xor_inplace_simd() {
    let key: [u8; 16] = *b"0123456789ABCDEF";
    let mut data = b"Hello, world! This is a test of XOR SIMD.".to_vec();
    let mut expected = data.clone();
    for (i, b) in expected.iter_mut().enumerate() {
        *b ^= key[i % 16];
    }

    xor_inplace_simd(&mut data, &key);
    assert_eq!(data, expected);

    xor_inplace_simd(&mut data, &key);
    assert_eq!(data, b"Hello, world! This is a test of XOR SIMD.");
}

#[test]
fn xor_uses_only_first_sixteen_key_bytes() {
    let key: Vec<u8> = (0u8..20).collect();
    let mut data = vec![0u8; 18];
    xor_inplace_simd(&mut data, &key);
    let expected: Vec<u8> = (0..18).map(|i| (i % 16) as u8).collect();
    assert_eq!(data, expected);
}

#[test]
fn xor_of_empty_data_is_empty() {
    let key = [7u8; 16];
    let mut data: Vec<u8> = Vec::new();
    xor_inplace_simd(&mut data, &key);
    assert!(data.is_empty());
}

#[test]
fn xor_twice_restores_chunk() {
    let key = *b"abcdefghijklmnop";
    let original: Vec<u8> = (0u8..=255).collect();
    let mut data = original.clone();
    xor_inplace_simd(&mut data, &key);
    assert_ne!(data, original);
    xor_inplace_simd(&mut data, &key);
    assert_eq!(data, original);
}
