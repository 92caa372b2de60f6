//! The XOR cipher applied to every chunk of proxied traffic.
use vstd::prelude::*;

verus! {

/// The number of key bytes that the cipher cycles through.
pub const KEY_LEN: usize = 16;

/// What `xor_inplace_simd` leaves in `data`: byte `i` XOR-ed with key byte `i % 16`.
pub open spec fn xor_with_key(data: Seq<u8>, key: Seq<u8>) -> Seq<u8> {
    Seq::new(data.len(), |i: int| data[i] ^ key[i % (KEY_LEN as int)])
}

/// XORs `data` in place with `key`, whose first 16 bytes are used cyclically.
pub fn xor_inplace_simd(data: &mut [u8], key: &[u8])
    requires
        key@.len() >= KEY_LEN,
    ensures
        final(data)@ == xor_with_key(old(data)@, key@),
        final(data)@.len() == old(data)@.len(),
        forall|i: int| 0 <= i < old(data)@.len() ==> #[trigger] final(data)@[i] == old(data)@[i] ^ key@[i % 16],
{
    let n = data.len();
    let mut i: usize = 0;
    while i < n
        invariant
            n == data@.len(),
            n == old(data)@.len(),
            key@.len() >= KEY_LEN,
            i <= n,
            forall|j: int| 0 <= j < i ==> data@[j] == old(data)@[j] ^ key@[j % (KEY_LEN as int)],
            forall|j: int| i <= j < n ==> data@[j] == old(data)@[j],
        decreases n - i,
    {
        let k = key[i % KEY_LEN];
        let b = data[i];
        data[i] = b ^ k;
        i = i + 1;
    }
    assert(data@ =~= xor_with_key(old(data)@, key@));
}

/// XOR-ing twice with the same key gives back the original bytes, which is
/// how the server recovers what the client enciphered.
pub proof fn lemma_xor_twice_restores(data: Seq<u8>, key: Seq<u8>)
    requires
        key.len() >= KEY_LEN,
    ensures
        xor_with_key(xor_with_key(data, key), key) == data,
{
    assert forall|i: int| 0 <= i < data.len() implies #[trigger] xor_with_key(
        xor_with_key(data, key),
        key,
    )[i] == data[i] by {
        let a = data[i];
        let k = key[i % (KEY_LEN as int)];
        assert((a ^ k) ^ k == a) by (bit_vector);
    }
    assert(xor_with_key(xor_with_key(data, key), key) =~= data);
}

/// Every byte of the data is XOR-ed with the key byte at its position
/// modulo 16, wherever it stands in the data: the result has the data's
/// length, and byte `i` is `data[i] ^ key[i % 16]`.
pub proof fn lemma_xor_with_key_pointwise(data: Seq<u8>, key: Seq<u8>)
    requires
        key.len() >= KEY_LEN,
    ensures
        xor_with_key(data, key).len() == data.len(),
        forall|i: int| 0 <= i < data.len() ==> #[trigger] xor_with_key(data, key)[i] == data[i] ^ key[i % 16],
{
}

/// A byte changes under the cipher exactly when its key byte is not zero.
pub proof fn lemma_xor_changes_byte_iff_key_nonzero(data: Seq<u8>, key: Seq<u8>, i: int)
    requires
        key.len() >= KEY_LEN,
        0 <= i < data.len(),
    ensures
        (xor_with_key(data, key)[i] != data[i]) <==> key[i % 16] != 0,
{
    let a = data[i];
    let k = key[i % 16];
    assert((a ^ k != a) <==> k != 0) by (bit_vector);
}

} // verus!
