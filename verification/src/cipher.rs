//! The MDict keyword-index cipher: when the header's `Encrypted` attribute
//! has bit 0x02 set, the key-block-info section's data (everything after
//! its 8-byte header) is enciphered byte by byte with a key derived from the
//! section's own checksum.

use vstd::prelude::*;
use crate::bytes::{MdxError, MdxFault};
use ripemd::{Digest, Ripemd128};

verus! {

/// The RIPEMD-128 digest of a message.
pub uninterp spec fn ripemd128(msg: Seq<u8>) -> Seq<u8>;

/// `ripemd::Ripemd128::digest`: the 16-byte RIPEMD-128 digest of `msg`. The
/// digest function itself is left to the name `ripemd128`.
#[verifier::external_body]
fn ripemd128_digest(msg: &[u8]) -> (r: Vec<u8>)
    ensures
        r@ == ripemd128(msg@),
        r@.len() == 16,
{
    Ripemd128::digest(msg).to_vec()
}

/// The byte with its high and low nibbles exchanged.
pub open spec fn swap_nibbles(b: u8) -> u8 {
    ((b >> 4u8) | (b << 4u8)) as u8
}

/// The key byte that position `i` uses.
pub open spec fn key_at(key: Seq<u8>, i: int) -> u8 {
    key[i % key.len() as int]
}

/// The low eight bits of the position `i`.
pub open spec fn pos_byte(i: int) -> u8 {
    (i % 256) as u8
}

/// Deciphers `data`: each plain byte is the swapped cipher byte XORed with
/// its position, its key byte and the previous cipher byte (0x36 before the
/// first).
pub open spec fn keyword_decrypt(key: Seq<u8>, data: Seq<u8>) -> Seq<u8> {
    Seq::new(
        data.len(),
        |i: int|
            swap_nibbles(data[i]) ^ pos_byte(i) ^ key_at(key, i) ^ (if i == 0 {
                0x36u8
            } else {
                data[i - 1]
            }),
    )
}

/// Enciphers `plain`, the way an MDict writer does: each cipher byte is the
/// nibble-swapped XOR of the plain byte, its position, its key byte and the
/// previous cipher byte (0x36 before the first).
pub open spec fn keyword_encrypt(key: Seq<u8>, plain: Seq<u8>) -> Seq<u8>
    decreases plain.len(),
{
    if plain.len() == 0 {
        Seq::empty()
    } else {
        let i = plain.len() - 1;
        let front = keyword_encrypt(key, plain.drop_last());
        let prev = if i == 0 {
            0x36u8
        } else {
            front.last()
        };
        front.push(swap_nibbles(plain[i] ^ pos_byte(i) ^ key_at(key, i) ^ prev))
    }
}

proof fn lemma_swap_xor(p: u8, a: u8, b: u8, c: u8)
    ensures
        swap_nibbles(swap_nibbles(p ^ a ^ b ^ c)) ^ a ^ b ^ c == p,
{
    assert(((((p ^ a ^ b ^ c) >> 4u8) | ((p ^ a ^ b ^ c) << 4u8)) >> 4u8 | (((p ^ a ^ b ^ c)
        >> 4u8) | ((p ^ a ^ b ^ c) << 4u8)) << 4u8) ^ a ^ b ^ c == p) by (bit_vector);
}

proof fn lemma_xor_back(s: u8, a: u8, b: u8, c: u8)
    ensures
        (s ^ a ^ b ^ c) ^ a ^ b ^ c == s,
{
    assert((s ^ a ^ b ^ c) ^ a ^ b ^ c == s) by (bit_vector);
}

proof fn lemma_encrypt_len(key: Seq<u8>, plain: Seq<u8>)
    ensures
        keyword_encrypt(key, plain).len() == plain.len(),
    decreases plain.len(),
{
    if plain.len() > 0 {
        lemma_encrypt_len(key, plain.drop_last());
    }
}

/// Deciphering undoes enciphering: for every key and every plain
/// text, decrypting the encryption gives the plain text back.
pub proof fn lemma_decrypt_encrypt(key: Seq<u8>, plain: Seq<u8>)
    ensures
        keyword_decrypt(key, keyword_encrypt(key, plain)) == plain,
    decreases plain.len(),
{
    lemma_encrypt_len(key, plain);
    if plain.len() > 0 {
        let front = plain.drop_last();
        lemma_decrypt_encrypt(key, front);
        lemma_encrypt_len(key, front);
        let c = keyword_encrypt(key, plain);
        let cf = keyword_encrypt(key, front);
        assert(c.drop_last() == cf);
        assert forall|i: int| 0 <= i < plain.len() implies #[trigger] keyword_decrypt(key, c)[i]
            == plain[i] by {
            if i < plain.len() - 1 {
                assert(keyword_decrypt(key, cf)[i] == front[i]);
                assert(c[i] == cf[i]);
                if i > 0 {
                    assert(c[i - 1] == cf[i - 1]);
                }
            } else {
                let prev = if i == 0 {
                    0x36u8
                } else {
                    cf.last()
                };
                if i > 0 {
                    assert(c[i - 1] == cf.last());
                }
                lemma_swap_xor(plain[i], pos_byte(i), key_at(key, i), prev);
            }
        }
        assert(keyword_decrypt(key, c) =~= plain);
    }
}

/// Enciphering undoes deciphering: for every key and every cipher
/// text, encrypting its decryption gives the cipher text back.
pub proof fn lemma_encrypt_decrypt(key: Seq<u8>, cipher: Seq<u8>)
    ensures
        keyword_encrypt(key, keyword_decrypt(key, cipher)) == cipher,
    decreases cipher.len(),
{
    let p = keyword_decrypt(key, cipher);
    lemma_encrypt_len(key, p);
    if cipher.len() > 0 {
        let front = cipher.drop_last();
        lemma_encrypt_decrypt(key, front);
        assert(p.drop_last() =~= keyword_decrypt(key, front));
        let e = keyword_encrypt(key, p);
        let ef = keyword_encrypt(key, p.drop_last());
        assert(ef == front);
        let i = cipher.len() - 1;
        let prev = if i == 0 {
            0x36u8
        } else {
            cipher[i - 1]
        };
        if i > 0 {
            assert(ef.last() == cipher[i - 1]);
        }
        lemma_xor_back(swap_nibbles(cipher[i]), pos_byte(i), key_at(key, i), prev);
        lemma_swap_nibbles_involutive(cipher[i]);
        assert(e =~= cipher);
    }
}

proof fn lemma_swap_nibbles_involutive(x: u8)
    ensures
        swap_nibbles(swap_nibbles(x)) == x,
{
    assert((((x >> 4u8) | (x << 4u8)) >> 4u8 | ((x >> 4u8) | (x << 4u8)) << 4u8) == x) by (
    bit_vector);
}

/// Deciphers `data` from position `start` on, in place, with `key`. With an
/// empty key the data stays as it is.
pub fn mdict_keyword_index_decrypt_in_place(key: &[u8], data: &mut Vec<u8>, start: usize)
    requires
        start <= old(data)@.len(),
    ensures
        key@.len() == 0 ==> final(data)@ == old(data)@,
        key@.len() > 0 ==> final(data)@ == old(data)@.take(start as int) + keyword_decrypt(
            key@,
            old(data)@.skip(start as int),
        ),
{
    if key.len() == 0 {
        return;
    }
    let ghost orig = data@;
    let ghost cipher = orig.skip(start as int);
    let n = data.len();
    let mut previous: u8 = 0x36;
    let mut i: usize = start;
    while i < n
        invariant
            start <= i <= n,
            n == data@.len(),
            orig.len() == n,
            cipher == orig.skip(start as int),
            key@.len() > 0,
            previous == (if i == start {
                0x36u8
            } else {
                orig[i - 1]
            }),
            forall|j: int| 0 <= j < start ==> data@[j] == orig[j],
            forall|j: int| i <= j < n ==> data@[j] == orig[j],
            forall|j: int|
                start <= j < i ==> data@[j] == #[trigger] keyword_decrypt(key@, cipher)[j
                    - start],
        decreases n - i,
    {
        let cipher_byte = data[i];
        let k = i - start;
        let swapped = (cipher_byte >> 4) | (cipher_byte << 4);
        let pb = (k % 256) as u8;
        let plain = swapped ^ pb ^ key[k % key.len()] ^ previous;
        previous = cipher_byte;
        data.set(i, plain);
        proof {
            assert(cipher[k as int] == orig[i as int]);
            if k > 0 {
                assert(cipher[k - 1] == orig[i - 1]);
            }
            assert(plain == keyword_decrypt(key@, cipher)[k as int]);
        }
        i += 1;
    }
    assert(data@ =~= orig.take(start as int) + keyword_decrypt(key@, cipher));
}

/// Deciphers an encrypted key-block-info section: its bytes 0..8 (the
/// compression type and checksum) stay; the rest is deciphered with the
/// RIPEMD-128 digest of the checksum followed by `95 36 00 00`.
pub fn decrypt_key_block_info(data: &[u8]) -> (r: Result<Vec<u8>, MdxError>)
    ensures
        match r {
            Ok(out) => data@.len() >= 8 && out@ == data@.take(8) + keyword_decrypt(
                ripemd128(key_material(data@)),
                data@.skip(8),
            ),
            Err(e) => data@.len() < 8 && e@ == MdxFault::EncryptedInfoTooShort {
                size: data@.len() as usize,
            },
        },
{
    if data.len() < 8 {
        return Err(MdxError::EncryptedInfoTooShort { size: data.len() });
    }
    let mut material: Vec<u8> = Vec::new();
    material.push(data[4]);
    material.push(data[5]);
    material.push(data[6]);
    material.push(data[7]);
    material.push(0x95);
    material.push(0x36);
    material.push(0x00);
    material.push(0x00);
    assert(material@ =~= key_material(data@));
    let key = ripemd128_digest(material.as_slice());
    let mut out: Vec<u8> = Vec::new();
    let mut i: usize = 0;
    while i < data.len()
        invariant
            i <= data@.len(),
            out@ == data@.take(i as int),
        decreases data@.len() - i,
    {
        out.push(data[i]);
        assert(data@.take(i + 1) =~= data@.take(i as int).push(data@[i as int]));
        i += 1;
    }
    assert(data@.take(data@.len() as int) =~= data@);
    mdict_keyword_index_decrypt_in_place(key.as_slice(), &mut out, 8);
    Ok(out)
}

/// The key material of an encrypted section: its checksum (bytes 4..8)
/// followed by `95 36 00 00`.
pub open spec fn key_material(data: Seq<u8>) -> Seq<u8> {
    data.subrange(4, 8) + seq![0x95u8, 0x36u8, 0x00u8, 0x00u8]
}

} // verus!
