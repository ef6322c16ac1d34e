//! Authenticated, compressed record payloads.
//!
//! A queue record is `EV1 | nonce | AES-256-GCM(zstd(plaintext))`, sealed
//! with the device identifier as associated data so that ciphertexts cannot
//! be transplanted across devices.
use vstd::prelude::*;
use vstd::slice::slice_index_get;
use vstd::slice::slice_subrange;
use vstd::slice::slice_to_vec;
use aes_gcm::aead::Aead;
use aes_gcm::aead::KeyInit;
use aes_gcm::aead::Payload;
use aes_gcm::Aes256Gcm;
use aes_gcm::Nonce;
use rand::RngCore;

verus! {

/// Byte length of the AES-256 key.
pub const KEY_LEN: usize = 32;

/// Byte length of the GCM nonce.
pub const NONCE_LEN: usize = 12;

/// Byte length of the GCM authentication tag.
pub const TAG_LEN: usize = 16;

/// The zstd compression level applied before sealing.
pub const ZSTD_LEVEL: i32 = 3;

/// What AES-256-GCM sealing returns for a key, nonce, associated data and
/// message: the ciphertext with the 16-byte tag appended.
pub uninterp spec fn gcm_seal(key: Seq<u8>, nonce: Seq<u8>, aad: Seq<u8>, msg: Seq<u8>) -> Seq<u8>;

/// What AES-256-GCM opening returns for a key, nonce, associated data and
/// ciphertext: the plaintext exactly when the tag verifies.
pub uninterp spec fn gcm_open(key: Seq<u8>, nonce: Seq<u8>, aad: Seq<u8>, ct: Seq<u8>) -> Option<
    Seq<u8>,
>;

/// What zstd compression returns for the data at a level.
pub uninterp spec fn zstd_frame(data: Seq<u8>, level: i32) -> Seq<u8>;

/// Whether zstd compression succeeds on the data at a level — like the
/// frame itself, a function of the two alone.
pub uninterp spec fn zstd_ok(data: Seq<u8>, level: i32) -> bool;

/// What zstd decompression returns: the held data for a well-formed frame.
pub uninterp spec fn zstd_unframe(frame: Seq<u8>) -> Option<Seq<u8>>;

/// Relies on rand's `thread_rng().fill_bytes`: cryptographically random
/// bytes; nothing is assumed of their values.
#[verifier::external_body]
pub fn random_bytes(n: usize) -> (r: Vec<u8>)
    ensures
        r@.len() == n,
{
    let mut v = vec![0u8; n];
    rand::thread_rng().fill_bytes(&mut v);
    v
}

/// Relies on `aes_gcm::Aes256Gcm::encrypt` (through the `Aead` trait): the
/// sealed bytes are ciphertext plus a 16-byte tag, and opening them with
/// the same key, nonce and associated data yields the message back. The
/// length bounds keep the inputs far below the limits at which the crate
/// refuses to seal.
#[verifier::external_body]
fn gcm_encrypt(key: &Vec<u8>, nonce: &Vec<u8>, aad: &Vec<u8>, msg: &Vec<u8>) -> (r: Vec<u8>)
    requires
        key@.len() == KEY_LEN,
        nonce@.len() == NONCE_LEN,
        msg@.len() <= 0xffff_ffff,
        aad@.len() <= 0xffff_ffff,
    ensures
        r@ == gcm_seal(key@, nonce@, aad@, msg@),
        r@.len() == msg@.len() + TAG_LEN,
        gcm_open(key@, nonce@, aad@, r@) == Some(msg@),
{
    let cipher = Aes256Gcm::new_from_slice(key).expect("key length is checked by the caller");
    let payload = Payload { msg: msg.as_slice(), aad: aad.as_slice() };
    cipher.encrypt(Nonce::from_slice(nonce), payload).expect("input length is bounded")
}

/// Relies on `aes_gcm::Aes256Gcm::decrypt`: the plaintext when the appended
/// tag verifies under the key, nonce and associated data, and a failure
/// otherwise.
#[verifier::external_body]
fn gcm_decrypt(key: &Vec<u8>, nonce: &Vec<u8>, aad: &Vec<u8>, ct: &[u8]) -> (r: Option<Vec<u8>>)
    requires
        key@.len() == KEY_LEN,
        nonce@.len() == NONCE_LEN,
    ensures
        r matches Some(pt) ==> gcm_open(key@, nonce@, aad@, ct@) == Some(pt@),
        r is None ==> gcm_open(key@, nonce@, aad@, ct@) is None,
{
    let cipher = Aes256Gcm::new_from_slice(key).expect("key length is checked by the caller");
    let payload = Payload { msg: ct, aad: aad.as_slice() };
    cipher.decrypt(Nonce::from_slice(nonce), payload).ok()
}

/// Relies on `zstd::encode_all`: a single zstd frame holding the data;
/// decoding that frame yields the data back, compression being lossless.
/// Whether the in-memory encode succeeds is itself a function of the data
/// and level alone (the slice reader and vector writer have no failure of
/// their own).
#[verifier::external_body]
fn zstd_compress(data: &Vec<u8>, level: i32) -> (r: Option<Vec<u8>>)
    ensures
        (r is Some) <==> zstd_ok(data@, level),
        r matches Some(f) ==> f@ == zstd_frame(data@, level) && zstd_unframe(f@) == Some(data@),
{
    zstd::encode_all(data.as_slice(), level).ok()
}

/// Relies on `zstd::decode_all`: the data held by a well-formed zstd frame,
/// and a failure on anything else.
#[verifier::external_body]
fn zstd_decompress(frame: &[u8]) -> (r: Option<Vec<u8>>)
    ensures
        r matches Some(d) ==> zstd_unframe(frame@) == Some(d@),
        r is None ==> zstd_unframe(frame@) is None,
{
    zstd::decode_all(frame).ok()
}

/// The three magic bytes `EV1` that open every record payload.
pub open spec fn magic() -> Seq<u8> {
    seq![0x45u8, 0x56u8, 0x31u8]
}

/// The full payload of one record for a given nonce: magic, nonce, then
/// the sealed compressed plaintext.
pub open spec fn record_bytes(key: Seq<u8>, nonce: Seq<u8>, aad: Seq<u8>, pt: Seq<u8>) -> Seq<u8> {
    magic() + nonce + gcm_seal(key, nonce, aad, zstd_frame(pt, ZSTD_LEVEL))
}

/// A record payload is shaped like one if it is long enough to hold the
/// magic, the nonce and a tag, and opens with the magic bytes.
pub open spec fn record_shaped(blob: Seq<u8>) -> bool {
    blob.len() >= 31 && blob.subrange(0, 3) == magic()
}

/// What opening a record payload yields: the plaintext exactly when the
/// shape, the authentication tag and the compression frame all check out.
pub open spec fn open_record(key: Seq<u8>, aad: Seq<u8>, blob: Seq<u8>) -> Option<Seq<u8>> {
    if record_shaped(blob) {
        match gcm_open(key, blob.subrange(3, 15), aad, blob.skip(15)) {
            Some(frame) => zstd_unframe(frame),
            None => None,
        }
    } else {
        None
    }
}

/// Why sealing or opening a record failed.
#[derive(Clone, Copy, Debug, PartialEq, Eq, Structural)]
pub enum CryptoError {
    /// The payload is too short or does not begin with the magic bytes.
    BadFormat,
    /// The authentication tag did not verify under the key and device.
    AuthFailed,
    /// The compression frame inside an authenticated payload is broken.
    Decompress,
    /// Compression failed or produced an oversized frame.
    Compress,
}

/// Seals one plaintext into a fresh record payload: compress, draw a fresh
/// nonce, seal under the device-bound associated data, and frame. Whatever
/// nonce was drawn, opening the payload yields the plaintext back, and
/// sealing fails exactly when compression does or yields an oversized
/// frame.
pub fn encrypt_compress(key: &Vec<u8>, aad: &Vec<u8>, plaintext: &Vec<u8>) -> (r: Result<
    Vec<u8>,
    CryptoError,
>)
    requires
        key@.len() == KEY_LEN,
        aad@.len() <= 0xffff_ffff,
    ensures
        r matches Ok(blob) ==> open_record(key@, aad@, blob@) == Some(plaintext@),
        r matches Ok(blob) ==> exists|nonce: Seq<u8>|
            nonce.len() == 12 && blob@ == record_bytes(key@, nonce, aad@, plaintext@),
        (r is Err) <==> (!zstd_ok(plaintext@, ZSTD_LEVEL) || zstd_frame(
            plaintext@,
            ZSTD_LEVEL,
        ).len() > 0xffff_ffff),
        r matches Err(e) ==> e == CryptoError::Compress,
{
    let compressed = match zstd_compress(plaintext, ZSTD_LEVEL) {
        Some(c) => c,
        None => {
            return Err(CryptoError::Compress);
        },
    };
    if compressed.len() > 0xffff_ffffusize {
        return Err(CryptoError::Compress);
    }
    let nonce = random_bytes(NONCE_LEN);
    let sealed = gcm_encrypt(key, &nonce, aad, &compressed);
    let mut out: Vec<u8> = Vec::new();
    out.push(0x45u8);
    out.push(0x56u8);
    out.push(0x31u8);
    let mut nonce_part = nonce;
    let ghost nonce_view = nonce_part@;
    let mut sealed_part = sealed;
    let ghost sealed_view = sealed_part@;
    out.append(&mut nonce_part);
    out.append(&mut sealed_part);
    proof {
        assert(out@ =~= magic() + nonce_view + sealed_view);
        assert(out@ == record_bytes(key@, nonce_view, aad@, plaintext@));
        assert(out@.subrange(0, 3) =~= magic());
        assert(out@.subrange(3, 15) =~= nonce_view);
        assert(out@.skip(15) =~= sealed_view);
        assert(record_shaped(out@));
        assert(open_record(key@, aad@, out@) == Some(plaintext@));
    }
    Ok(out)
}

/// Opens one record payload: checks the magic framing, verifies the tag
/// under the device-bound associated data, and decompresses. Each failure
/// names the first check that refused the payload, and nothing else is
/// ever returned.
pub fn decrypt_decompress(key: &Vec<u8>, aad: &Vec<u8>, blob: &[u8]) -> (r: Result<
    Vec<u8>,
    CryptoError,
>)
    requires
        key@.len() == KEY_LEN,
    ensures
        r matches Ok(pt) ==> open_record(key@, aad@, blob@) == Some(pt@),
        r is Err ==> open_record(key@, aad@, blob@) is None,
        r == Err::<Vec<u8>, CryptoError>(CryptoError::BadFormat) <==> !record_shaped(blob@),
        r == Err::<Vec<u8>, CryptoError>(CryptoError::AuthFailed) <==> (record_shaped(blob@)
            && gcm_open(key@, blob@.subrange(3, 15), aad@, blob@.skip(15)) is None),
{
    if blob.len() < 31 {
        return Err(CryptoError::BadFormat);
    }
    let m0: u8 = *slice_index_get(blob, 0);
    let m1: u8 = *slice_index_get(blob, 1);
    let m2: u8 = *slice_index_get(blob, 2);
    proof {
        assert(blob@.subrange(0, 3)[0] == blob@[0]);
        assert(blob@.subrange(0, 3)[1] == blob@[1]);
        assert(blob@.subrange(0, 3)[2] == blob@[2]);
    }
    if !(m0 == 0x45u8 && m1 == 0x56u8 && m2 == 0x31u8) {
        proof {
            assert(blob@.subrange(0, 3) != magic());
        }
        return Err(CryptoError::BadFormat);
    }
    proof {
        assert(blob@.subrange(0, 3) =~= magic());
    }
    let nonce_slice = slice_subrange(blob, 3, 15);
    let nonce = slice_to_vec(nonce_slice);
    let ct = slice_subrange(blob, 15, blob.len());
    match gcm_decrypt(key, &nonce, aad, ct) {
        Some(frame) => match zstd_decompress(frame.as_slice()) {
            Some(pt) => {
                proof {
                    assert(open_record(key@, aad@, blob@) == Some(pt@));
                }
                Ok(pt)
            },
            None => Err(CryptoError::Decompress),
        },
        None => Err(CryptoError::AuthFailed),
    }
}

} // verus!
