use crate::result::SARError;
use ages_prs::ModernPrsDecoder;
use blowfish::cipher::generic_array::GenericArray;
use blowfish::cipher::{BlockDecrypt, KeyInit};
use blowfish::BlowfishLE;
use std::io::{Cursor, Read};
use vstd::prelude::*;

verus! {

/// Length of the signature and format tag that precede the body.
pub const SIGNATURE_SIZE: usize = 4;

/// Length of one cipher block.
pub const BLOCK_SIZE: usize = 8;

/// The byte that a compressed body is masked with.
pub const MASK: u8 = 0x95;

/// The format tag of a compressed file.
pub const TAG_COMPRESSED: u8 = 0x84;

/// The format tag of an uncompressed file.
pub const TAG_PLAIN: u8 = 0x04;

/// The fixed key that every body is encrypted with.
pub open spec fn key() -> Seq<u8> {
    seq![0x09u8, 0x07u8, 0xc1u8, 0x2bu8]
}

/// Whether the body is PRS-compressed under the encryption.
#[derive(Debug, Clone, Copy, PartialEq, Eq, Structural)]
pub enum Compression {
    Uncompressed,
    Compressed,
}

/// What the first four bytes of a file say about it: nothing unless they are
/// `s`, `a`, `r` and one of the two format tags.
pub open spec fn format_of(bytes: Seq<u8>) -> Option<Compression> {
    if bytes.len() < 4 || bytes[0] != 0x73 || bytes[1] != 0x61 || bytes[2] != 0x72 {
        None
    } else if bytes[3] == TAG_COMPRESSED {
        Some(Compression::Compressed)
    } else if bytes[3] == TAG_PLAIN {
        Some(Compression::Uncompressed)
    } else {
        None
    }
}

/// Checks the signature and reads the format tag.
pub fn validate_format(bytes: &[u8]) -> (r: Result<Compression, SARError>)
    ensures
        match r {
            Ok(c) => format_of(bytes@) == Some(c),
            Err(e) => e is InvalidFileHeader && format_of(bytes@) is None,
        },
{
    if bytes.len() < SIGNATURE_SIZE {
        return Err(SARError::InvalidFileHeader);
    }
    if bytes[0] != 0x73 || bytes[1] != 0x61 || bytes[2] != 0x72 {
        return Err(SARError::InvalidFileHeader);
    }
    let tag: u8 = bytes[3];
    if tag == TAG_COMPRESSED {
        Ok(Compression::Compressed)
    } else if tag == TAG_PLAIN {
        Ok(Compression::Uncompressed)
    } else {
        Err(SARError::InvalidFileHeader)
    }
}

/// The eight bytes that little-endian Blowfish under `key` decrypts the
/// eight bytes of `block` to.
pub uninterp spec fn blowfish_le_decrypted(key: Seq<u8>, block: Seq<u8>) -> Seq<u8>;

/// `BlowfishLE::new_from_slice` followed by `BlockDecrypt::decrypt_block`:
/// sets the cipher up with `key`, which it accepts at 4 to 56 bytes, and
/// decrypts one block. The result depends on the key and the block only.
#[verifier::external_body]
fn decrypt_block(key: &[u8], block: &[u8; 8]) -> (out: [u8; 8])
    requires
        4 <= key@.len() <= 56,
    ensures
        out@ == blowfish_le_decrypted(key@, block@),
{
    let cipher = BlowfishLE::new_from_slice(key).unwrap();
    let mut out = *block;
    cipher.decrypt_block(GenericArray::from_mut_slice(&mut out));
    out
}

/// The number of bytes that lie in complete cipher blocks.
pub open spec fn blocks_end(len: nat) -> int {
    8 * (len as int / 8)
}

/// The plaintext of `bytes`: every complete block of eight bytes decrypted
/// with the fixed key, the bytes after the last complete block as they are.
pub open spec fn decrypted(bytes: Seq<u8>) -> Seq<u8> {
    Seq::new(
        bytes.len(),
        |i: int|
            if i < blocks_end(bytes.len()) {
                blowfish_le_decrypted(key(), bytes.subrange(8 * (i / 8), 8 * (i / 8) + 8))[i % 8]
            } else {
                bytes[i]
            },
    )
}

/// Decrypts `bytes` in place, block by block.
pub fn decrypt(bytes: &mut Vec<u8>)
    ensures
        final(bytes)@ == decrypted(old(bytes)@),
{
    let key: [u8; 4] = [0x09, 0x07, 0xc1, 0x2b];
    assert(key@ =~= self::key());
    let len: usize = bytes.len();
    let end: usize = len / BLOCK_SIZE * BLOCK_SIZE;
    let mut i: usize = 0;
    while i < end
        invariant
            key@ == self::key(),
            bytes@.len() == len,
            old(bytes)@.len() == len,
            end == blocks_end(len as nat),
            i <= end,
            i % 8 == 0,
            forall|k: int| 0 <= k < i ==> bytes@[k] == decrypted(old(bytes)@)[k],
            forall|k: int| i <= k < len ==> bytes@[k] == old(bytes)@[k],
        decreases end - i,
    {
        let block: [u8; 8] = [
            bytes[i],
            bytes[i + 1],
            bytes[i + 2],
            bytes[i + 3],
            bytes[i + 4],
            bytes[i + 5],
            bytes[i + 6],
            bytes[i + 7],
        ];
        assert(block@ =~= old(bytes)@.subrange(i as int, i + 8));
        let plain: [u8; 8] = decrypt_block(key.as_slice(), &block);
        let mut j: usize = 0;
        while j < BLOCK_SIZE
            invariant
                bytes@.len() == len,
                old(bytes)@.len() == len,
                end == blocks_end(len as nat),
                i + 8 <= end,
                i % 8 == 0,
                j <= 8,
                plain@ == blowfish_le_decrypted(
                    self::key(),
                    old(bytes)@.subrange(i as int, i + 8),
                ),
                forall|k: int| 0 <= k < i + j ==> bytes@[k] == decrypted(old(bytes)@)[k],
                forall|k: int| i + j <= k < len ==> bytes@[k] == old(bytes)@[k],
            decreases 8 - j,
        {
            assert((i + j) / 8 == i / 8 && (i + j) % 8 == j && 8 * (i / 8) == i) by {
                vstd::arithmetic::div_mod::lemma_fundamental_div_mod_converse(
                    (i + j) as int,
                    8,
                    i as int / 8,
                    j as int,
                );
            }
            bytes.set(i + j, plain[j]);
            j += 1;
        }
        i += BLOCK_SIZE;
    }
    assert(bytes@ =~= decrypted(old(bytes)@));
}

/// `bytes` with every byte XORed with the mask.
pub open spec fn masked(bytes: Seq<u8>) -> Seq<u8> {
    Seq::new(bytes.len(), |i: int| bytes[i] ^ MASK)
}

/// What the PRS stream `bytes` expands to in the variant of Phantasy Star
/// Online 2, or `None` where it is not a valid stream.
pub uninterp spec fn prs_decoded(bytes: Seq<u8>) -> Option<Seq<u8>>;

/// `ages_prs::ModernPrsDecoder` over `bytes`, read to its end: the expanded
/// stream, or the decoder's error for a stream that ends early or copies from
/// before its start. Which of the two, and the expanded bytes, depend on
/// `bytes` only.
#[verifier::external_body]
fn prs_decode(bytes: &[u8]) -> (r: Result<Vec<u8>, std::io::Error>)
    ensures
        match r {
            Ok(out) => prs_decoded(bytes@) == Some(out@),
            Err(_) => prs_decoded(bytes@) is None,
        },
{
    let mut out = Vec::new();
    ModernPrsDecoder::new(Cursor::new(bytes)).read_to_end(&mut out)?;
    Ok(out)
}

/// Removes the mask from `bytes` in place and expands the PRS stream that
/// this leaves.
pub fn decompress(bytes: &mut Vec<u8>) -> (r: Result<Vec<u8>, SARError>)
    ensures
        final(bytes)@ == masked(old(bytes)@),
        match r {
            Ok(out) => prs_decoded(masked(old(bytes)@)) == Some(out@),
            Err(e) => e is IoError && prs_decoded(masked(old(bytes)@)) is None,
        },
{
    let len: usize = bytes.len();
    let mut i: usize = 0;
    while i < len
        invariant
            bytes@.len() == len,
            old(bytes)@.len() == len,
            i <= len,
            forall|k: int| 0 <= k < i ==> bytes@[k] == old(bytes)@[k] ^ MASK,
            forall|k: int| i <= k < len ==> bytes@[k] == old(bytes)@[k],
        decreases len - i,
    {
        let b: u8 = bytes[i];
        bytes.set(i, b ^ MASK);
        i += 1;
    }
    assert(bytes@ =~= masked(old(bytes)@));
    match prs_decode(bytes.as_slice()) {
        Ok(out) => Ok(out),
        Err(e) => Err(SARError::IoError(e)),
    }
}

} // verus!
