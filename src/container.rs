//! The container layout and its decoder.
//!
//! A container is, in order: one byte `ext_len`, `ext_len` bytes of extension
//! text, one byte `masked_len`, `masked_len` masked bytes, then a tail that is
//! kept as it is.

use vstd::prelude::*;
use vstd::utf8::{
    decode_utf8, encode_utf8, encode_utf8_decode_utf8, encode_utf8_valid_utf8, valid_utf8,
};

use crate::error::DecodeError;
use crate::mask::{
    initial_mask, is_ascii_seq, lemma_mask_seq_index, lemma_unmask_mask, mask_seq, name_mask,
    unmask_in_place, unmask_seq,
};

verus! {

/// What a successful decode gives: the recovered extension, the unmasked
/// payload, and the offset at which the untouched tail starts.
pub struct Decoded {
    pub extension: String,
    pub payload: Vec<u8>,
    pub tail_start: usize,
}

/// The mathematical content of a [`Decoded`].
pub ghost struct DecodedView {
    pub extension: Seq<char>,
    pub payload: Seq<u8>,
    pub tail_start: int,
}

impl View for Decoded {
    type V = DecodedView;

    open spec fn view(&self) -> DecodedView {
        DecodedView {
            extension: self.extension@,
            payload: self.payload@,
            tail_start: self.tail_start as int,
        }
    }
}

/// The length byte and the extension bytes it declares are all present.
pub open spec fn ext_present(data: Seq<u8>) -> bool {
    data.len() >= 1 && data.len() >= 1 + data[0]
}

/// The extension bytes.
pub open spec fn ext_bytes(data: Seq<u8>) -> Seq<u8> {
    data.subrange(1, 1 + data[0])
}

/// Where the masked region starts.
pub open spec fn masked_start(data: Seq<u8>) -> int {
    2 + data[0]
}

/// Where the tail starts: just past the masked region.
pub open spec fn tail_start(data: Seq<u8>) -> int {
    masked_start(data) + data[1 + data[0]]
}

/// Both length bytes and all the bytes that they declare are present.
pub open spec fn header_complete(data: Seq<u8>) -> bool {
    &&& ext_present(data)
    &&& data.len() >= masked_start(data)
    &&& data.len() >= tail_start(data)
}

/// The masked region.
pub open spec fn masked_bytes(data: Seq<u8>) -> Seq<u8> {
    data.subrange(masked_start(data), tail_start(data))
}

/// The outcome of decoding `data` under initial mask `m`. A short extension is
/// found before the extension text is read, and that text is checked before
/// the masked length is read.
pub open spec fn decode_outcome(data: Seq<u8>, m: u32) -> Result<DecodedView, DecodeError> {
    if !ext_present(data) {
        Err(DecodeError::Truncated)
    } else if !valid_utf8(ext_bytes(data)) {
        Err(DecodeError::InvalidExtension)
    } else if !header_complete(data) {
        Err(DecodeError::Truncated)
    } else {
        Ok(
            DecodedView {
                extension: decode_utf8(ext_bytes(data)),
                payload: unmask_seq(masked_bytes(data), m),
                tail_start: tail_start(data),
            },
        )
    }
}

/// The outcome of decoding the container `data` of a file with base name
/// `name`: the name is checked before any byte of the container is read.
pub open spec fn decode_file_outcome(name: Seq<u8>, data: Seq<u8>) -> Result<DecodedView, DecodeError> {
    if !is_ascii_seq(name) {
        Err(DecodeError::InvalidName)
    } else {
        decode_outcome(data, name_mask(name))
    }
}

/// The container that holds extension bytes `ext`, masked region `masked` and
/// tail `tail`.
pub open spec fn container_bytes(ext: Seq<u8>, masked: Seq<u8>, tail: Seq<u8>) -> Seq<u8> {
    seq![ext.len() as u8] + ext + seq![masked.len() as u8] + masked + tail
}

/// Round trip: a container built from any extension text, a payload of at
/// most 255 bytes masked under the mask of an ASCII base name, and any tail,
/// decodes under that name to the same extension, the same payload, and a
/// tail offset past which the same tail stands.
pub proof fn lemma_round_trip(name: Seq<u8>, ext: Seq<char>, plain: Seq<u8>, tail: Seq<u8>)
    requires
        is_ascii_seq(name),
        encode_utf8(ext).len() <= 255,
        plain.len() <= 255,
    ensures
        ({
            let data = container_bytes(encode_utf8(ext), mask_seq(plain, name_mask(name)), tail);
            &&& decode_file_outcome(name, data) == Ok::<DecodedView, DecodeError>(
                DecodedView {
                    extension: ext,
                    payload: plain,
                    tail_start: data.len() - tail.len(),
                },
            )
            &&& data.subrange(data.len() - tail.len(), data.len() as int) == tail
        }),
{
    let e = encode_utf8(ext);
    let m = name_mask(name);
    let c = mask_seq(plain, m);
    lemma_mask_seq_index(plain, m);
    encode_utf8_valid_utf8(ext);
    encode_utf8_decode_utf8(ext);
    lemma_unmask_mask(plain, m);
    let data = container_bytes(e, c, tail);
    let el = e.len() as int;
    let cl = c.len() as int;
    assert(data.len() == 2 + el + cl + tail.len());
    assert(data[0] == e.len() as u8);
    assert(data[0] as int == el);
    assert(data[1 + el] == c.len() as u8);
    assert(data[1 + el] as int == cl);
    assert(ext_bytes(data) =~= e);
    assert(masked_bytes(data) =~= c);
    assert(data.subrange(data.len() - tail.len(), data.len() as int) =~= tail);
}

/// A container whose extension length runs past its bytes fails as truncated;
/// so does one with a well-formed extension whose masked length runs past
/// them. Both hold whatever the ASCII base name.
pub proof fn lemma_short_container_truncated(name: Seq<u8>, data: Seq<u8>)
    requires
        is_ascii_seq(name),
        !header_complete(data),
        ext_present(data) ==> valid_utf8(ext_bytes(data)),
    ensures
        decode_file_outcome(name, data) == Err::<DecodedView, DecodeError>(DecodeError::Truncated),
{
}

/// A base name with a byte outside 7-bit ASCII is rejected as an invalid name
/// whatever the container holds: none of its bytes decides the outcome.
pub proof fn lemma_non_ascii_name_rejected(name: Seq<u8>, data: Seq<u8>)
    requires
        !is_ascii_seq(name),
    ensures
        decode_file_outcome(name, data) == Err::<DecodedView, DecodeError>(DecodeError::InvalidName),
{
}

/// Relies on `String::from_utf8`: it succeeds exactly on well-formed UTF-8,
/// and then holds the text that the bytes encode.
#[verifier::external_body]
fn text_from_utf8(bytes: Vec<u8>) -> (r: Option<String>)
    ensures
        r.is_some() == valid_utf8(bytes@),
        r matches Some(s) ==> s@ == decode_utf8(bytes@),
{
    String::from_utf8(bytes).ok()
}

/// The bytes of `data` in `start..end`, as a vector.
fn copy_range(data: &[u8], start: usize, end: usize) -> (r: Vec<u8>)
    requires
        start <= end <= data@.len(),
    ensures
        r@ == data@.subrange(start as int, end as int),
{
    let mut out: Vec<u8> = Vec::new();
    let mut i: usize = start;
    while i < end
        invariant
            start <= i <= end <= data@.len(),
            out@ == data@.subrange(start as int, i as int),
        decreases end - i,
    {
        out.push(data[i]);
        proof {
            assert(out@ =~= data@.subrange(start as int, i + 1));
        }
        i = i + 1;
    }
    out
}

/// Decodes the container `data` under initial mask `m`.
pub fn decode_container(data: &[u8], m: u32) -> (r: Result<Decoded, DecodeError>)
    ensures
        match r {
            Ok(d) => decode_outcome(data@, m) == Ok::<DecodedView, DecodeError>(d@),
            Err(e) => decode_outcome(data@, m) == Err::<DecodedView, DecodeError>(e),
        },
{
    let n = data.len();
    if n < 1 {
        return Err(DecodeError::Truncated);
    }
    let ext_len = data[0] as usize;
    if n - 1 < ext_len {
        return Err(DecodeError::Truncated);
    }
    let ext = match text_from_utf8(copy_range(data, 1, 1 + ext_len)) {
        Some(s) => s,
        None => {
            return Err(DecodeError::InvalidExtension);
        },
    };
    if n < ext_len + 2 {
        return Err(DecodeError::Truncated);
    }
    let masked_len = data[ext_len + 1] as usize;
    let start = ext_len + 2;
    if n - start < masked_len {
        return Err(DecodeError::Truncated);
    }
    let mut payload = copy_range(data, start, start + masked_len);
    unmask_in_place(&mut payload, m);
    Ok(Decoded { extension: ext, payload, tail_start: start + masked_len })
}

/// Decodes the container `data` of a file whose base name is `name`: derives
/// the initial mask from the name, then decodes under it.
pub fn decode_file(name: &[u8], data: &[u8]) -> (r: Result<Decoded, DecodeError>)
    ensures
        match r {
            Ok(d) => decode_file_outcome(name@, data@) == Ok::<DecodedView, DecodeError>(d@),
            Err(e) => decode_file_outcome(name@, data@) == Err::<DecodedView, DecodeError>(e),
        },
{
    let m = match initial_mask(name) {
        Ok(m) => m,
        Err(e) => {
            return Err(e);
        },
    };
    decode_container(data, m)
}

} // verus!
