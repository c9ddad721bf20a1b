//! Optional zstd compression of data pieces, and how a data piece stands on
//! the wire: compression flag, uncompressed length, length on the wire, bytes.
use vstd::prelude::*;
use crate::error::{DataFault, ProtocolError};
use crate::wire::{le32, lemma_le32_read, push_u32_le, read_u32_le, u32_at};

verus! {

/// Data of at most this many bytes is never compressed.
pub const COMPRESSION_THRESHOLD: usize = 128;

/// The zstd compression level.
pub const COMPRESSION_LEVEL: i32 = 3;

/// What `zstd::encode_all` returns for the bytes `source` at `level`
/// (`None` for an error).
pub uninterp spec fn zstd_encode_all(source: Seq<u8>, level: i32) -> Option<Seq<u8>>;

/// What `zstd::decode_all` returns for the bytes `source` (`None` for an
/// error).
pub uninterp spec fn zstd_decode_all(source: Seq<u8>) -> Option<Seq<u8>>;

/// `zstd::encode_all` on an in-memory source. Its result is the one that the
/// name `zstd_encode_all` stands for; zstd is lossless, so decompressing what
/// it produced gives the source back.
#[verifier::external_body]
fn zstd_compress(source: &[u8], level: i32) -> (r: Option<Vec<u8>>)
    ensures
        match r {
            Some(c) => zstd_encode_all(source@, level) == Some(c@),
            None => zstd_encode_all(source@, level) is None,
        },
        r matches Some(c) ==> zstd_decode_all(c@) == Some(source@),
{
    zstd::encode_all(source, level).ok()
}

/// `zstd::decode_all` on an in-memory source. Its result is the one that the
/// name `zstd_decode_all` stands for.
#[verifier::external_body]
fn zstd_decompress(source: &[u8]) -> (r: Option<Vec<u8>>)
    ensures
        match r {
            Some(d) => zstd_decode_all(source@) == Some(d@),
            None => zstd_decode_all(source@) is None,
        },
{
    zstd::decode_all(source).ok()
}

/// The bytes that go on the wire for `data`, and whether they are compressed:
/// compressed only when asked for, when `data` is longer than the threshold,
/// and when compression succeeds and makes it shorter.
pub open spec fn spec_wire_data(data: Seq<u8>, compressed: bool) -> (bool, Seq<u8>) {
    if compressed && data.len() > COMPRESSION_THRESHOLD {
        match zstd_encode_all(data, COMPRESSION_LEVEL) {
            Some(c) => if c.len() < data.len() {
                (true, c)
            } else {
                (false, data)
            },
            None => (false, data),
        }
    } else {
        (false, data)
    }
}

/// The compressed bytes chosen for `data` decompress back to `data`.
pub open spec fn wire_data_lossless(data: Seq<u8>, compressed: bool) -> bool {
    spec_wire_data(data, compressed).0 ==> zstd_decode_all(spec_wire_data(data, compressed).1)
        == Some(data)
}

/// A data piece on the wire: flag, uncompressed length, wire length, wire bytes.
/// Lengths are written as `u32`, truncating as the cast does.
pub open spec fn spec_data_piece(data: Seq<u8>, compressed: bool) -> Seq<u8> {
    let (c, w) = spec_wire_data(data, compressed);
    seq![if c { 1u8 } else { 0u8 }] + le32(data.len() as u32) + le32(w.len() as u32) + w
}

/// Decoding a data piece at position `pos`: the data, whether it was
/// compressed, and the position just past the piece.
#[verifier::opaque]
pub open spec fn spec_decode_data_piece(s: Seq<u8>, pos: int) -> Result<(Seq<u8>, bool, int), ProtocolError> {
    if pos + 9 > s.len() {
        Err(ProtocolError::Io)
    } else {
        let compressed = s[pos] == 1;
        let plain_len = u32_at(s, pos + 1);
        let actual_len = u32_at(s, pos + 5);
        if pos + 9 + actual_len > s.len() {
            Err(ProtocolError::Io)
        } else {
            let wire = s.subrange(pos + 9, pos + 9 + actual_len);
            let decoded = if compressed { zstd_decode_all(wire) } else { Some(wire) };
            match decoded {
                None => Err(ProtocolError::InvalidData(DataFault::DecompressionFailed)),
                Some(d) => if d.len() != plain_len {
                    Err(
                        ProtocolError::InvalidData(
                            DataFault::LengthMismatch {
                                expected: plain_len as usize,
                                got: d.len() as usize,
                            },
                        ),
                    )
                } else {
                    Ok((d, compressed, pos + 9 + actual_len))
                },
            }
        }
    }
}

/// Compress `data` if asked for and worth it; returns whether the result is
/// compressed, and the bytes to put on the wire.
pub fn wire_data(data: &Vec<u8>, compressed: bool) -> (r: (bool, Vec<u8>))
    ensures
        r.0 == spec_wire_data(data@, compressed).0,
        r.1@ == spec_wire_data(data@, compressed).1,
        wire_data_lossless(data@, compressed),
{
    if compressed && data.len() > COMPRESSION_THRESHOLD {
        match zstd_compress(data.as_slice(), COMPRESSION_LEVEL) {
            Some(c) => {
                if c.len() < data.len() {
                    (true, c)
                } else {
                    (false, data.clone())
                }
            },
            None => (false, data.clone()),
        }
    } else {
        (false, data.clone())
    }
}

/// Appends the data piece for `data`.
pub fn push_data_piece(buf: &mut Vec<u8>, data: &Vec<u8>, compressed: bool)
    ensures
        final(buf)@ == old(buf)@ + spec_data_piece(data@, compressed),
        wire_data_lossless(data@, compressed),
{
    let (is_compressed, final_data) = wire_data(data, compressed);
    buf.push(if is_compressed { 1u8 } else { 0u8 });
    push_u32_le(buf, data.len() as u32);
    push_u32_le(buf, final_data.len() as u32);
    buf.extend_from_slice(final_data.as_slice());
    assert(buf@ =~= old(buf)@ + spec_data_piece(data@, compressed));
}

/// Decodes a data piece at position `pos`; returns the data, whether it was
/// compressed, and the position just past the piece.
pub fn read_data_piece(s: &[u8], pos: usize) -> (r: Result<(Vec<u8>, bool, usize), ProtocolError>)
    ensures
        match spec_decode_data_piece(s@, pos as int) {
            Ok((d, c, end)) => r matches Ok((data, comp, e)) && data@ == d && comp == c && e == end,
            Err(err) => r == Err::<(Vec<u8>, bool, usize), _>(err),
        },
        r matches Ok((_, _, e)) ==> pos + 9 <= e <= s@.len(),
{
    reveal(spec_decode_data_piece);
    if pos > s.len() || s.len() - pos < 9 {
        return Err(ProtocolError::Io);
    }
    let compressed = s[pos] == 1;
    let plain_len = read_u32_le(s, pos + 1);
    let actual_len = read_u32_le(s, pos + 5);
    if s.len() - pos - 9 < actual_len as usize {
        return Err(ProtocolError::Io);
    }
    let end = pos + 9 + actual_len as usize;
    let wire = vstd::slice::slice_subrange(s, pos + 9, end);
    let data = if compressed {
        match zstd_decompress(wire) {
            Some(d) => d,
            None => {
                return Err(ProtocolError::InvalidData(DataFault::DecompressionFailed));
            },
        }
    } else {
        vstd::slice::slice_to_vec(wire)
    };
    if data.len() != plain_len as usize {
        return Err(
            ProtocolError::InvalidData(
                DataFault::LengthMismatch { expected: plain_len as usize, got: data.len() },
            ),
        );
    }
    Ok((data, compressed, end))
}

/// Decoding a data piece gives back the data, flagged as compressed exactly
/// when compression was applied, and the position just past the piece.
pub proof fn lemma_data_piece_roundtrip(data: Seq<u8>, compressed: bool, prefix: Seq<u8>, suffix: Seq<u8>)
    requires
        data.len() <= u32::MAX,
        wire_data_lossless(data, compressed),
    ensures
        spec_decode_data_piece(prefix + spec_data_piece(data, compressed) + suffix, prefix.len() as int)
            == Ok::<(Seq<u8>, bool, int), ProtocolError>(
            (
                data,
                spec_wire_data(data, compressed).0,
                prefix.len() + spec_data_piece(data, compressed).len() as int,
            ),
        ),
{
    reveal(spec_decode_data_piece);
    let (c, w) = spec_wire_data(data, compressed);
    let e = spec_data_piece(data, compressed);
    let s = prefix + e + suffix;
    let p = prefix.len() as int;
    assert(w.len() <= data.len());
    assert(s.subrange(p, p + e.len()) =~= e);
    assert(s[p] == e[0]);
    assert(s.subrange(p + 1, p + 5) =~= le32(data.len() as u32));
    lemma_le32_read(data.len() as u32, s, p + 1);
    assert(s.subrange(p + 5, p + 9) =~= le32(w.len() as u32));
    lemma_le32_read(w.len() as u32, s, p + 5);
    assert(s.subrange(p + 9, p + 9 + w.len()) =~= w);
}

} // verus!
