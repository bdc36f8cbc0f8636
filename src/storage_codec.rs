use vstd::prelude::*;

verus! {

/// How a stored payload is encoded.
#[derive(Clone, Copy, Debug, PartialEq, Eq, Structural)]
pub enum StorageCodecKind {
    Protobuf,
    /// A layout of plain bytes that this library defines itself.
    LengthPrefixedRawBytes,
}

pub const CODEC_TAG_PROTOBUF: u8 = 1;
pub const CODEC_TAG_RAW_BYTES: u8 = 2;

/// The byte that names a codec kind.
pub open spec fn codec_tag(kind: StorageCodecKind) -> u8 {
    match kind {
        StorageCodecKind::Protobuf => CODEC_TAG_PROTOBUF,
        StorageCodecKind::LengthPrefixedRawBytes => CODEC_TAG_RAW_BYTES,
    }
}

/// Why stored bytes could not be read back.
#[derive(Debug, PartialEq, Eq)]
pub enum StorageDecodeError {
    /// The bytes name a codec kind that this library cannot read.
    UnsupportedCodecKind(u8),
    /// The bytes end before the frame does, or run past it.
    DecodeValue(String),
}

/// The four big-endian bytes of `n`.
pub open spec fn u32_be(n: u32) -> Seq<u8> {
    seq![(n >> 24u32) as u8, ((n >> 16u32) & 0xff) as u8, ((n >> 8u32) & 0xff) as u8, (n & 0xff) as u8]
}

/// The number that four big-endian bytes spell.
pub open spec fn u32_of_be(b: Seq<u8>) -> u32 {
    (((b[0] as u32) << 24u32) | ((b[1] as u32) << 16u32) | ((b[2] as u32) << 8u32) | (b[3] as u32)) as u32
}

/// The frame of `payload` under `kind`: the codec tag, the payload's length in four
/// big-endian bytes, then the payload.
pub open spec fn frame(kind: StorageCodecKind, payload: Seq<u8>) -> Seq<u8> {
    seq![codec_tag(kind)] + u32_be(payload.len() as u32) + payload
}

/// What a frame decodes to: the kind and the payload; or why it cannot be read.
pub open spec fn decode_frame(b: Seq<u8>) -> Option<(StorageCodecKind, Seq<u8>)> {
    if b.len() < 5 || (b[0] != CODEC_TAG_PROTOBUF && b[0] != CODEC_TAG_RAW_BYTES) {
        None
    } else if u32_of_be(b.subrange(1, 5)) as int != b.len() - 5 {
        None
    } else {
        Some((if b[0] == CODEC_TAG_PROTOBUF { StorageCodecKind::Protobuf } else { StorageCodecKind::LengthPrefixedRawBytes }, b.subrange(5, b.len() as int)))
    }
}

proof fn lemma_u32_be_round_trip(n: u32)
    ensures
        u32_of_be(u32_be(n)) == n,
{
    assert((((((n >> 24u32) as u8) as u32) << 24u32) | (((((n >> 16u32) & 0xff) as u8) as u32) << 16u32) | (((((n >> 8u32)
        & 0xff) as u8) as u32) << 8u32) | (((n & 0xff) as u8) as u32)) == n) by (bit_vector);
}

/// Writes `payload` framed under `kind`.
pub fn encode_framed(kind: StorageCodecKind, payload: &Vec<u8>) -> (r: Vec<u8>)
    requires
        payload@.len() <= u32::MAX,
    ensures
        r@ == frame(kind, payload@),
{
    let mut r: Vec<u8> = Vec::new();
    r.push(
        match kind {
            StorageCodecKind::Protobuf => CODEC_TAG_PROTOBUF,
            StorageCodecKind::LengthPrefixedRawBytes => CODEC_TAG_RAW_BYTES,
        },
    );
    let n = payload.len() as u32;
    r.push((n >> 24u32) as u8);
    r.push(((n >> 16u32) & 0xff) as u8);
    r.push(((n >> 8u32) & 0xff) as u8);
    r.push((n & 0xff) as u8);
    let mut i: usize = 0;
    while i < payload.len()
        invariant
            i <= payload@.len(),
            n == payload@.len(),
            r@ == seq![codec_tag(kind)] + u32_be(n) + payload@.take(i as int),
        decreases payload@.len() - i,
    {
        r.push(payload[i]);
        i = i + 1;
        assert(r@ =~= seq![codec_tag(kind)] + u32_be(n) + payload@.take(i as int));
    }
    assert(payload@.take(payload@.len() as int) =~= payload@);
    r
}

/// Reads a frame: the codec kind its tag names and its payload. Fails with
/// `UnsupportedCodecKind` for an unknown tag, and with `DecodeValue` when the bytes are
/// shorter than a frame's header or the length does not match the payload.
pub fn decode_framed(bytes: &Vec<u8>) -> (r: Result<(StorageCodecKind, Vec<u8>), StorageDecodeError>)
    ensures
        match r {
            Ok((k, p)) => decode_frame(bytes@) == Some((k, p@)),
            Err(_) => decode_frame(bytes@) is None,
        },
        r matches Err(StorageDecodeError::UnsupportedCodecKind(t)) ==> t == bytes@[0],
        r is Err && (r matches Err(StorageDecodeError::UnsupportedCodecKind(_))) <==> (bytes@.len() >= 5 && bytes@[0]
            != CODEC_TAG_PROTOBUF && bytes@[0] != CODEC_TAG_RAW_BYTES),
{
    if bytes.len() < 5 {
        return Err(StorageDecodeError::DecodeValue("frame shorter than its header".to_owned()));
    }
    let tag = bytes[0];
    let kind = if tag == CODEC_TAG_PROTOBUF {
        StorageCodecKind::Protobuf
    } else if tag == CODEC_TAG_RAW_BYTES {
        StorageCodecKind::LengthPrefixedRawBytes
    } else {
        return Err(StorageDecodeError::UnsupportedCodecKind(tag));
    };
    let n: u32 = ((bytes[1] as u32) << 24u32) | ((bytes[2] as u32) << 16u32) | ((bytes[3] as u32) << 8u32) | (bytes[4] as u32);
    proof {
        assert(bytes@.subrange(1, 5)[0] == bytes@[1]);
        assert(bytes@.subrange(1, 5)[1] == bytes@[2]);
        assert(bytes@.subrange(1, 5)[2] == bytes@[3]);
        assert(bytes@.subrange(1, 5)[3] == bytes@[4]);
    }
    if n as usize != bytes.len() - 5 {
        return Err(StorageDecodeError::DecodeValue("frame length does not match its payload".to_owned()));
    }
    let mut payload: Vec<u8> = Vec::new();
    let mut i: usize = 5;
    while i < bytes.len()
        invariant
            5 <= i <= bytes@.len(),
            payload@ == bytes@.subrange(5, i as int),
        decreases bytes@.len() - i,
    {
        payload.push(bytes[i]);
        i = i + 1;
        assert(payload@ =~= bytes@.subrange(5, i as int));
    }
    Ok((kind, payload))
}

/// A payload survives framing and reading back.
pub proof fn lemma_frame_round_trip(kind: StorageCodecKind, payload: Seq<u8>)
    requires
        payload.len() <= u32::MAX,
    ensures
        decode_frame(frame(kind, payload)) == Some((kind, payload)),
{
    let b = frame(kind, payload);
    lemma_u32_be_round_trip(payload.len() as u32);
    assert(b.subrange(1, 5) =~= u32_be(payload.len() as u32));
    assert(b.subrange(5, b.len() as int) =~= payload);
}

} // verus!
