use vstd::prelude::*;

verus! {

/// Why a RIFF/WAVE buffer could not be read, or a WAV file could not be encoded.
#[derive(Debug, Clone, Copy, PartialEq, Eq, Structural)]
pub enum WavError {
    /// A little-endian field would run past the end of the buffer.
    UnexpectedEof,
    /// The buffer does not start with a `RIFF` ... `WAVE` header.
    NotRiffWave,
    /// A chunk's declared size overflows the address space.
    ChunkSizeOverflow,
    /// A chunk's declared size runs past the end of the buffer.
    TruncatedChunk,
    /// No `fmt ` chunk was found.
    MissingFmtChunk,
    /// No `data` chunk was found.
    MissingDataChunk,
    /// The `fmt ` chunk is shorter than 16 bytes.
    FmtChunkTooShort,
    /// The stream does not have exactly four channels (the channel count found).
    ChannelCount(u16),
    /// The samples are not 32 bits wide (the width found).
    BitsPerSample(u16),
    /// A frame is not 16 bytes long (the block alignment found).
    BlockAlign(u16),
    /// A `WAVE_FORMAT_EXTENSIBLE` fmt chunk is shorter than 40 bytes.
    ExtensibleFmtTooShort,
    /// The samples are not IEEE floats (the format tag found).
    NotIeeeFloat(u16),
    /// The data chunk does not hold a whole number of 16-byte frames.
    PartialFrame,
    /// The data size in bytes does not fit in a `u64`.
    OutputTooLarge,
    /// The data size in bytes does not fit in a classic RIFF size field.
    ExceedsRiffLimit,
    /// The RIFF size (data size plus 36) does not fit in a `u32`.
    RiffSizeOverflow,
    /// The byte rate (sample rate times 4) does not fit in a `u32`.
    SampleRateTooLarge,
}

/// The little-endian `u16` stored at `i` in `b`.
pub open spec fn le_u16(b: Seq<u8>, i: int) -> int {
    b[i] as int + 256 * (b[i + 1] as int)
}

/// The little-endian `u32` stored at `i` in `b`.
pub open spec fn le_u32(b: Seq<u8>, i: int) -> int {
    b[i] as int + 256 * (b[i + 1] as int) + 65536 * (b[i + 2] as int) + 16777216 * (b[i + 3] as int)
}

/// Reads a little-endian `u16` from `bytes` at `offset`; fails when the field
/// does not lie inside `bytes`.
pub fn read_u16_le(bytes: &[u8], offset: usize) -> (res: Result<u16, WavError>)
    ensures
        res is Ok <==> offset + 2 <= bytes@.len(),
        res matches Ok(v) ==> v == le_u16(bytes@, offset as int),
        res matches Err(e) ==> e == WavError::UnexpectedEof,
{
    if offset > bytes.len() || bytes.len() - offset < 2 {
        return Err(WavError::UnexpectedEof);
    }
    Ok(le_u16_at(bytes, offset))
}

/// Reads a little-endian `u32` from `bytes` at `offset`; fails when the field
/// does not lie inside `bytes`.
pub fn read_u32_le(bytes: &[u8], offset: usize) -> (res: Result<u32, WavError>)
    ensures
        res is Ok <==> offset + 4 <= bytes@.len(),
        res matches Ok(v) ==> v == le_u32(bytes@, offset as int),
        res matches Err(e) ==> e == WavError::UnexpectedEof,
{
    if offset > bytes.len() || bytes.len() - offset < 4 {
        return Err(WavError::UnexpectedEof);
    }
    Ok(le_u32_at(bytes, offset))
}

fn le_u16_at(bytes: &[u8], offset: usize) -> (v: u16)
    requires
        offset + 2 <= bytes@.len(),
    ensures
        v == le_u16(bytes@, offset as int),
{
    let lo = bytes[offset] as u16;
    let hi = bytes[offset + 1] as u16;
    lo + 256 * hi
}

fn le_u32_at(bytes: &[u8], offset: usize) -> (v: u32)
    requires
        offset + 4 <= bytes@.len(),
    ensures
        v == le_u32(bytes@, offset as int),
{
    let b0 = bytes[offset] as u32;
    let b1 = bytes[offset + 1] as u32;
    let b2 = bytes[offset + 2] as u32;
    let b3 = bytes[offset + 3] as u32;
    b0 + 256 * b1 + 65536 * b2 + 16777216 * b3
}


/// Whether `b` holds the four bytes `c0 c1 c2 c3` at `i`.
pub open spec fn has_id(b: Seq<u8>, i: int, c0: u8, c1: u8, c2: u8, c3: u8) -> bool {
    &&& b[i] == c0
    &&& b[i + 1] == c1
    &&& b[i + 2] == c2
    &&& b[i + 3] == c3
}

/// Whether `b` starts with the RIFF header of a WAVE file: `RIFF`, a size, `WAVE`.
pub open spec fn is_riff_wave(b: Seq<u8>) -> bool {
    &&& b.len() >= 12
    &&& has_id(b, 0, 0x52, 0x49, 0x46, 0x46)
    &&& has_id(b, 8, 0x57, 0x41, 0x56, 0x45)
}

/// Whether the chunk at `pos` is a `fmt ` chunk.
pub open spec fn is_fmt_id(b: Seq<u8>, pos: int) -> bool {
    has_id(b, pos, 0x66, 0x6d, 0x74, 0x20)
}

/// Whether the chunk at `pos` is a `data` chunk.
pub open spec fn is_data_id(b: Seq<u8>, pos: int) -> bool {
    has_id(b, pos, 0x64, 0x61, 0x74, 0x61)
}

/// The byte range `[start, end)` of a chunk's payload.
pub type ChunkRange = (int, int);

/// Walks the RIFF chunks of `b` from `pos` on, keeping the payload range of the
/// last `fmt ` and the last `data` chunk seen. Each chunk is an id, a
/// little-endian `u32` size and the payload, padded to an even length. The walk
/// stops once fewer than 8 bytes are left.
pub open spec fn walk_chunks(
    b: Seq<u8>,
    pos: int,
    fmt: Option<ChunkRange>,
    data: Option<ChunkRange>,
) -> Result<(Option<ChunkRange>, Option<ChunkRange>), WavError>
    decreases b.len() + 1 - pos,
{
    if pos < 0 || pos + 8 > b.len() {
        Ok((fmt, data))
    } else {
        let size = le_u32(b, pos + 4);
        let start = pos + 8;
        let end = start + size;
        if end > usize::MAX {
            Err(WavError::ChunkSizeOverflow)
        } else if end > b.len() {
            Err(WavError::TruncatedChunk)
        } else {
            let fmt2 = if is_fmt_id(b, pos) { Some((start, end)) } else { fmt };
            let data2 = if is_data_id(b, pos) { Some((start, end)) } else { data };
            walk_chunks(b, end + size % 2, fmt2, data2)
        }
    }
}

/// The chunks of a RIFF/WAVE buffer: the walk starts right after the 12-byte header.
pub open spec fn wav_chunks(b: Seq<u8>) -> Result<(Option<ChunkRange>, Option<ChunkRange>), WavError> {
    walk_chunks(b, 12, None, None)
}

/// What is wrong with a `fmt ` chunk for a 4-channel, 32-bit IEEE float stream,
/// if anything. The checks come in this order: length, channel count, sample
/// width, block alignment, format tag (3, or `0xFFFE` whose sub-format starts
/// with the value 3).
pub open spec fn fmt_error(fmt: Seq<u8>) -> Option<WavError> {
    if fmt.len() < 16 {
        Some(WavError::FmtChunkTooShort)
    } else if le_u16(fmt, 2) != 4 {
        Some(WavError::ChannelCount(le_u16(fmt, 2) as u16))
    } else if le_u16(fmt, 14) != 32 {
        Some(WavError::BitsPerSample(le_u16(fmt, 14) as u16))
    } else if le_u16(fmt, 12) != 16 {
        Some(WavError::BlockAlign(le_u16(fmt, 12) as u16))
    } else if le_u16(fmt, 0) == 3 {
        None
    } else if le_u16(fmt, 0) == 0xFFFE {
        if fmt.len() < 40 {
            Some(WavError::ExtensibleFmtTooShort)
        } else if le_u32(fmt, 24) == 3 {
            None
        } else {
            Some(WavError::NotIeeeFloat(0xFFFE))
        }
    } else {
        Some(WavError::NotIeeeFloat(le_u16(fmt, 0) as u16))
    }
}

/// The `fmt ` and `data` payloads of a buffer that holds a 4-channel 32-bit
/// float WAV stream, or the first reason it does not.
pub open spec fn wav_4ch_f32_payloads(b: Seq<u8>) -> Result<(Seq<u8>, Seq<u8>), WavError> {
    if !is_riff_wave(b) {
        Err(WavError::NotRiffWave)
    } else {
        match wav_chunks(b) {
            Err(e) => Err(e),
            Ok((None, _)) => Err(WavError::MissingFmtChunk),
            Ok((Some(_), None)) => Err(WavError::MissingDataChunk),
            Ok((Some(f), Some(d))) => {
                let fmt = b.subrange(f.0, f.1);
                let data = b.subrange(d.0, d.1);
                match fmt_error(fmt) {
                    Some(e) => Err(e),
                    None => if data.len() % 16 != 0 {
                        Err(WavError::PartialFrame)
                    } else {
                        Ok((fmt, data))
                    },
                }
            },
        }
    }
}

/// Whether `frames` are the 16-byte frames of `data`, each channel the
/// little-endian `u32` bit pattern of an IEEE float sample.
pub open spec fn frames_of(frames: Seq<[u32; 4]>, data: Seq<u8>) -> bool {
    &&& frames.len() == data.len() / 16
    &&& forall|i: int, c: int|
        0 <= i < frames.len() && 0 <= c < 4 ==> #[trigger] frames[i][c] == le_u32(data, 16 * i + 4 * c)
}

/// A 4-channel stream of 32-bit float samples, each sample kept as its IEEE-754
/// bit pattern. Channels come in the order of the file: W, Y, Z, X.
pub struct Wav4F32 {
    pub sample_rate: u32,
    pub frames: Vec<[u32; 4]>,
}

spec fn range_view(r: Option<(usize, usize)>) -> Option<ChunkRange> {
    match r {
        Some((s, e)) => Some((s as int, e as int)),
        None => None,
    }
}

fn has_id_at(bytes: &[u8], i: usize, c0: u8, c1: u8, c2: u8, c3: u8) -> (r: bool)
    requires
        i + 4 <= bytes@.len(),
    ensures
        r == has_id(bytes@, i as int, c0, c1, c2, c3),
{
    bytes[i] == c0 && bytes[i + 1] == c1 && bytes[i + 2] == c2 && bytes[i + 3] == c3
}

fn find_chunks(bytes: &[u8]) -> (res: Result<(Option<(usize, usize)>, Option<(usize, usize)>), WavError>)
    requires
        12 <= bytes@.len() < usize::MAX,
    ensures
        match res {
            Ok((f, d)) => wav_chunks(bytes@) == Ok::<_, WavError>((range_view(f), range_view(d))),
            Err(e) => wav_chunks(bytes@) == Err::<(Option<ChunkRange>, Option<ChunkRange>), _>(e),
        },
        res matches Ok((f, d)) ==> (f matches Some((s, e)) ==> s <= e <= bytes@.len()) && (
        d matches Some((s, e)) ==> s <= e <= bytes@.len()),
{
    let len = bytes.len();
    let mut fmt: Option<(usize, usize)> = None;
    let mut data: Option<(usize, usize)> = None;
    let mut pos: usize = 12;
    while pos <= len && len - pos >= 8
        invariant
            len == bytes@.len(),
            len < usize::MAX,
            12 <= pos <= len + 1,
            wav_chunks(bytes@) == walk_chunks(bytes@, pos as int, range_view(fmt), range_view(data)),
            fmt matches Some((s, e)) ==> s <= e <= len,
            data matches Some((s, e)) ==> s <= e <= len,
        decreases len + 1 - pos,
    {
        let size = le_u32_at(bytes, pos + 4) as usize;
        let start = pos + 8;
        let end = match start.checked_add(size) {
            Some(e) => e,
            None => return Err(WavError::ChunkSizeOverflow),
        };
        if end > len {
            return Err(WavError::TruncatedChunk);
        }
        if has_id_at(bytes, pos, 0x66, 0x6d, 0x74, 0x20) {
            fmt = Some((start, end));
        } else if has_id_at(bytes, pos, 0x64, 0x61, 0x74, 0x61) {
            data = Some((start, end));
        }
        pos = end + size % 2;
    }
    Ok((fmt, data))
}

/// Decodes a RIFF/WAVE buffer holding a 4-channel, 32-bit IEEE float stream
/// (format tag 3, or `WAVE_FORMAT_EXTENSIBLE` with the float sub-format). The
/// result holds the sample rate of the `fmt ` chunk and every frame of the
/// `data` chunk; where several such chunks occur, the last one counts.
pub fn parse_wav_4ch_f32(bytes: &[u8]) -> (res: Result<Wav4F32, WavError>)
    requires
        bytes@.len() < usize::MAX,
    ensures
        match res {
            Ok(w) => wav_4ch_f32_payloads(bytes@) matches Ok((fmt, data)) && w.sample_rate == le_u32(fmt, 4)
                && frames_of(w.frames@, data),
            Err(e) => wav_4ch_f32_payloads(bytes@) == Err::<(Seq<u8>, Seq<u8>), _>(e),
        },
        wav_chunks(bytes@) matches Ok((Some((fs, fe)), Some((ds, de)))) ==> ((is_riff_wave(bytes@)
            && fe - fs >= 16 && le_u16(bytes@, fs + 2) == 4 && le_u16(bytes@, fs + 14) == 32
            && le_u16(bytes@, fs + 12) == 16 && (le_u16(bytes@, fs) == 3 || (le_u16(bytes@, fs)
            == 0xFFFE && fe - fs >= 40 && le_u32(bytes@, fs + 24) == 3)) && (de - ds) % 16 == 0)
            ==> (res matches Ok(w) && w.sample_rate == le_u32(bytes@, fs + 4) && w.frames@.len() == (de
            - ds) / 16)),
        wav_chunks(bytes@) matches Ok((Some((fs, fe)), Some((ds, de)))) ==> ((is_riff_wave(bytes@)
            && fe - fs >= 40 && le_u16(bytes@, fs + 2) == 4 && le_u16(bytes@, fs + 14) == 32
            && le_u16(bytes@, fs + 12) == 16 && le_u16(bytes@, fs) == 0xFFFE && le_u32(bytes@, fs + 24)
            != 3) ==> res == Err::<Wav4F32, _>(WavError::NotIeeeFloat(0xFFFE))),
{
    proof {
        let b = bytes@;
        if let Ok((Some((fs, fe)), Some((ds, de)))) = wav_chunks(b) {
            if is_riff_wave(b) && fe - fs >= 16 && le_u16(b, fs + 2) == 4 && le_u16(b, fs + 14) == 32
                && le_u16(b, fs + 12) == 16 && (le_u16(b, fs) == 3 || (le_u16(b, fs) == 0xFFFE && fe
                - fs >= 40 && le_u32(b, fs + 24) == 3)) && (de - ds) % 16 == 0 {
                lemma_float_wav_accepted(b, fs, fe, ds, de);
                let fmt = b.subrange(fs, fe);
                assert(fmt[4] == b[fs + 4] && fmt[5] == b[fs + 5] && fmt[6] == b[fs + 6] && fmt[7]
                    == b[fs + 7]);
            }
            if is_riff_wave(b) && fe - fs >= 40 && le_u16(b, fs + 2) == 4 && le_u16(b, fs + 14) == 32
                && le_u16(b, fs + 12) == 16 && le_u16(b, fs) == 0xFFFE && le_u32(b, fs + 24) != 3 {
                lemma_extensible_non_float_refused(b, fs, fe, ds, de);
            }
        }
    }
    let len = bytes.len();
    if len < 12 || !has_id_at(bytes, 0, 0x52, 0x49, 0x46, 0x46) || !has_id_at(
        bytes,
        8,
        0x57,
        0x41,
        0x56,
        0x45,
    ) {
        return Err(WavError::NotRiffWave);
    }
    let (fmt, data) = match find_chunks(bytes) {
        Ok(c) => c,
        Err(e) => return Err(e),
    };
    let (fs, fe) = match fmt {
        Some(r) => r,
        None => return Err(WavError::MissingFmtChunk),
    };
    let (ds, de) = match data {
        Some(r) => r,
        None => return Err(WavError::MissingDataChunk),
    };
    let ghost fmt_bytes = bytes@.subrange(fs as int, fe as int);
    let ghost data_bytes = bytes@.subrange(ds as int, de as int);
    if fe - fs < 16 {
        return Err(WavError::FmtChunkTooShort);
    }
    assert(forall|k: int| 0 <= k < fe - fs ==> fmt_bytes[k] == bytes@[fs + k]);
    let format_tag = le_u16_at(bytes, fs);
    let channels = le_u16_at(bytes, fs + 2);
    let sample_rate = le_u32_at(bytes, fs + 4);
    let block_align = le_u16_at(bytes, fs + 12);
    let bits_per_sample = le_u16_at(bytes, fs + 14);
    assert(format_tag == le_u16(fmt_bytes, 0));
    assert(channels == le_u16(fmt_bytes, 2));
    assert(sample_rate == le_u32(fmt_bytes, 4));
    assert(block_align == le_u16(fmt_bytes, 12));
    assert(bits_per_sample == le_u16(fmt_bytes, 14));
    if channels != 4 {
        return Err(WavError::ChannelCount(channels));
    }
    if bits_per_sample != 32 {
        return Err(WavError::BitsPerSample(bits_per_sample));
    }
    if block_align != 16 {
        return Err(WavError::BlockAlign(block_align));
    }
    let is_ieee_float = if format_tag == 3 {
        true
    } else if format_tag == 0xFFFE {
        if fe - fs < 40 {
            return Err(WavError::ExtensibleFmtTooShort);
        }
        let sub_format = le_u32_at(bytes, fs + 24);
        assert(sub_format == le_u32(fmt_bytes, 24));
        sub_format == 3
    } else {
        false
    };
    if !is_ieee_float {
        return Err(WavError::NotIeeeFloat(format_tag));
    }
    if (de - ds) % 16 != 0 {
        return Err(WavError::PartialFrame);
    }
    let frame_count = (de - ds) / 16;
    let mut frames: Vec<[u32; 4]> = Vec::new();
    let mut i: usize = 0;
    while i < frame_count
        invariant
            ds <= de <= bytes@.len(),
            frame_count == (de - ds) / 16,
            (de - ds) % 16 == 0,
            i <= frame_count,
            data_bytes == bytes@.subrange(ds as int, de as int),
            frames@.len() == i,
            forall|j: int, c: int|
                0 <= j < i && 0 <= c < 4 ==> #[trigger] frames@[j][c] == le_u32(data_bytes, 16 * j + 4 * c),
        decreases frame_count - i,
    {
        let o = ds + 16 * i;
        let frame = [
            le_u32_at(bytes, o),
            le_u32_at(bytes, o + 4),
            le_u32_at(bytes, o + 8),
            le_u32_at(bytes, o + 12),
        ];
        proof {
            assert forall|c: int| 0 <= c < 4 implies #[trigger] frame[c] == le_u32(
                data_bytes,
                16 * i + 4 * c,
            ) by {
                assert(data_bytes[16 * i + 4 * c] == bytes@[o + 4 * c]);
                assert(data_bytes[16 * i + 4 * c + 1] == bytes@[o + 4 * c + 1]);
                assert(data_bytes[16 * i + 4 * c + 2] == bytes@[o + 4 * c + 2]);
                assert(data_bytes[16 * i + 4 * c + 3] == bytes@[o + 4 * c + 3]);
            }
        }
        frames.push(frame);
        i = i + 1;
    }
    Ok(Wav4F32 { sample_rate, frames })
}


/// The two little-endian bytes of `v`.
pub open spec fn le_bytes_u16(v: int) -> Seq<u8> {
    seq![(v % 256) as u8, ((v / 256) % 256) as u8]
}

/// The four little-endian bytes of `v`.
pub open spec fn le_bytes_u32(v: int) -> Seq<u8> {
    seq![
        (v % 256) as u8,
        ((v / 256) % 256) as u8,
        ((v / 65536) % 256) as u8,
        ((v / 16777216) % 256) as u8,
    ]
}

/// The 44-byte header of a mono, 32-bit IEEE float WAV file whose data chunk
/// holds `data_len` bytes: the RIFF header, a 16-byte `fmt ` chunk (format tag
/// 3, one channel, the sample rate, byte rate `4 * sample_rate`, block
/// alignment 4, 32 bits per sample) and the `data` chunk header.
#[verifier::opaque]
pub open spec fn mono_f32_wav_header(sample_rate: int, data_len: int) -> Seq<u8> {
    seq![0x52u8, 0x49u8, 0x46u8, 0x46u8] + le_bytes_u32(36 + data_len) + seq![
        0x57u8,
        0x41u8,
        0x56u8,
        0x45u8,
    ] + seq![0x66u8, 0x6du8, 0x74u8, 0x20u8] + le_bytes_u32(16) + le_bytes_u16(3) + le_bytes_u16(1)
        + le_bytes_u32(sample_rate) + le_bytes_u32(4 * sample_rate) + le_bytes_u16(4)
        + le_bytes_u16(32) + seq![0x64u8, 0x61u8, 0x74u8, 0x61u8] + le_bytes_u32(data_len)
}

/// The samples, each written as its four little-endian bytes, one after the other.
pub open spec fn samples_le_bytes(samples: Seq<u32>) -> Seq<u8>
    decreases samples.len(),
{
    if samples.len() == 0 {
        Seq::empty()
    } else {
        samples_le_bytes(samples.drop_last()) + le_bytes_u32(samples.last() as int)
    }
}

/// The bytes of a mono 32-bit float WAV file holding `samples` (IEEE-754 bit
/// patterns) at `sample_rate`, or the first size limit that the file breaks.
pub open spec fn mono_f32_wav(sample_rate: u32, samples: Seq<u32>) -> Result<Seq<u8>, WavError> {
    let data_len = 4 * samples.len();
    if data_len > u64::MAX {
        Err(WavError::OutputTooLarge)
    } else if data_len > u32::MAX {
        Err(WavError::ExceedsRiffLimit)
    } else if 36 + data_len > u32::MAX {
        Err(WavError::RiffSizeOverflow)
    } else if 4 * sample_rate > u32::MAX {
        Err(WavError::SampleRateTooLarge)
    } else {
        Ok(mono_f32_wav_header(sample_rate as int, data_len as int) + samples_le_bytes(samples))
    }
}

fn push_id(out: &mut Vec<u8>, c0: u8, c1: u8, c2: u8, c3: u8)
    ensures
        final(out)@ == old(out)@ + seq![c0, c1, c2, c3],
{
    out.push(c0);
    out.push(c1);
    out.push(c2);
    out.push(c3);
}

fn push_u16_le(out: &mut Vec<u8>, v: u16)
    ensures
        final(out)@ == old(out)@ + le_bytes_u16(v as int),
{
    out.push((v % 256) as u8);
    out.push(((v / 256) % 256) as u8);
}

fn push_u32_le(out: &mut Vec<u8>, v: u32)
    ensures
        final(out)@ == old(out)@ + le_bytes_u32(v as int),
{
    out.push((v % 256) as u8);
    out.push(((v / 256) % 256) as u8);
    out.push(((v / 65536) % 256) as u8);
    out.push(((v / 16777216) % 256) as u8);
}

/// Encodes a mono, 32-bit IEEE float WAV file holding `samples` (each the bit
/// pattern of an `f32`) at `sample_rate`. Fails when the data size does not fit
/// a `u64`, a RIFF size field, or the RIFF size with its header, or when the
/// byte rate overflows a `u32`, checked in that order.
pub fn encode_mono_f32_wav(sample_rate: u32, samples: &[u32]) -> (res: Result<Vec<u8>, WavError>)
    ensures
        match res {
            Ok(bytes) => mono_f32_wav(sample_rate, samples@) == Ok::<_, WavError>(bytes@),
            Err(e) => mono_f32_wav(sample_rate, samples@) == Err::<Seq<u8>, _>(e),
        },
        res matches Ok(bytes) ==> bytes@.len() == 44 + 4 * samples@.len() && le_u32(bytes@, 4)
            == bytes@.len() - 8,
{
    let n = samples.len();
    let data_len_u64 = match (n as u64).checked_mul(4) {
        Some(v) => v,
        None => return Err(WavError::OutputTooLarge),
    };
    if data_len_u64 > 0xFFFF_FFFFu64 {
        return Err(WavError::ExceedsRiffLimit);
    }
    let data_len = data_len_u64 as u32;
    let riff_size = match 36u32.checked_add(data_len) {
        Some(v) => v,
        None => return Err(WavError::RiffSizeOverflow),
    };
    let byte_rate = match sample_rate.checked_mul(4) {
        Some(v) => v,
        None => return Err(WavError::SampleRateTooLarge),
    };
    let mut out: Vec<u8> = Vec::new();
    push_id(&mut out, 0x52, 0x49, 0x46, 0x46);
    push_u32_le(&mut out, riff_size);
    push_id(&mut out, 0x57, 0x41, 0x56, 0x45);
    push_id(&mut out, 0x66, 0x6d, 0x74, 0x20);
    push_u32_le(&mut out, 16);
    push_u16_le(&mut out, 3);
    push_u16_le(&mut out, 1);
    push_u32_le(&mut out, sample_rate);
    push_u32_le(&mut out, byte_rate);
    push_u16_le(&mut out, 4);
    push_u16_le(&mut out, 32);
    push_id(&mut out, 0x64, 0x61, 0x74, 0x61);
    push_u32_le(&mut out, data_len);
    let ghost header = out@;
    assert(header =~= mono_f32_wav_header(sample_rate as int, 4 * n)) by {
        reveal(mono_f32_wav_header);
    }
    let mut i: usize = 0;
    while i < n
        invariant
            n == samples@.len(),
            i <= n,
            out@ == header + samples_le_bytes(samples@.take(i as int)),
        decreases n - i,
    {
        let ghost before = out@;
        push_u32_le(&mut out, samples[i]);
        proof {
            let t = samples@.take(i + 1);
            assert(t.drop_last() =~= samples@.take(i as int));
            assert(t.last() == samples@[i as int]);
            assert(out@ =~= header + samples_le_bytes(t));
        }
        i = i + 1;
    }
    assert(samples@.take(n as int) =~= samples@);
    proof {
        lemma_mono_f32_wav_riff_size(sample_rate, samples@);
    }
    Ok(out)
}


/// Reading back the two bytes that `v` is written as gives `v`.
pub proof fn lemma_u16_le_roundtrip(v: u16)
    ensures
        le_u16(le_bytes_u16(v as int), 0) == v,
{
    let b = le_bytes_u16(v as int);
    assert(b[0] == v % 256);
    assert(b[1] == (v / 256) % 256);
}

/// Reading back the four bytes that `v` is written as gives `v`.
pub proof fn lemma_u32_le_roundtrip(v: u32)
    ensures
        le_u32(le_bytes_u32(v as int), 0) == v,
{
    let b = le_bytes_u32(v as int);
    assert(b[0] == v % 256);
    assert(b[1] == (v / 256) % 256);
    assert(b[2] == (v / 65536) % 256);
    assert(b[3] == (v / 16777216) % 256);
}

/// The written samples take four bytes each, and the little-endian `u32` at
/// `4 * i` is sample `i`.
pub proof fn lemma_samples_le_bytes(samples: Seq<u32>)
    ensures
        samples_le_bytes(samples).len() == 4 * samples.len(),
        forall|i: int|
            0 <= i < samples.len() ==> #[trigger] le_u32(samples_le_bytes(samples), 4 * i) == samples[i],
    decreases samples.len(),
{
    if samples.len() > 0 {
        let init = samples.drop_last();
        lemma_samples_le_bytes(init);
        lemma_u32_le_roundtrip(samples.last());
        let bytes = samples_le_bytes(samples);
        let head = samples_le_bytes(init);
        let tail = le_bytes_u32(samples.last() as int);
        assert(bytes == head + tail);
        assert forall|i: int| 0 <= i < samples.len() implies #[trigger] le_u32(bytes, 4 * i)
            == samples[i] by {
            if i < samples.len() - 1 {
                assert(init[i] == samples[i]);
                assert(le_u32(head, 4 * i) == samples[i]);
            } else {
                assert(bytes[4 * i] == tail[0]);
                assert(bytes[4 * i + 1] == tail[1]);
                assert(bytes[4 * i + 2] == tail[2]);
                assert(bytes[4 * i + 3] == tail[3]);
            }
        }
    }
}


proof fn lemma_header_bytes(sample_rate: u32, data_len: int, b: Seq<u8>)
    requires
        0 <= data_len,
        36 + data_len <= u32::MAX,
        4 * sample_rate <= u32::MAX,
        b.len() >= 44,
        b.subrange(0, 44) == mono_f32_wav_header(sample_rate as int, data_len),
    ensures
        is_riff_wave(b),
        le_u32(b, 4) == 36 + data_len,
        is_fmt_id(b, 12),
        !is_data_id(b, 12),
        is_data_id(b, 36),
        !is_fmt_id(b, 36),
        le_u32(b, 16) == 16,
        le_u16(b, 20) == 3,
        le_u16(b, 22) == 1,
        le_u32(b, 24) == sample_rate,
        le_u32(b, 28) == 4 * sample_rate,
        le_u16(b, 32) == 4,
        le_u16(b, 34) == 32,
        le_u32(b, 40) == data_len,
{
    reveal(mono_f32_wav_header);
    let header = mono_f32_wav_header(sample_rate as int, data_len);
    let riff = le_bytes_u32(36 + data_len);
    let size_fmt = le_bytes_u32(16);
    let tag = le_bytes_u16(3);
    let ch = le_bytes_u16(1);
    let sr = le_bytes_u32(sample_rate as int);
    let rate = le_bytes_u32(4 * sample_rate);
    let align = le_bytes_u16(4);
    let bits = le_bytes_u16(32);
    let size_data = le_bytes_u32(data_len);
    let flat = seq![0x52u8, 0x49u8, 0x46u8, 0x46u8, riff[0], riff[1], riff[2], riff[3],
        0x57u8, 0x41u8, 0x56u8, 0x45u8, 0x66u8, 0x6du8, 0x74u8, 0x20u8,
        size_fmt[0], size_fmt[1], size_fmt[2], size_fmt[3], tag[0], tag[1], ch[0], ch[1],
        sr[0], sr[1], sr[2], sr[3], rate[0], rate[1], rate[2], rate[3],
        align[0], align[1], bits[0], bits[1], 0x64u8, 0x61u8, 0x74u8, 0x61u8,
        size_data[0], size_data[1], size_data[2], size_data[3]];
    assert(header =~= flat);
    assert forall|k: int| 0 <= k < 44 implies #[trigger] b[k] == flat[k] by {
        assert(b.subrange(0, 44)[k] == b[k]);
    }
    lemma_u32_le_roundtrip(16);
    lemma_u32_le_roundtrip(data_len as u32);
    lemma_u32_le_roundtrip((36 + data_len) as u32);
    lemma_u32_le_roundtrip(sample_rate);
    lemma_u32_le_roundtrip((4 * sample_rate) as u32);
    lemma_u16_le_roundtrip(3);
    lemma_u16_le_roundtrip(1);
    lemma_u16_le_roundtrip(4);
    lemma_u16_le_roundtrip(32);
}

proof fn lemma_walk_written(b: Seq<u8>, data_len: int)
    requires
        0 <= data_len,
        data_len % 2 == 0,
        b.len() == 44 + data_len,
        44 + data_len <= usize::MAX,
        is_fmt_id(b, 12),
        !is_data_id(b, 12),
        is_data_id(b, 36),
        !is_fmt_id(b, 36),
        le_u32(b, 16) == 16,
        le_u32(b, 40) == data_len,
    ensures
        wav_chunks(b) == Ok::<_, WavError>((Some((20int, 36int)), Some((44int, b.len() as int)))),
{
    let end = b.len() as int;
    assert(walk_chunks(b, end, Some((20int, 36int)), Some((44int, end)))
        == Ok::<_, WavError>((Some((20int, 36int)), Some((44int, end)))));
    assert(walk_chunks(b, 36, Some((20int, 36int)), None) == walk_chunks(
        b,
        end,
        Some((20int, 36int)),
        Some((44int, end)),
    ));
    assert(walk_chunks(b, 12, None, None) == walk_chunks(b, 36, Some((20int, 36int)), None));
}

proof fn lemma_payloads_refused(b: Seq<u8>, e: WavError)
    requires
        is_riff_wave(b),
        wav_chunks(b) == Ok::<_, WavError>((Some((20int, 36int)), Some((44int, b.len() as int)))),
        fmt_error(b.subrange(20, 36)) == Some(e),
    ensures
        wav_4ch_f32_payloads(b) == Err::<(Seq<u8>, Seq<u8>), _>(e),
{
}

/// Whether `b`, a mono 32-bit float WAV file holding `samples` at
/// `sample_rate`, reads back as written: see `lemma_mono_f32_wav_reads_back`.
pub open spec fn reads_back_as_written(b: Seq<u8>, sample_rate: u32, samples: Seq<u32>) -> bool {
    let fmt = b.subrange(20, 36);
    let data = b.subrange(44, b.len() as int);
    &&& b.len() == 44 + 4 * samples.len()
    &&& is_riff_wave(b)
    &&& wav_chunks(b) == Ok::<_, WavError>((Some((20int, 36int)), Some((44int, b.len() as int))))
    &&& le_u16(fmt, 0) == 3
    &&& le_u16(fmt, 2) == 1
    &&& le_u32(fmt, 4) == sample_rate
    &&& le_u32(fmt, 8) == 4 * sample_rate
    &&& le_u16(fmt, 12) == 4
    &&& le_u16(fmt, 14) == 32
    &&& data == samples_le_bytes(samples)
    &&& forall|i: int| 0 <= i < samples.len() ==> #[trigger] le_u32(data, 4 * i) == samples[i]
    &&& wav_4ch_f32_payloads(b) == Err::<(Seq<u8>, Seq<u8>), _>(WavError::ChannelCount(1))
}

proof fn lemma_written_bytes(sample_rate: u32, samples: Seq<u32>, b: Seq<u8>)
    requires
        4 * samples.len() + 36 <= u32::MAX,
        4 * sample_rate <= u32::MAX,
        44 + 4 * samples.len() < usize::MAX,
        b == mono_f32_wav_header(sample_rate as int, (4 * samples.len()) as int) + samples_le_bytes(samples),
    ensures
        reads_back_as_written(b, sample_rate, samples),
{
    let data_len: int = (4 * samples.len()) as int;
    let header = mono_f32_wav_header(sample_rate as int, data_len);
    let body = samples_le_bytes(samples);
    let fmt = b.subrange(20, 36);
    let data = b.subrange(44, b.len() as int);
    assert(header.len() == 44) by {
        reveal(mono_f32_wav_header);
    }
    assert(body.len() == data_len && data == body) by {
        lemma_samples_le_bytes(samples);
        assert(data =~= body);
    }
    assert(forall|i: int| 0 <= i < samples.len() ==> #[trigger] le_u32(data, 4 * i) == samples[i])
        by {
        lemma_samples_le_bytes(samples);
    }
    assert(b.subrange(0, 44) =~= header);
    lemma_header_bytes(sample_rate, data_len, b);
    lemma_walk_written(b, data_len);
    assert(le_u16(fmt, 0) == 3 && le_u16(fmt, 2) == 1 && le_u32(fmt, 4) == sample_rate && le_u32(
        fmt,
        8,
    ) == 4 * sample_rate && le_u16(fmt, 12) == 4 && le_u16(fmt, 14) == 32) by {
        assert(fmt[0] == b[20] && fmt[1] == b[21] && fmt[2] == b[22] && fmt[3] == b[23]);
        assert(fmt[4] == b[24] && fmt[5] == b[25] && fmt[6] == b[26] && fmt[7] == b[27]);
        assert(fmt[8] == b[28] && fmt[9] == b[29] && fmt[10] == b[30] && fmt[11] == b[31]);
        assert(fmt[12] == b[32] && fmt[13] == b[33] && fmt[14] == b[34] && fmt[15] == b[35]);
    }
    assert(fmt_error(fmt) == Some(WavError::ChannelCount(1)));
    lemma_payloads_refused(b, WavError::ChannelCount(1));
}

/// A written mono WAV file reads back through the RIFF framing: it has the
/// `RIFF`/`WAVE` header; walking its chunks finds exactly the 16-byte `fmt `
/// chunk at bytes 20..36 and the `data` chunk at 44..end; the fmt fields read
/// back as format tag 3, one channel, the sample rate, byte rate
/// `4 * sample_rate`, block alignment 4 and 32 bits per sample; the data chunk
/// is the samples' bytes, each sample reading back unchanged. Since it holds one
/// channel, the 4-channel reader refuses it for its channel count.
pub proof fn lemma_mono_f32_wav_reads_back(sample_rate: u32, samples: Seq<u32>)
    requires
        mono_f32_wav(sample_rate, samples) is Ok,
        44 + 4 * samples.len() < usize::MAX,
    ensures
        reads_back_as_written(mono_f32_wav(sample_rate, samples)->Ok_0, sample_rate, samples),
{
    let b = mono_f32_wav(sample_rate, samples)->Ok_0;
    lemma_written_bytes(sample_rate, samples, b);
}


/// The RIFF size field of a written file, the little-endian `u32` at byte 4,
/// counts every byte after the first eight: it is `36 + 4 * samples.len()`.
pub proof fn lemma_mono_f32_wav_riff_size(sample_rate: u32, samples: Seq<u32>)
    requires
        mono_f32_wav(sample_rate, samples) is Ok,
    ensures
        ({
            let b = mono_f32_wav(sample_rate, samples)->Ok_0;
            &&& b.len() == 44 + 4 * samples.len()
            &&& le_u32(b, 4) == b.len() - 8
            &&& le_u32(b, 4) == 36 + 4 * samples.len()
        }),
{
    let b = mono_f32_wav(sample_rate, samples)->Ok_0;
    let data_len: int = (4 * samples.len()) as int;
    let header = mono_f32_wav_header(sample_rate as int, data_len);
    let body = samples_le_bytes(samples);
    assert(header.len() == 44) by {
        reveal(mono_f32_wav_header);
    }
    lemma_samples_le_bytes(samples);
    assert(b == header + body);
    assert(b.subrange(0, 44) =~= header);
    lemma_header_bytes(sample_rate, data_len, b);
}

/// The payload ranges that a chunk walk reports lie inside the buffer.
pub proof fn lemma_walk_chunks_in_bounds(
    b: Seq<u8>,
    pos: int,
    fmt: Option<ChunkRange>,
    data: Option<ChunkRange>,
)
    requires
        fmt matches Some((s, e)) ==> 0 <= s <= e <= b.len(),
        data matches Some((s, e)) ==> 0 <= s <= e <= b.len(),
    ensures
        walk_chunks(b, pos, fmt, data) matches Ok((f, d)) ==> (f matches Some((s, e)) ==> 0 <= s
            <= e <= b.len()) && (d matches Some((s, e)) ==> 0 <= s <= e <= b.len()),
    decreases b.len() + 1 - pos,
{
    if !(pos < 0 || pos + 8 > b.len()) {
        let size = le_u32(b, pos + 4);
        let start = pos + 8;
        let end = start + size;
        if end <= usize::MAX && end <= b.len() {
            let fmt2 = if is_fmt_id(b, pos) { Some((start, end)) } else { fmt };
            let data2 = if is_data_id(b, pos) { Some((start, end)) } else { data };
            lemma_walk_chunks_in_bounds(b, end + size % 2, fmt2, data2);
        }
    }
}

/// A RIFF/WAVE buffer whose last `fmt ` chunk is at least 16 bytes long and
/// declares 4 channels, 32 bits per sample, 16-byte frames and IEEE float
/// samples (format tag 3 whatever the chunk's length beyond 16 bytes, or
/// `WAVE_FORMAT_EXTENSIBLE` with at least 40 bytes whose sub-format starts with
/// the `u32` 3, whatever the other fields and sub-format bytes hold), and whose
/// last `data` chunk holds whole 16-byte frames, is accepted, with those two
/// chunks' payloads.
pub proof fn lemma_float_wav_accepted(b: Seq<u8>, fs: int, fe: int, ds: int, de: int)
    requires
        is_riff_wave(b),
        wav_chunks(b) == Ok::<_, WavError>((Some((fs, fe)), Some((ds, de)))),
        fe - fs >= 16,
        le_u16(b, fs + 2) == 4,
        le_u16(b, fs + 14) == 32,
        le_u16(b, fs + 12) == 16,
        le_u16(b, fs) == 3 || (le_u16(b, fs) == 0xFFFE && fe - fs >= 40 && le_u32(b, fs + 24) == 3),
        (de - ds) % 16 == 0,
    ensures
        0 <= fs <= fe <= b.len(),
        0 <= ds <= de <= b.len(),
        wav_4ch_f32_payloads(b) == Ok::<_, WavError>((b.subrange(fs, fe), b.subrange(ds, de))),
{
    lemma_walk_chunks_in_bounds(b, 12, None, None);
    let fmt = b.subrange(fs, fe);
    assert(fmt[0] == b[fs] && fmt[1] == b[fs + 1] && fmt[2] == b[fs + 2] && fmt[3] == b[fs + 3]);
    assert(fmt[12] == b[fs + 12] && fmt[13] == b[fs + 13] && fmt[14] == b[fs + 14] && fmt[15]
        == b[fs + 15]);
    if le_u16(b, fs) == 0xFFFE {
        assert(fmt[24] == b[fs + 24] && fmt[25] == b[fs + 25] && fmt[26] == b[fs + 26] && fmt[27]
            == b[fs + 27]);
    }
    assert(fmt_error(fmt) is None);
}

/// A `WAVE_FORMAT_EXTENSIBLE` buffer that passes every other check but whose
/// sub-format does not start with the `u32` 3 is refused as not IEEE float:
/// with the acceptance law, an extensible stream is float exactly when that
/// `u32` is 3.
pub proof fn lemma_extensible_non_float_refused(b: Seq<u8>, fs: int, fe: int, ds: int, de: int)
    requires
        is_riff_wave(b),
        wav_chunks(b) == Ok::<_, WavError>((Some((fs, fe)), Some((ds, de)))),
        fe - fs >= 40,
        le_u16(b, fs + 2) == 4,
        le_u16(b, fs + 14) == 32,
        le_u16(b, fs + 12) == 16,
        le_u16(b, fs) == 0xFFFE,
        le_u32(b, fs + 24) != 3,
    ensures
        wav_4ch_f32_payloads(b) == Err::<(Seq<u8>, Seq<u8>), _>(WavError::NotIeeeFloat(0xFFFE)),
{
    lemma_walk_chunks_in_bounds(b, 12, None, None);
    let fmt = b.subrange(fs, fe);
    assert(fmt[0] == b[fs] && fmt[1] == b[fs + 1] && fmt[2] == b[fs + 2] && fmt[3] == b[fs + 3]);
    assert(fmt[12] == b[fs + 12] && fmt[13] == b[fs + 13] && fmt[14] == b[fs + 14] && fmt[15]
        == b[fs + 15]);
    assert(fmt[24] == b[fs + 24] && fmt[25] == b[fs + 25] && fmt[26] == b[fs + 26] && fmt[27]
        == b[fs + 27]);
    assert(fmt_error(fmt) == Some(WavError::NotIeeeFloat(0xFFFE)));
}

} // verus!
