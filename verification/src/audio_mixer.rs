//! Audio mixing and export: WAV framing, PCM samples, segment concatenation
//! and the encoder settings of MP3 export.
use vstd::prelude::*;
use crate::text::{chars_of, decimal, decimal_chars, push_all, push_str, string_from_chars};
use crate::text::string_views;

verus! {

// ============================================================================
// DATA MODELS
// ============================================================================

/// Export format.
#[derive(Debug, Clone, Copy, PartialEq, Eq, Structural)]
pub enum ExportFormat {
    /// WAV format (uncompressed)
    Wav,
    /// MP3 format (compressed)
    Mp3,
}

/// MP3 bitrate options.
#[derive(Debug, Clone, Copy, PartialEq, Eq, Structural)]
pub enum Mp3Bitrate {
    /// 128 kbps (Good quality, ~1MB/min)
    Kbps128,
    /// 192 kbps (High quality, ~1.5MB/min) - Recommended
    Kbps192,
    /// 256 kbps (Very high quality, ~2MB/min)
    Kbps256,
    /// 320 kbps (Maximum quality, ~2.5MB/min)
    Kbps320,
}

pub open spec fn bitrate_kbps(b: Mp3Bitrate) -> u32 {
    match b {
        Mp3Bitrate::Kbps128 => 128,
        Mp3Bitrate::Kbps192 => 192,
        Mp3Bitrate::Kbps256 => 256,
        Mp3Bitrate::Kbps320 => 320,
    }
}

impl Mp3Bitrate {
    /// Get bitrate value in kbps.
    pub fn kbps(&self) -> (r: u32)
        ensures
            r == bitrate_kbps(*self),
    {
        match self {
            Mp3Bitrate::Kbps128 => 128,
            Mp3Bitrate::Kbps192 => 192,
            Mp3Bitrate::Kbps256 => 256,
            Mp3Bitrate::Kbps320 => 320,
        }
    }

    /// Get display name.
    pub fn display_name(&self) -> (r: &'static str)
        ensures
            r@ == match self {
                Mp3Bitrate::Kbps128 => "128 kbps (Good)"@,
                Mp3Bitrate::Kbps192 => "192 kbps (High)"@,
                Mp3Bitrate::Kbps256 => "256 kbps (Very High)"@,
                Mp3Bitrate::Kbps320 => "320 kbps (Max)"@,
            },
    {
        match self {
            Mp3Bitrate::Kbps128 => "128 kbps (Good)",
            Mp3Bitrate::Kbps192 => "192 kbps (High)",
            Mp3Bitrate::Kbps256 => "256 kbps (Very High)",
            Mp3Bitrate::Kbps320 => "320 kbps (Max)",
        }
    }
}

/// Audio metadata.
#[derive(Debug)]
pub struct AudioMetadata {
    /// Title
    pub title: Option<String>,
    /// Artist/Author
    pub artist: Option<String>,
    /// Album
    pub album: Option<String>,
    /// Year
    pub year: Option<String>,
    /// Comment/Description
    pub comment: Option<String>,
}

impl AudioMetadata {
    /// Metadata with no fields set.
    pub fn empty() -> (r: Self)
        ensures
            r.title is None && r.artist is None && r.album is None && r.year is None
                && r.comment is None,
    {
        AudioMetadata { title: None, artist: None, album: None, year: None, comment: None }
    }
}

/// Errors that can occur during mixing.
#[derive(Debug)]
pub enum MixerError {
    /// No segments to mix
    NoSegments,
    /// Audio file not found
    FileNotFound(String),
    /// Invalid audio format
    InvalidAudioFormat(String),
    /// Mismatched audio formats
    FormatMismatch(String),
    /// I/O error
    IoError(String),
    /// Invalid WAV header
    InvalidWavHeader(String),
    /// Other error
    Other(String),
}

impl MixerError {
    /// The message the error shows.
    pub fn describe(&self) -> (r: String)
        ensures
            r@ == match self {
                MixerError::NoSegments => "No segments to mix"@,
                MixerError::FileNotFound(m) => "File not found: "@ + m@,
                MixerError::InvalidAudioFormat(m) => "Invalid audio format: "@ + m@,
                MixerError::FormatMismatch(m) => "Format mismatch: "@ + m@,
                MixerError::IoError(m) => "I/O error: "@ + m@,
                MixerError::InvalidWavHeader(m) => "Invalid WAV header: "@ + m@,
                MixerError::Other(m) => "Error: "@ + m@,
            },
    {
        let mut v = match self {
            MixerError::NoSegments => chars_of("No segments to mix"),
            MixerError::FileNotFound(_) => chars_of("File not found: "),
            MixerError::InvalidAudioFormat(_) => chars_of("Invalid audio format: "),
            MixerError::FormatMismatch(_) => chars_of("Format mismatch: "),
            MixerError::IoError(_) => chars_of("I/O error: "),
            MixerError::InvalidWavHeader(_) => chars_of("Invalid WAV header: "),
            MixerError::Other(_) => chars_of("Error: "),
        };
        match self {
            MixerError::NoSegments => {},
            MixerError::FileNotFound(m) => push_str(&mut v, m.as_str()),
            MixerError::InvalidAudioFormat(m) => push_str(&mut v, m.as_str()),
            MixerError::FormatMismatch(m) => push_str(&mut v, m.as_str()),
            MixerError::IoError(m) => push_str(&mut v, m.as_str()),
            MixerError::InvalidWavHeader(m) => push_str(&mut v, m.as_str()),
            MixerError::Other(m) => push_str(&mut v, m.as_str()),
        }
        string_from_chars(&v)
    }
}

/// The PCM layout of the audio being mixed.
#[derive(Debug, Clone, Copy, PartialEq, Eq, Structural)]
pub struct PcmFormat {
    /// Sample rate (Hz)
    pub sample_rate: u32,
    /// Number of audio channels (1 = mono, 2 = stereo)
    pub channels: u16,
    /// Bits per sample
    pub bits_per_sample: u16,
}

// ============================================================================
// LITTLE-ENDIAN FIELDS
// ============================================================================

/// The unsigned 16-bit little-endian number at `at`.
pub open spec fn le16(b: Seq<u8>, at: int) -> u16 {
    (b[at] as int + 256 * b[at + 1] as int) as u16
}

/// The unsigned 32-bit little-endian number at `at`.
pub open spec fn le32(b: Seq<u8>, at: int) -> u32 {
    (b[at] as int + 256 * b[at + 1] as int + 65536 * b[at + 2] as int + 16777216 * b[at
        + 3] as int) as u32
}

/// The little-endian bytes of a 16-bit number.
pub open spec fn le16_bytes(v: u16) -> Seq<u8> {
    seq![(v % 256) as u8, (v / 256) as u8]
}

/// The little-endian bytes of a 32-bit number.
pub open spec fn le32_bytes(v: u32) -> Seq<u8> {
    seq![(v % 256) as u8, ((v / 256) % 256) as u8, ((v / 65536) % 256) as u8, (v / 16777216) as u8]
}

pub proof fn lemma_le16_roundtrip(v: u16)
    ensures
        le16(le16_bytes(v), 0) == v,
{
    let b = le16_bytes(v);
    assert(b[0] as int + 256 * b[1] as int == v) by (nonlinear_arith)
        requires
            b[0] == (v % 256) as u8,
            b[1] == (v / 256) as u8,
            0 <= v < 65536,
    ;
}

pub proof fn lemma_le32_roundtrip(v: u32)
    ensures
        le32(le32_bytes(v), 0) == v,
{
    let b = le32_bytes(v);
    assert(b[0] as int + 256 * b[1] as int + 65536 * b[2] as int + 16777216 * b[3] as int == v)
        by (nonlinear_arith)
        requires
            b[0] == (v % 256) as u8,
            b[1] == ((v / 256) % 256) as u8,
            b[2] == ((v / 65536) % 256) as u8,
            b[3] == (v / 16777216) as u8,
            0 <= v < 0x1_0000_0000,
    ;
}

pub proof fn lemma_le16_bytes_of(b: Seq<u8>, at: int)
    requires
        0 <= at && at + 2 <= b.len(),
    ensures
        le16_bytes(le16(b, at)) == b.subrange(at, at + 2),
{
    let v = le16(b, at);
    let x0 = b[at];
    let x1 = b[at + 1];
    assert((v % 256) as u8 == x0 && (v / 256) as u8 == x1) by (nonlinear_arith)
        requires
            v == x0 as int + 256 * x1 as int,
            0 <= x0 < 256,
            0 <= x1 < 256,
    ;
    assert(le16_bytes(v) =~= b.subrange(at, at + 2));
}

pub proof fn lemma_le32_bytes_of(b: Seq<u8>, at: int)
    requires
        0 <= at && at + 4 <= b.len(),
    ensures
        le32_bytes(le32(b, at)) == b.subrange(at, at + 4),
{
    let v = le32(b, at);
    let x0 = b[at];
    let x1 = b[at + 1];
    let x2 = b[at + 2];
    let x3 = b[at + 3];
    assert((v % 256) as u8 == x0 && ((v / 256) % 256) as u8 == x1 && ((v / 65536) % 256) as u8
        == x2 && (v / 16777216) as u8 == x3) by (nonlinear_arith)
        requires
            v == x0 as int + 256 * x1 as int + 65536 * x2 as int + 16777216 * x3 as int,
            0 <= x0 < 256,
            0 <= x1 < 256,
            0 <= x2 < 256,
            0 <= x3 < 256,
    ;
    assert(le32_bytes(v) =~= b.subrange(at, at + 4));
}

fn read_le16(b: &[u8], at: usize) -> (r: u16)
    requires
        at + 2 <= b@.len(),
    ensures
        r == le16(b@, at as int),
{
    (b[at] as u16) + (b[at + 1] as u16) * 256
}

fn read_le32(b: &[u8], at: usize) -> (r: u32)
    requires
        at + 4 <= b@.len(),
    ensures
        r == le32(b@, at as int),
{
    (b[at] as u32) + (b[at + 1] as u32) * 256 + (b[at + 2] as u32) * 65536 + (b[at + 3] as u32)
        * 16777216
}

fn push_le16(out: &mut Vec<u8>, v: u16)
    ensures
        final(out)@ == old(out)@ + le16_bytes(v),
{
    out.push((v % 256) as u8);
    out.push((v / 256) as u8);
    assert(out@ =~= old(out)@ + le16_bytes(v));
}

fn push_le32(out: &mut Vec<u8>, v: u32)
    ensures
        final(out)@ == old(out)@ + le32_bytes(v),
{
    out.push((v % 256) as u8);
    out.push(((v / 256) % 256) as u8);
    out.push(((v / 65536) % 256) as u8);
    out.push((v / 16777216) as u8);
    assert(out@ =~= old(out)@ + le32_bytes(v));
}

fn push_tag(out: &mut Vec<u8>, tag: &[u8; 4])
    ensures
        final(out)@ == old(out)@ + tag@,
{
    out.push(tag[0]);
    out.push(tag[1]);
    out.push(tag[2]);
    out.push(tag[3]);
    assert(out@ =~= old(out)@ + tag@);
}

// ============================================================================
// WAV FILE STRUCTURES
// ============================================================================

/// `RIFF`
pub open spec fn riff_tag() -> Seq<u8> {
    seq![0x52u8, 0x49u8, 0x46u8, 0x46u8]
}

/// `WAVE`
pub open spec fn wave_tag() -> Seq<u8> {
    seq![0x57u8, 0x41u8, 0x56u8, 0x45u8]
}

/// `fmt `
pub open spec fn fmt_tag() -> Seq<u8> {
    seq![0x66u8, 0x6du8, 0x74u8, 0x20u8]
}

/// `data`
pub open spec fn data_tag() -> Seq<u8> {
    seq![0x64u8, 0x61u8, 0x74u8, 0x61u8]
}

/// WAV file header (44 bytes).
#[derive(Debug, Clone, Copy)]
pub struct WavHeader {
    /// "RIFF"
    pub riff: [u8; 4],
    /// File size - 8
    pub file_size: u32,
    /// "WAVE"
    pub wave: [u8; 4],
    /// "fmt "
    pub fmt_id: [u8; 4],
    /// Chunk size (16 for PCM)
    pub fmt_size: u32,
    /// 1 = PCM
    pub audio_format: u16,
    /// Number of channels
    pub channels: u16,
    /// Sample rate
    pub sample_rate: u32,
    /// sample_rate * channels * bits_per_sample / 8
    pub byte_rate: u32,
    /// channels * bits_per_sample / 8
    pub block_align: u16,
    /// Bits per sample
    pub bits_per_sample: u16,
    /// "data"
    pub data_id: [u8; 4],
    /// Data size in bytes
    pub data_size: u32,
}

/// The four chunk identifiers are `RIFF`, `WAVE`, `fmt ` and `data`.
pub open spec fn well_tagged(h: WavHeader) -> bool {
    &&& h.riff@ == riff_tag()
    &&& h.wave@ == wave_tag()
    &&& h.fmt_id@ == fmt_tag()
    &&& h.data_id@ == data_tag()
}

/// The 44 bytes of a header, fields in order, numbers little-endian.
pub open spec fn header_bytes(h: WavHeader) -> Seq<u8> {
    h.riff@ + le32_bytes(h.file_size) + h.wave@ + h.fmt_id@ + le32_bytes(h.fmt_size) + le16_bytes(
        h.audio_format,
    ) + le16_bytes(h.channels) + le32_bytes(h.sample_rate) + le32_bytes(h.byte_rate) + le16_bytes(
        h.block_align,
    ) + le16_bytes(h.bits_per_sample) + h.data_id@ + le32_bytes(h.data_size)
}

/// The header that the first 44 bytes of `b` hold.
pub open spec fn header_in(b: Seq<u8>, h: WavHeader) -> bool {
    &&& h.riff@ == b.subrange(0, 4)
    &&& h.file_size == le32(b, 4)
    &&& h.wave@ == b.subrange(8, 12)
    &&& h.fmt_id@ == b.subrange(12, 16)
    &&& h.fmt_size == le32(b, 16)
    &&& h.audio_format == le16(b, 20)
    &&& h.channels == le16(b, 22)
    &&& h.sample_rate == le32(b, 24)
    &&& h.byte_rate == le32(b, 28)
    &&& h.block_align == le16(b, 32)
    &&& h.bits_per_sample == le16(b, 34)
    &&& h.data_id@ == b.subrange(36, 40)
    &&& h.data_size == le32(b, 40)
}

/// Why the first bytes of a file are no WAV header, if they are not.
pub open spec fn header_problem(b: Seq<u8>) -> Option<Seq<char>> {
    if b.len() < 44 {
        Some("File too short"@)
    } else if b.subrange(0, 4) != riff_tag() {
        Some("Missing RIFF identifier"@)
    } else if b.subrange(8, 12) != wave_tag() {
        Some("Missing WAVE identifier"@)
    } else if b.subrange(12, 16) != fmt_tag() {
        Some("Missing fmt chunk"@)
    } else if b.subrange(36, 40) != data_tag() {
        Some("Missing data chunk"@)
    } else {
        None
    }
}

fn tag_at(b: &[u8], at: usize) -> (r: [u8; 4])
    requires
        at + 4 <= b@.len(),
    ensures
        r@ == b@.subrange(at as int, at + 4),
{
    let r = [b[at], b[at + 1], b[at + 2], b[at + 3]];
    assert(r@ =~= b@.subrange(at as int, at + 4));
    r
}

fn tag_is(b: &[u8], at: usize, t0: u8, t1: u8, t2: u8, t3: u8) -> (r: bool)
    requires
        at + 4 <= b@.len(),
    ensures
        r == (b@.subrange(at as int, at + 4) == seq![t0, t1, t2, t3]),
{
    let r = b[at] == t0 && b[at + 1] == t1 && b[at + 2] == t2 && b[at + 3] == t3;
    proof {
        if r {
            assert(b@.subrange(at as int, at + 4) =~= seq![t0, t1, t2, t3]);
        } else {
            if b@.subrange(at as int, at + 4) == seq![t0, t1, t2, t3] {
                assert(b@.subrange(at as int, at + 4)[0] == t0);
                assert(b@.subrange(at as int, at + 4)[1] == t1);
                assert(b@.subrange(at as int, at + 4)[2] == t2);
                assert(b@.subrange(at as int, at + 4)[3] == t3);
            }
        }
    }
    r
}

impl WavHeader {
    /// Create a new WAV header for PCM data of `data_size` bytes.
    pub fn new(format: &PcmFormat, data_size: u32) -> (r: Self)
        requires
            format.sample_rate as int * format.channels as int <= u32::MAX,
            format.sample_rate as int * format.channels as int * format.bits_per_sample as int
                <= u32::MAX,
            format.channels as int * format.bits_per_sample as int <= u16::MAX,
            data_size as int + 36 <= u32::MAX,
        ensures
            well_tagged(r),
            r.file_size == 36 + data_size,
            r.fmt_size == 16,
            r.audio_format == 1,
            r.channels == format.channels,
            r.sample_rate == format.sample_rate,
            r.byte_rate == (format.sample_rate as int * format.channels as int
                * format.bits_per_sample as int / 8) as u32,
            r.block_align == (format.channels as int * format.bits_per_sample as int / 8) as u16,
            r.bits_per_sample == format.bits_per_sample,
            r.data_size == data_size,
    {
        let rc = format.sample_rate * format.channels as u32;
        assert(rc as int * format.bits_per_sample as int == format.sample_rate as int
            * format.channels as int * format.bits_per_sample as int);
        let byte_rate = rc * format.bits_per_sample as u32 / 8;
        let block_align = format.channels * format.bits_per_sample / 8;
        let r = WavHeader {
            riff: [0x52, 0x49, 0x46, 0x46],
            file_size: 36 + data_size,
            wave: [0x57, 0x41, 0x56, 0x45],
            fmt_id: [0x66, 0x6d, 0x74, 0x20],
            fmt_size: 16,
            audio_format: 1,
            channels: format.channels,
            sample_rate: format.sample_rate,
            byte_rate,
            block_align,
            bits_per_sample: format.bits_per_sample,
            data_id: [0x64, 0x61, 0x74, 0x61],
            data_size,
        };
        assert(r.riff@ =~= riff_tag());
        assert(r.wave@ =~= wave_tag());
        assert(r.fmt_id@ =~= fmt_tag());
        assert(r.data_id@ =~= data_tag());
        r
    }

    /// Parse a WAV header from the first 44 bytes, after checking the length
    /// and the four chunk identifiers.
    pub fn from_bytes(bytes: &[u8]) -> (r: Result<Self, MixerError>)
        ensures
            match header_problem(bytes@) {
                Some(msg) => r matches Err(MixerError::InvalidWavHeader(m)) && m@ == msg,
                None => r matches Ok(h) && header_in(bytes@, h) && well_tagged(h),
            },
    {
        if bytes.len() < 44 {
            return Err(MixerError::InvalidWavHeader("File too short".to_owned()));
        }
        if !tag_is(bytes, 0, 0x52, 0x49, 0x46, 0x46) {
            return Err(MixerError::InvalidWavHeader("Missing RIFF identifier".to_owned()));
        }
        if !tag_is(bytes, 8, 0x57, 0x41, 0x56, 0x45) {
            return Err(MixerError::InvalidWavHeader("Missing WAVE identifier".to_owned()));
        }
        if !tag_is(bytes, 12, 0x66, 0x6d, 0x74, 0x20) {
            return Err(MixerError::InvalidWavHeader("Missing fmt chunk".to_owned()));
        }
        if !tag_is(bytes, 36, 0x64, 0x61, 0x74, 0x61) {
            return Err(MixerError::InvalidWavHeader("Missing data chunk".to_owned()));
        }
        Ok(
            WavHeader {
                riff: tag_at(bytes, 0),
                file_size: read_le32(bytes, 4),
                wave: tag_at(bytes, 8),
                fmt_id: tag_at(bytes, 12),
                fmt_size: read_le32(bytes, 16),
                audio_format: read_le16(bytes, 20),
                channels: read_le16(bytes, 22),
                sample_rate: read_le32(bytes, 24),
                byte_rate: read_le32(bytes, 28),
                block_align: read_le16(bytes, 32),
                bits_per_sample: read_le16(bytes, 34),
                data_id: tag_at(bytes, 36),
                data_size: read_le32(bytes, 40),
            },
        )
    }

    /// The 44 bytes of the header as a WAV file holds them.
    pub fn to_bytes(&self) -> (r: Vec<u8>)
        ensures
            r@ == header_bytes(*self),
            r@.len() == 44,
    {
        let mut out: Vec<u8> = Vec::new();
        push_tag(&mut out, &self.riff);
        push_le32(&mut out, self.file_size);
        push_tag(&mut out, &self.wave);
        push_tag(&mut out, &self.fmt_id);
        push_le32(&mut out, self.fmt_size);
        push_le16(&mut out, self.audio_format);
        push_le16(&mut out, self.channels);
        push_le32(&mut out, self.sample_rate);
        push_le32(&mut out, self.byte_rate);
        push_le16(&mut out, self.block_align);
        push_le16(&mut out, self.bits_per_sample);
        push_tag(&mut out, &self.data_id);
        push_le32(&mut out, self.data_size);
        out
    }
}


// ============================================================================
// HEADER LAWS
// ============================================================================

/// Writing a header and reading it back gives the same fields, and a header
/// with the four chunk identifiers is accepted by the reader.
pub proof fn lemma_header_written_then_read(h: WavHeader)
    ensures
        header_bytes(h).len() == 44,
        header_in(header_bytes(h), h),
        well_tagged(h) ==> header_problem(header_bytes(h)) is None,
{
    let b = header_bytes(h);
    assert(b.subrange(0, 4) =~= h.riff@);
    assert(b.subrange(4, 8) =~= le32_bytes(h.file_size));
    assert(b.subrange(8, 12) =~= h.wave@);
    assert(b.subrange(12, 16) =~= h.fmt_id@);
    assert(b.subrange(16, 20) =~= le32_bytes(h.fmt_size));
    assert(b.subrange(20, 22) =~= le16_bytes(h.audio_format));
    assert(b.subrange(22, 24) =~= le16_bytes(h.channels));
    assert(b.subrange(24, 28) =~= le32_bytes(h.sample_rate));
    assert(b.subrange(28, 32) =~= le32_bytes(h.byte_rate));
    assert(b.subrange(32, 34) =~= le16_bytes(h.block_align));
    assert(b.subrange(34, 36) =~= le16_bytes(h.bits_per_sample));
    assert(b.subrange(36, 40) =~= h.data_id@);
    assert(b.subrange(40, 44) =~= le32_bytes(h.data_size));
    lemma_le32_roundtrip(h.file_size);
    lemma_le32_roundtrip(h.fmt_size);
    lemma_le16_roundtrip(h.audio_format);
    lemma_le16_roundtrip(h.channels);
    lemma_le32_roundtrip(h.sample_rate);
    lemma_le32_roundtrip(h.byte_rate);
    lemma_le16_roundtrip(h.block_align);
    lemma_le16_roundtrip(h.bits_per_sample);
    lemma_le32_roundtrip(h.data_size);
    assert(le32(b, 4) == le32(b.subrange(4, 8), 0));
    assert(le32(b, 16) == le32(b.subrange(16, 20), 0));
    assert(le16(b, 20) == le16(b.subrange(20, 22), 0));
    assert(le16(b, 22) == le16(b.subrange(22, 24), 0));
    assert(le32(b, 24) == le32(b.subrange(24, 28), 0));
    assert(le32(b, 28) == le32(b.subrange(28, 32), 0));
    assert(le16(b, 32) == le16(b.subrange(32, 34), 0));
    assert(le16(b, 34) == le16(b.subrange(34, 36), 0));
    assert(le32(b, 40) == le32(b.subrange(40, 44), 0));
}

/// The header read from the start of a file writes back as exactly the first
/// 44 bytes of that file.
pub proof fn lemma_header_read_then_written(b: Seq<u8>, h: WavHeader)
    requires
        b.len() >= 44,
        header_in(b, h),
    ensures
        header_bytes(h) == b.subrange(0, 44),
{
    lemma_le32_bytes_of(b, 4);
    lemma_le32_bytes_of(b, 16);
    lemma_le16_bytes_of(b, 20);
    lemma_le16_bytes_of(b, 22);
    lemma_le32_bytes_of(b, 24);
    lemma_le32_bytes_of(b, 28);
    lemma_le16_bytes_of(b, 32);
    lemma_le16_bytes_of(b, 34);
    lemma_le32_bytes_of(b, 40);
    assert(b.subrange(0, 44) =~= b.subrange(0, 4) + b.subrange(4, 8) + b.subrange(8, 12)
        + b.subrange(12, 16) + b.subrange(16, 20) + b.subrange(20, 22) + b.subrange(22, 24)
        + b.subrange(24, 28) + b.subrange(28, 32) + b.subrange(32, 34) + b.subrange(34, 36)
        + b.subrange(36, 40) + b.subrange(40, 44));
}

/// The audio of a WAV file's bytes: what follows the 44-byte header.
pub open spec fn wav_audio(b: Seq<u8>) -> Seq<u8> {
    if b.len() < 44 {
        Seq::empty()
    } else {
        b.subrange(44, b.len() as int)
    }
}

/// The bytes are a sound WAV file whose channels, sample rate and bits per
/// sample are those of `format`.
pub open spec fn wav_matches(b: Seq<u8>, format: PcmFormat) -> bool {
    &&& header_problem(b) is None
    &&& le16(b, 22) == format.channels
    &&& le32(b, 24) == format.sample_rate
    &&& le16(b, 34) == format.bits_per_sample
}

/// A segment file was read and is a WAV file of `format`.
pub open spec fn file_usable(f: Result<Vec<u8>, MixerError>, format: PcmFormat) -> bool {
    f matches Ok(b) && wav_matches(b@, format)
}

/// The error a segment file fails with: the error reading it, or what
/// reading its audio against `format` gives.
pub open spec fn file_failure(f: Result<Vec<u8>, MixerError>, format: PcmFormat, e: MixerError) -> bool {
    match f {
        Err(read_error) => e == read_error,
        Ok(b) => wav_audio_result(b@, format, Err(e)),
    }
}

/// The audio of each segment file (nothing for one that was not read).
pub open spec fn files_audio(files: Seq<Result<Vec<u8>, MixerError>>) -> Seq<Seq<u8>> {
    files.map_values(
        |f: Result<Vec<u8>, MixerError>|
            match f {
                Ok(b) => wav_audio(b@),
                Err(_) => Seq::empty(),
            },
    )
}

/// The bytes of each segment file (nothing for one that was not read).
pub open spec fn files_bytes(files: Seq<Result<Vec<u8>, MixerError>>) -> Seq<Seq<u8>> {
    files.map_values(
        |f: Result<Vec<u8>, MixerError>|
            match f {
                Ok(b) => b@,
                Err(_) => Seq::empty(),
            },
    )
}

/// `e` is the failure of the first segment file that cannot be used: every
/// file before it is usable.
pub open spec fn first_failure(files: Seq<Result<Vec<u8>, MixerError>>, format: PcmFormat, e: MixerError) -> bool {
    exists|i: int|
        0 <= i < files.len() && (forall|j: int| 0 <= j < i ==> file_usable(#[trigger] files[j], format))
            && !file_usable(#[trigger] files[i], format) && file_failure(files[i], format, e)
}

proof fn lemma_audio_within_bytes(files: Seq<Result<Vec<u8>, MixerError>>)
    ensures
        total_len(files_audio(files)) <= total_len(files_bytes(files)),
    decreases files.len(),
{
    if files.len() > 0 {
        let d = files.drop_last();
        lemma_audio_within_bytes(d);
        assert(files_audio(files).drop_last() =~= files_audio(d));
        assert(files_bytes(files).drop_last() =~= files_bytes(d));
        assert(files_audio(files).last().len() <= files_bytes(files).last().len());
    }
}

// ============================================================================
// AUDIO MIXER
// ============================================================================

/// "`label` mismatch: expected `expected`, got `got`".
pub open spec fn mismatch_message(label: Seq<char>, expected: nat, got: nat) -> Seq<char> {
    label + " mismatch: expected "@ + decimal(expected) + ", got "@ + decimal(got)
}

/// `n` zero bytes: silence in signed PCM.
pub open spec fn zeros(n: nat) -> Seq<u8> {
    Seq::new(n, |i: int| 0u8)
}

/// The segments in order, with `gap` zero bytes between consecutive ones
/// and none after the last.
pub open spec fn joined(segs: Seq<Seq<u8>>, gap: nat) -> Seq<u8>
    decreases segs.len(),
{
    if segs.len() == 0 {
        Seq::empty()
    } else if segs.len() == 1 {
        segs[0]
    } else {
        joined(segs.drop_last(), gap) + zeros(gap) + segs.last()
    }
}

/// The total length of the segments.
pub open spec fn total_len(segs: Seq<Seq<u8>>) -> nat
    decreases segs.len(),
{
    if segs.len() == 0 {
        0
    } else {
        total_len(segs.drop_last()) + segs.last().len()
    }
}

/// The mix holds every segment and a gap between each two: its length is
/// the segments' total plus one gap fewer than there are segments.
pub proof fn lemma_joined_len(segs: Seq<Seq<u8>>, gap: nat)
    requires
        segs.len() >= 1,
    ensures
        joined(segs, gap).len() == total_len(segs) + (segs.len() - 1) * gap,
    decreases segs.len(),
{
    if segs.len() > 1 {
        let d = segs.drop_last();
        lemma_joined_len(d, gap);
        let k = d.len() as int;
        assert((k - 1) * gap + gap == k * gap) by (nonlinear_arith);
    } else {
        assert(segs.drop_last().len() == 0);
        assert(total_len(segs.drop_last()) == 0);
    }
}

/// The bytes of each buffer.
pub open spec fn byte_views(v: Seq<Vec<u8>>) -> Seq<Seq<u8>> {
    v.map_values(|b: Vec<u8>| b@)
}

/// The outcome of reading the audio of a WAV file's bytes against `format`:
/// the header problem, a format mismatch (channels, then sample rate, then
/// bits per sample), or the bytes after the 44-byte header.
pub open spec fn wav_audio_result(b: Seq<u8>, format: PcmFormat, r: Result<Vec<u8>, MixerError>) -> bool {
    match header_problem(b) {
        Some(msg) => r matches Err(MixerError::InvalidWavHeader(m)) && m@ == msg,
        None => if le16(b, 22) != format.channels {
            r matches Err(MixerError::FormatMismatch(m)) && m@ == mismatch_message(
                "Channel"@,
                format.channels as nat,
                le16(b, 22) as nat,
            )
        } else if le32(b, 24) != format.sample_rate {
            r matches Err(MixerError::FormatMismatch(m)) && m@ == mismatch_message(
                "Sample rate"@,
                format.sample_rate as nat,
                le32(b, 24) as nat,
            )
        } else if le16(b, 34) != format.bits_per_sample {
            r matches Err(MixerError::FormatMismatch(m)) && m@ == mismatch_message(
                "Bits per sample"@,
                format.bits_per_sample as nat,
                le16(b, 34) as nat,
            )
        } else {
            r matches Ok(v) && v@ == b.subrange(44, b.len() as int)
        },
    }
}

/// `b` is a PCM WAV file of `format` holding `audio`: a header written by
/// [`WavHeader::new`] for `audio.len()` data bytes, then the audio.
pub open spec fn pcm_wav_file(b: Seq<u8>, format: PcmFormat, audio: Seq<u8>) -> bool {
    &&& b.len() == 44 + audio.len()
    &&& b.subrange(0, 4) == riff_tag()
    &&& le32(b, 4) == 36 + audio.len()
    &&& b.subrange(8, 12) == wave_tag()
    &&& b.subrange(12, 16) == fmt_tag()
    &&& le32(b, 16) == 16
    &&& le16(b, 20) == 1
    &&& le16(b, 22) == format.channels
    &&& le32(b, 24) == format.sample_rate
    &&& le32(b, 28) == (format.sample_rate as int * format.channels as int
        * format.bits_per_sample as int / 8) as u32
    &&& le16(b, 32) == (format.channels as int * format.bits_per_sample as int / 8) as u16
    &&& le16(b, 34) == format.bits_per_sample
    &&& b.subrange(36, 40) == data_tag()
    &&& le32(b, 40) == audio.len()
    &&& b.subrange(44, b.len() as int) == audio
}

/// The arithmetic of [`WavHeader::new`] stays within its field types.
pub open spec fn header_fits(format: PcmFormat, data_len: int) -> bool {
    &&& format.sample_rate as int * format.channels as int <= u32::MAX
    &&& format.sample_rate as int * format.channels as int * format.bits_per_sample as int
        <= u32::MAX
    &&& format.channels as int * format.bits_per_sample as int <= u16::MAX
    &&& data_len + 36 <= u32::MAX
}

/// A WAV file written for some audio reads back as that audio, with the
/// format it was written for.
pub proof fn lemma_written_file_reads_back(
    b: Seq<u8>,
    format: PcmFormat,
    audio: Seq<u8>,
    r: Result<Vec<u8>, MixerError>,
)
    requires
        pcm_wav_file(b, format, audio),
        wav_audio_result(b, format, r),
    ensures
        r matches Ok(v) && v@ == audio,
{
}

/// Audio mixer.
pub struct AudioMixer;

fn mismatch(label: &str, expected: u64, got: u64) -> (r: String)
    ensures
        r@ == mismatch_message(label@, expected as nat, got as nat),
{
    let mut v = chars_of(label);
    push_str(&mut v, " mismatch: expected ");
    let e = decimal_chars(expected);
    push_all(&mut v, &e);
    push_str(&mut v, ", got ");
    let g = decimal_chars(got);
    push_all(&mut v, &g);
    string_from_chars(&v)
}

fn push_bytes(out: &mut Vec<u8>, src: &[u8])
    ensures
        final(out)@ == old(out)@ + src@,
{
    let mut k: usize = 0;
    while k < src.len()
        invariant
            0 <= k <= src.len(),
            out@ == old(out)@ + src@.take(k as int),
        decreases src.len() - k,
    {
        out.push(src[k]);
        k = k + 1;
        assert(src@.take(k as int) =~= src@.take(k - 1).push(src@[k - 1]));
    }
    assert(src@.take(k as int) =~= src@);
}

fn push_zeros(out: &mut Vec<u8>, n: usize)
    ensures
        final(out)@ == old(out)@ + zeros(n as nat),
{
    let mut k: usize = 0;
    while k < n
        invariant
            0 <= k <= n,
            out@ == old(out)@ + zeros(k as nat),
        decreases n - k,
    {
        out.push(0u8);
        k = k + 1;
        assert(zeros(k as nat) =~= zeros((k - 1) as nat).push(0u8));
    }
}

fn tail_from(b: &[u8], from: usize) -> (r: Vec<u8>)
    requires
        from <= b@.len(),
    ensures
        r@ == b@.subrange(from as int, b@.len() as int),
{
    let mut r: Vec<u8> = Vec::new();
    let mut k: usize = from;
    while k < b.len()
        invariant
            from <= k <= b@.len(),
            r@ == b@.subrange(from as int, k as int),
        decreases b.len() - k,
    {
        r.push(b[k]);
        k = k + 1;
        assert(r@ =~= b@.subrange(from as int, k as int));
    }
    r
}

impl AudioMixer {
    /// Create a new audio mixer.
    pub fn new() -> (r: Self) {
        AudioMixer
    }

    /// The audio data of a WAV file's bytes: the header is checked, its
    /// channels, sample rate and bits per sample must match `format`, and the
    /// bytes after the 44-byte header are returned.
    pub fn read_wav_data(file_data: &[u8], format: &PcmFormat) -> (r: Result<Vec<u8>, MixerError>)
        ensures
            wav_audio_result(file_data@, *format, r),
    {
        let header = match WavHeader::from_bytes(file_data) {
            Ok(h) => h,
            Err(e) => return Err(e),
        };
        if header.channels != format.channels {
            return Err(
                MixerError::FormatMismatch(
                    mismatch("Channel", format.channels as u64, header.channels as u64),
                ),
            );
        }
        if header.sample_rate != format.sample_rate {
            return Err(
                MixerError::FormatMismatch(
                    mismatch("Sample rate", format.sample_rate as u64, header.sample_rate as u64),
                ),
            );
        }
        if header.bits_per_sample != format.bits_per_sample {
            return Err(
                MixerError::FormatMismatch(
                    mismatch(
                        "Bits per sample",
                        format.bits_per_sample as u64,
                        header.bits_per_sample as u64,
                    ),
                ),
            );
        }
        Ok(tail_from(file_data, 44))
    }

    /// The number of bytes of `samples` silent samples.
    pub fn silence_byte_count(samples: usize, format: &PcmFormat) -> (r: usize)
        requires
            samples as int * format.channels as int <= usize::MAX,
            samples as int * format.channels as int * (format.bits_per_sample / 8) as int
                <= usize::MAX,
        ensures
            r == samples as int * format.channels as int * (format.bits_per_sample / 8) as int,
    {
        let bytes_per_sample = (format.bits_per_sample / 8) as usize;
        samples * (format.channels as usize) * bytes_per_sample
    }

    /// Concatenate the segments' audio in order, with `silence_bytes` zero
    /// bytes between consecutive segments (none after the last).
    pub fn join_segments(&self, segments: &Vec<Vec<u8>>, silence_bytes: usize) -> (r: Result<
        Vec<u8>,
        MixerError,
    >)
        ensures
            segments.len() == 0 ==> r matches Err(MixerError::NoSegments),
            segments.len() > 0 ==> (r matches Ok(v) && v@ == joined(
                byte_views(segments@),
                silence_bytes as nat,
            )),
    {
        if segments.len() == 0 {
            return Err(MixerError::NoSegments);
        }
        let ghost segs = byte_views(segments@);
        let mut out: Vec<u8> = Vec::new();
        push_bytes(&mut out, segments[0].as_slice());
        assert(segs.take(1).drop_last() =~= Seq::<Seq<u8>>::empty());
        assert(out@ == joined(segs.take(1), silence_bytes as nat));
        let mut i: usize = 1;
        while i < segments.len()
            invariant
                1 <= i <= segments.len(),
                segs == byte_views(segments@),
                out@ == joined(segs.take(i as int), silence_bytes as nat),
            decreases segments.len() - i,
        {
            push_zeros(&mut out, silence_bytes);
            push_bytes(&mut out, segments[i].as_slice());
            assert(segs.take(i + 1).drop_last() =~= segs.take(i as int));
            i = i + 1;
        }
        assert(segs.take(i as int) =~= segs);
        Ok(out)
    }

    /// The bytes of a PCM WAV file of `format` holding `audio`.
    pub fn wav_file_bytes(format: &PcmFormat, audio: &[u8]) -> (r: Vec<u8>)
        requires
            header_fits(*format, audio@.len() as int),
        ensures
            pcm_wav_file(r@, *format, audio@),
    {
        let h = WavHeader::new(format, audio.len() as u32);
        let mut out = h.to_bytes();
        proof {
            lemma_header_written_then_read(h);
        }
        let ghost hb = out@;
        push_bytes(&mut out, audio);
        proof {
            let b = out@;
            assert(b.subrange(0, 44) == hb.subrange(0, 44));
            assert(b.subrange(0, 4) =~= hb.subrange(0, 4));
            assert(b.subrange(8, 12) =~= hb.subrange(8, 12));
            assert(b.subrange(12, 16) =~= hb.subrange(12, 16));
            assert(b.subrange(36, 40) =~= hb.subrange(36, 40));
            assert(b.subrange(44, b.len() as int) =~= audio@);
        }
        out
    }

    /// The audio of each segment file, in order: every file must have been
    /// read and be a WAV file of `format`; otherwise the failure of the first
    /// file that is not.
    pub fn read_all_audio(files: Vec<Result<Vec<u8>, MixerError>>, format: &PcmFormat) -> (r: Result<
        Vec<Vec<u8>>,
        MixerError,
    >)
        ensures
            r is Ok <==> forall|i: int| 0 <= i < files.len() ==> file_usable(#[trigger] files@[i], *format),
            r matches Ok(v) ==> byte_views(v@) == files_audio(files@),
            r matches Err(e) ==> first_failure(files@, *format, e),
    {
        let ghost orig = files@;
        let total = files.len();
        let mut rest = files;
        let mut out: Vec<Vec<u8>> = Vec::new();
        let mut i: usize = 0;
        while rest.len() > 0
            invariant
                orig == files@,
                orig.len() == total,
                i + rest@.len() == orig.len(),
                rest@ == orig.skip(i as int),
                forall|j: int| 0 <= j < i ==> file_usable(#[trigger] orig[j], *format),
                byte_views(out@) == files_audio(orig.take(i as int)),
            decreases rest.len(),
        {
            let f = rest.remove(0);
            assert(f == orig[i as int]);
            match f {
                Err(e) => {
                    assert(file_failure(orig[i as int], *format, e));
                    assert(!file_usable(orig[i as int], *format));
                    assert(first_failure(orig, *format, e));
                    return Err(e);
                },
                Ok(b) => {
                    match Self::read_wav_data(b.as_slice(), format) {
                        Err(e) => {
                            assert(!file_usable(orig[i as int], *format));
                            assert(file_failure(orig[i as int], *format, e));
                            assert(first_failure(orig, *format, e));
                            return Err(e);
                        },
                        Ok(a) => {
                            assert(file_usable(orig[i as int], *format));
                            let ghost before = out@;
                            out.push(a);
                            assert(files_audio(orig.take(i + 1)) =~= files_audio(orig.take(i as int)).push(
                                wav_audio(b@),
                            ));
                            assert(byte_views(out@) =~= byte_views(before).push(a@));
                        },
                    }
                },
            }
            i = i + 1;
            assert(rest@ =~= orig.skip(i as int));
        }
        assert(orig.take(i as int) =~= orig);
        Ok(out)
    }

    /// The WAV file of a mix: the audio of the segment files in order, with
    /// `silence_bytes` zero bytes between consecutive ones, in `format`. It
    /// fails with `NoSegments` when there are no files, else with the
    /// failure of the first file that was not read or is not a WAV file of
    /// `format`. The sizes must fit the WAV header's 32-bit fields.
    pub fn mix_wav_images(
        &self,
        files: Vec<Result<Vec<u8>, MixerError>>,
        format: &PcmFormat,
        silence_bytes: usize,
    ) -> (r: Result<Vec<u8>, MixerError>)
        requires
            header_fits(*format, total_len(files_bytes(files@)) + files.len() * silence_bytes),
        ensures
            files.len() == 0 ==> r matches Err(MixerError::NoSegments),
            files.len() > 0 ==> (r is Ok <==> forall|i: int|
                0 <= i < files.len() ==> file_usable(#[trigger] files@[i], *format)),
            files.len() > 0 ==> (r matches Ok(w) ==> pcm_wav_file(
                w@,
                *format,
                joined(files_audio(files@), silence_bytes as nat),
            )),
            files.len() > 0 ==> (r matches Err(e) ==> first_failure(files@, *format, e)),
    {
        if files.len() == 0 {
            return Err(MixerError::NoSegments);
        }
        let ghost orig = files@;
        let n = files.len();
        let audios = match Self::read_all_audio(files, format) {
            Ok(a) => a,
            Err(e) => return Err(e),
        };
        assert(byte_views(audios@).len() == audios@.len());
        assert(files_audio(orig).len() == orig.len());
        let mixed = match self.join_segments(&audios, silence_bytes) {
            Ok(m) => m,
            Err(e) => return Err(e),
        };
        proof {
            let segs = files_audio(orig);
            lemma_joined_len(segs, silence_bytes as nat);
            lemma_audio_within_bytes(orig);
            assert((n - 1) * silence_bytes <= n * silence_bytes) by (nonlinear_arith)
                requires
                    n >= 1,
            ;
        }
        Ok(Self::wav_file_bytes(format, mixed.as_slice()))
    }

    /// The encoder arguments of MP3 export, between the input file and the
    /// output file: codec, bitrate, quality, then an ID3 tag for each metadata
    /// field that is set and the encoder tag.
    pub fn mp3_encoder_args(bitrate: Mp3Bitrate, metadata: &AudioMetadata) -> (r: Vec<String>)
        ensures
            string_views(r@) == mp3_args(bitrate, *metadata),
    {
        let mut out: Vec<String> = Vec::new();
        out.push("-codec:a".to_owned());
        out.push("libmp3lame".to_owned());
        out.push("-b:a".to_owned());
        let mut rate = decimal_chars(bitrate.kbps() as u64);
        rate.push('k');
        proof {
            reveal_strlit("k");
            assert(rate@ =~= decimal(bitrate_kbps(bitrate) as nat) + "k"@);
        }
        out.push(string_from_chars(&rate));
        out.push("-qscale:a".to_owned());
        out.push("2".to_owned());
        proof {
            reveal_strlit("k");
            assert(string_views(out@) =~= base_args(bitrate));
        }
        push_tag_arg(&mut out, "title", &metadata.title);
        push_tag_arg(&mut out, "artist", &metadata.artist);
        push_tag_arg(&mut out, "album", &metadata.album);
        push_tag_arg(&mut out, "year", &metadata.year);
        push_tag_arg(&mut out, "comment", &metadata.comment);
        let ghost before = string_views(out@);
        out.push("-metadata".to_owned());
        out.push("encoded_by=MoFA Cast v0.6.2".to_owned());
        assert(string_views(out@) =~= before + seq!["-metadata"@, "encoded_by=MoFA Cast v0.6.2"@]);
        out
    }
}

/// Codec, bitrate and quality arguments.
pub open spec fn base_args(bitrate: Mp3Bitrate) -> Seq<Seq<char>> {
    seq![
        "-codec:a"@,
        "libmp3lame"@,
        "-b:a"@,
        decimal(bitrate_kbps(bitrate) as nat) + "k"@,
        "-qscale:a"@,
        "2"@,
    ]
}

/// `-metadata key=value` when the field is set.
pub open spec fn tag_args(key: Seq<char>, value: Option<String>) -> Seq<Seq<char>> {
    match value {
        Some(v) => seq!["-metadata"@, key + "="@ + v@],
        None => Seq::empty(),
    }
}

/// All encoder arguments of MP3 export.
pub open spec fn mp3_args(bitrate: Mp3Bitrate, m: AudioMetadata) -> Seq<Seq<char>> {
    base_args(bitrate) + tag_args("title"@, m.title) + tag_args("artist"@, m.artist) + tag_args(
        "album"@,
        m.album,
    ) + tag_args("year"@, m.year) + tag_args("comment"@, m.comment) + seq![
        "-metadata"@,
        "encoded_by=MoFA Cast v0.6.2"@,
    ]
}

fn push_tag_arg(out: &mut Vec<String>, key: &str, value: &Option<String>)
    ensures
        string_views(final(out)@) == string_views(old(out)@) + tag_args(key@, *value),
{
    match value {
        Some(v) => {
            out.push("-metadata".to_owned());
            let mut a = chars_of(key);
            a.push('=');
            push_str(&mut a, v.as_str());
            proof {
                reveal_strlit("=");
                assert(a@ =~= key@ + "="@ + v@);
            }
            out.push(string_from_chars(&a));
            assert(string_views(out@) =~= string_views(old(out)@) + tag_args(key@, *value));
        },
        None => {
            assert(string_views(out@) =~= string_views(old(out)@) + tag_args(key@, *value));
        },
    }
}

// ============================================================================
// 16-BIT PCM SAMPLES
// ============================================================================

/// The signed 16-bit little-endian samples of `b`; a trailing odd byte is no
/// sample.
pub open spec fn pcm16_samples(b: Seq<u8>) -> Seq<i16> {
    Seq::new(b.len() / 2, |i: int| le16(b, 2 * i) as i16)
}

/// The little-endian bytes of signed 16-bit samples.
pub open spec fn pcm16_bytes(s: Seq<i16>) -> Seq<u8> {
    Seq::new(
        2 * s.len(),
        |k: int|
            if k % 2 == 0 {
                ((s[k / 2] as u16) % 256) as u8
            } else {
                ((s[k / 2] as u16) / 256) as u8
            },
    )
}

proof fn lemma_i16_u16(v: u16, s: i16)
    ensures
        ((v as i16) as u16) == v,
        ((s as u16) as i16) == s,
{
    assert(((v as i16) as u16) == v) by (bit_vector);
    assert(((s as u16) as i16) == s) by (bit_vector);
}

/// Decoding samples and encoding them again gives back the bytes, but for a
/// trailing odd byte.
pub proof fn lemma_pcm16_decode_encode(b: Seq<u8>)
    ensures
        pcm16_bytes(pcm16_samples(b)) == b.take((2 * (b.len() / 2)) as int),
{
    let s = pcm16_samples(b);
    let e = pcm16_bytes(s);
    assert forall|k: int| 0 <= k < e.len() implies e[k] == b[k] by {
        let i = k / 2;
        let v = le16(b, 2 * i);
        lemma_i16_u16(v, s[i]);
        lemma_le16_bytes_of(b, 2 * i);
        assert(le16_bytes(v)[0] == b[2 * i] && le16_bytes(v)[1] == b[2 * i + 1]);
    }
    assert(e =~= b.take((2 * (b.len() / 2)) as int));
}

/// Encoding samples and decoding the bytes gives back the samples.
pub proof fn lemma_pcm16_encode_decode(s: Seq<i16>)
    ensures
        pcm16_samples(pcm16_bytes(s)) == s,
{
    let e = pcm16_bytes(s);
    let d = pcm16_samples(e);
    assert forall|i: int| 0 <= i < s.len() implies d[i] == s[i] by {
        let u = s[i] as u16;
        lemma_i16_u16(u, s[i]);
        lemma_le16_roundtrip(u);
        assert(e[2 * i] == le16_bytes(u)[0]);
        assert(e[2 * i + 1] == le16_bytes(u)[1]);
        assert(le16(e, 2 * i) == le16(le16_bytes(u), 0));
    }
    assert(d =~= s);
}

impl AudioMixer {
    /// The signed 16-bit little-endian samples of PCM audio bytes (a trailing
    /// odd byte is ignored).
    pub fn decode_pcm16(audio_data: &[u8]) -> (r: Vec<i16>)
        ensures
            r@ == pcm16_samples(audio_data@),
    {
        let n = audio_data.len() / 2;
        let mut r: Vec<i16> = Vec::new();
        let mut i: usize = 0;
        while i < n
            invariant
                0 <= i <= n,
                n == audio_data@.len() / 2,
                audio_data@.len() <= usize::MAX,
                r@ == pcm16_samples(audio_data@).take(i as int),
            decreases n - i,
        {
            let v = read_le16(audio_data, 2 * i);
            r.push(#[verifier::truncate] (v as i16));
            i = i + 1;
            assert(r@ =~= pcm16_samples(audio_data@).take(i as int));
        }
        assert(r@ =~= pcm16_samples(audio_data@));
        r
    }

    /// The little-endian bytes of signed 16-bit samples.
    pub fn encode_pcm16(samples: &[i16]) -> (r: Vec<u8>)
        ensures
            r@ == pcm16_bytes(samples@),
    {
        let mut r: Vec<u8> = Vec::new();
        let mut i: usize = 0;
        while i < samples.len()
            invariant
                0 <= i <= samples@.len(),
                r@ == pcm16_bytes(samples@).take(2 * i),
            decreases samples.len() - i,
        {
            let u = #[verifier::truncate] (samples[i] as u16);
            r.push((u % 256) as u8);
            r.push((u / 256) as u8);
            i = i + 1;
            assert(r@ =~= pcm16_bytes(samples@).take(2 * i));
        }
        assert(r@ =~= pcm16_bytes(samples@));
        r
    }
}

} // verus!
