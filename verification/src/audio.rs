//! Audio chunks: 16-bit little-endian PCM samples, and their WAV encoding.
use vstd::prelude::*;

verus! {

/// The sample encoded by two bytes, least significant first, in two's complement.
pub open spec fn le_sample(lo: u8, hi: u8) -> int {
    if hi < 128 {
        lo + 256 * hi
    } else {
        lo + 256 * hi - 65536
    }
}

/// The samples of a 16-bit little-endian PCM buffer; a trailing odd byte is ignored.
pub open spec fn pcm_samples(bytes: Seq<u8>) -> Seq<i16> {
    Seq::new(bytes.len() / 2, |i: int| le_sample(bytes[2 * i], bytes[2 * i + 1]) as i16)
}

/// The samples of `pcm_s16le`, two bytes each (as `i16::from_le_bytes` on `chunks_exact(2)`).
pub fn decode_pcm_s16le(pcm_s16le: &Vec<u8>) -> (res: Vec<i16>)
    ensures
        res@ == pcm_samples(pcm_s16le@),
        forall|i: int| 0 <= i < res.len() ==> #[trigger] res@[i] as int == le_sample(
            pcm_s16le@[2 * i],
            pcm_s16le@[2 * i + 1],
        ),
{
    let n = pcm_s16le.len() / 2;
    let mut out: Vec<i16> = Vec::new();
    let mut i: usize = 0;
    while i < n
        invariant
            i <= n == pcm_s16le.len() / 2,
            out.len() == i,
            forall|j: int| 0 <= j < i ==> #[trigger] out@[j] as int == le_sample(
                pcm_s16le@[2 * j],
                pcm_s16le@[2 * j + 1],
            ),
        decreases n - i,
    {
        let lo = pcm_s16le[2 * i];
        let hi = pcm_s16le[2 * i + 1];
        let v: i32 = (lo as i32) + 256 * (hi as i32);
        let s: i16 = if v >= 32768 {
            (v - 65536) as i16
        } else {
            v as i16
        };
        out.push(s);
        i += 1;
    }
    assert(out@ =~= pcm_samples(pcm_s16le@));
    out
}

/// The two bytes of `x`, least significant first, for `0 <= x < 65536`.
pub open spec fn le16(x: int) -> Seq<u8> {
    seq![(x % 256) as u8, ((x / 256) % 256) as u8]
}

/// The four bytes of `x`, least significant first, for `0 <= x < 2^32`.
pub open spec fn le32(x: int) -> Seq<u8> {
    seq![
        (x % 256) as u8,
        ((x / 256) % 256) as u8,
        ((x / 65536) % 256) as u8,
        ((x / 16777216) % 256) as u8,
    ]
}

/// The two bytes of a sample, its two's complement least significant first.
pub open spec fn sample_bytes(x: i16) -> Seq<u8> {
    le16(
        if x < 0 {
            x + 65536
        } else {
            x as int
        },
    )
}

/// The samples one after another, two bytes each.
pub open spec fn samples_bytes(samples: Seq<i16>) -> Seq<u8> {
    Seq::new(2 * samples.len(), |i: int| sample_bytes(samples[i / 2])[i % 2])
}

/// The 44-byte header of a WAV file of one channel of 16-bit integer samples at
/// `sample_rate`, holding `data_len` bytes of samples: the `RIFF` chunk of `36 + data_len`
/// bytes and form `WAVE`, the 16-byte `fmt ` chunk (format 1, one channel, the rate, the
/// byte rate, block align 2, 16 bits), and the head of the `data` chunk.
pub open spec fn wav_header(sample_rate: u32, data_len: int) -> Seq<u8> {
    seq![0x52u8, 0x49, 0x46, 0x46] + le32(36 + data_len) + seq![0x57u8, 0x41, 0x56, 0x45]
        + seq![0x66u8, 0x6d, 0x74, 0x20] + le32(16) + le16(1) + le16(1) + le32(sample_rate as int)
        + le32(2 * sample_rate) + le16(2) + le16(16) + seq![0x64u8, 0x61, 0x74, 0x61] + le32(
        data_len,
    )
}

/// The WAV file of `samples` as one channel of 16-bit integers at `sample_rate`.
pub open spec fn wav_file(samples: Seq<i16>, sample_rate: u32) -> Seq<u8> {
    wav_header(sample_rate, 2 * samples.len() as int) + samples_bytes(samples)
}

/// Calls `hound::WavWriter::new` (one channel, 16-bit integers) on an in-memory cursor, then
/// `write_sample` for each sample and `finalize`, and returns the written bytes: the
/// PCMWAVEFORMAT header and the samples as `wav_file` lays them out. Writing to memory does
/// not fail, the sample width matches the format, and one channel leaves no sample
/// unfinished, so it succeeds. The writer divides by the rate (so it must not be 0), and the
/// header's byte-rate and length fields are `u32`, which the bounds keep from overflowing.
#[verifier::external_body]
fn encode_wav(samples: &Vec<i16>, sample_rate: u32) -> (res: Result<Vec<u8>, String>)
    requires
        sample_rate > 0,
        sample_rate as int * 2 <= u32::MAX,
        samples.len() * 2 + 36 <= u32::MAX,
    ensures
        res is Ok,
        res matches Ok(b) ==> b@ == wav_file(samples@, sample_rate),
{
    let spec = hound::WavSpec {
        channels: 1,
        sample_rate,
        bits_per_sample: 16,
        sample_format: hound::SampleFormat::Int,
    };
    let mut cursor = std::io::Cursor::new(Vec::new());
    let mut writer = hound::WavWriter::new(&mut cursor, spec).map_err(|e| e.to_string())?;
    for s in samples.iter() {
        writer.write_sample(*s).map_err(|e| e.to_string())?;
    }
    writer.finalize().map_err(|e| e.to_string())?;
    Ok(cursor.into_inner())
}

/// A WAV file holding the samples of `pcm_s16le` as one channel at `sample_rate`.
pub fn pcm_to_wav_bytes(pcm_s16le: &Vec<u8>, sample_rate: u32) -> (res: Result<Vec<u8>, String>)
    requires
        sample_rate > 0,
        sample_rate as int * 2 <= u32::MAX,
        pcm_s16le.len() / 2 * 2 + 36 <= u32::MAX,
    ensures
        res is Ok,
        res matches Ok(b) ==> b@ == wav_file(pcm_samples(pcm_s16le@), sample_rate),
        res matches Ok(b) ==> b@.len() == 44 + 2 * (pcm_s16le.len() / 2),
{
    let samples = decode_pcm_s16le(pcm_s16le);
    let res = encode_wav(&samples, sample_rate);
    proof {
        law_wav_reads_back(pcm_s16le@, sample_rate);
    }
    res
}

/// The little-endian 16-bit number at `at` in `bytes`.
pub open spec fn u16_at(bytes: Seq<u8>, at: int) -> int {
    bytes[at] + 256 * bytes[at + 1]
}

/// The little-endian 32-bit number at `at` in `bytes`.
pub open spec fn u32_at(bytes: Seq<u8>, at: int) -> int {
    bytes[at] + 256 * bytes[at + 1] + 65536 * bytes[at + 2] + 16777216 * bytes[at + 3]
}

proof fn lemma_le32_reads_back(x: int)
    requires
        0 <= x < 0x1_0000_0000,
    ensures
        u32_at(le32(x), 0) == x,
        le16(x).len() == 2,
        x < 65536 ==> u16_at(le16(x), 0) == x,
{
    let b = le32(x);
    assert(b[0] == x % 256 && b[1] == (x / 256) % 256 && b[2] == (x / 65536) % 256 && b[3] == (x
        / 16777216) % 256);
    assert((x % 256) + 256 * ((x / 256) % 256) + 65536 * ((x / 65536) % 256) + 16777216 * ((x
        / 16777216) % 256) == x) by (nonlinear_arith)
        requires
            0 <= x < 0x1_0000_0000,
    ;
    if x < 65536 {
        let c = le16(x);
        assert(c[0] == x % 256 && c[1] == (x / 256) % 256);
        assert((x % 256) + 256 * ((x / 256) % 256) == x) by (nonlinear_arith)
            requires
                0 <= x < 65536,
        ;
    }
}

proof fn lemma_sample_bytes_of_pair(lo: u8, hi: u8)
    ensures
        sample_bytes(le_sample(lo, hi) as i16) == seq![lo, hi],
{
    let v = le_sample(lo, hi);
    assert(-32768 <= v < 32768);
    let x = v as i16;
    assert(x as int == v);
    let u = lo + 256 * hi;
    assert(u % 256 == lo && (u / 256) % 256 == hi) by (nonlinear_arith)
        requires
            u == lo + 256 * hi,
            0 <= lo < 256,
            0 <= hi < 256,
    ;
    assert(sample_bytes(x) =~= seq![lo, hi]);
}

/// Reading back the WAV file of a PCM buffer gives one channel of 16-bit samples at the
/// rate it was written with, its data chunk is the PCM bytes themselves (without a trailing
/// odd byte), and each 16-bit number in it is the corresponding decoded sample.
pub proof fn law_wav_reads_back(pcm: Seq<u8>, sample_rate: u32)
    requires
        sample_rate as int * 2 <= u32::MAX,
        pcm.len() / 2 * 2 + 36 <= u32::MAX,
    ensures
        ({
            let w = wav_file(pcm_samples(pcm), sample_rate);
            let n = (pcm.len() / 2) as int;
            &&& w.len() == 44 + 2 * n
            &&& u32_at(w, 4) == 36 + 2 * n
            &&& u16_at(w, 20) == 1
            &&& u16_at(w, 22) == 1
            &&& u32_at(w, 24) == sample_rate
            &&& u32_at(w, 28) == 2 * sample_rate
            &&& u16_at(w, 32) == 2
            &&& u16_at(w, 34) == 16
            &&& u32_at(w, 40) == 2 * n
            &&& w.subrange(44, w.len() as int) == pcm.take(2 * n)
            &&& forall|i: int|
                0 <= i < n ==> le_sample(w[44 + 2 * i], w[45 + 2 * i]) as i16 == #[trigger] pcm_samples(
                    pcm,
                )[i]
        }),
{
    let samples = pcm_samples(pcm);
    let n = (pcm.len() / 2) as int;
    let w = wav_file(samples, sample_rate);
    let h = wav_header(sample_rate, 2 * n);
    lemma_le32_reads_back(36 + 2 * n);
    lemma_le32_reads_back(16);
    lemma_le32_reads_back(1);
    lemma_le32_reads_back(2);
    lemma_le32_reads_back(sample_rate as int);
    lemma_le32_reads_back(2 * sample_rate);
    lemma_le32_reads_back(2 * n);
    assert(h.len() == 44);
    assert(h.subrange(4, 8) =~= le32(36 + 2 * n));
    assert(h.subrange(20, 22) =~= le16(1));
    assert(h.subrange(22, 24) =~= le16(1));
    assert(h.subrange(24, 28) =~= le32(sample_rate as int));
    assert(h.subrange(28, 32) =~= le32(2 * sample_rate));
    assert(h.subrange(32, 34) =~= le16(2));
    assert(h.subrange(34, 36) =~= le16(16));
    assert(h.subrange(40, 44) =~= le32(2 * n));
    let data = samples_bytes(samples);
    assert forall|k: int| 0 <= k < 2 * n implies #[trigger] data[k] == pcm[k] by {
        let j = k / 2;
        lemma_sample_bytes_of_pair(pcm[2 * j], pcm[2 * j + 1]);
        assert(samples[j] == le_sample(pcm[2 * j], pcm[2 * j + 1]) as i16);
    }
    assert(w.subrange(44, w.len() as int) =~= data);
    assert(data =~= pcm.take(2 * n));
    assert forall|i: int| 0 <= i < n implies le_sample(w[44 + 2 * i], w[45 + 2 * i]) as i16
        == #[trigger] pcm_samples(pcm)[i] by {
        assert(w[44 + 2 * i] == data[2 * i]);
        assert(w[45 + 2 * i] == data[2 * i + 1]);
    }
}

} // verus!
