//! Filling the buffers of a playback stream with the samples of a sound,
//! frame by frame, as the audio server asks for them.
use vstd::prelude::*;

verus! {

/// Sample rate, in frames per second, at which sounds are played.
pub const DEFAULT_RATE: u32 = 44100;

/// Number of interleaved channels in every played buffer.
pub const DEFAULT_CHANNELS: u32 = 2;

/// Size in bytes of one sample of one channel (a signed 16-bit integer).
pub const CHAN_SIZE: usize = 2;

/// A sound to play: interleaved signed 16-bit samples, and the name of the
/// target it is meant for.
#[derive(Debug, Clone)]
pub struct PlayBuf {
    pub target: String,
    pub buf: Vec<i16>,
}

/// The chunk header of one data block of a buffer: where the valid bytes
/// start, the stride between frames, and how many bytes are valid.
#[derive(PartialEq, Eq, Structural, Debug, Clone, Copy)]
pub struct Chunk {
    pub offset: u32,
    pub stride: i32,
    pub size: u32,
}

/// One data block of a buffer that the audio server handed out: its mapped
/// bytes (`None` when it has no memory mapped) and its chunk header.
pub struct DataBuf {
    pub bytes: Option<Vec<u8>>,
    pub chunk: Chunk,
}

/// What a [`DataBuf`] holds.
pub struct DataBufView {
    pub bytes: Option<Seq<u8>>,
    pub chunk: Chunk,
}

impl View for DataBuf {
    type V = DataBufView;

    open spec fn view(&self) -> DataBufView {
        DataBufView {
            bytes: match self.bytes {
                Some(b) => Some(b@),
                None => None,
            },
            chunk: self.chunk,
        }
    }
}

/// Whether a call found the sound still playing or already played out.
#[derive(PartialEq, Eq, Structural, Debug, Clone, Copy)]
pub enum FillStatus {
    /// The buffers were filled from the sound.
    Filled,
    /// The cursor had run past the end of the sound: the buffers were
    /// silenced.
    Exhausted,
}

/// The bits of a sample read as an unsigned 16-bit number (two's complement).
pub open spec fn sample_bits(v: i16) -> int {
    if v < 0 {
        v + 0x10000
    } else {
        v as int
    }
}

/// The little-endian encoding of a sequence of samples: two bytes per
/// sample, low byte first.
pub open spec fn le_bytes(s: Seq<i16>) -> Seq<u8> {
    Seq::new(
        2 * s.len(),
        |j: int|
            if j % 2 == 0 {
                (sample_bits(s[j / 2]) % 0x100) as u8
            } else {
                (sample_bits(s[j / 2]) / 0x100) as u8
            },
    )
}

/// The number of frames that a block of `len` bytes holds, as the player
/// counts them: one per sample-sized piece.
pub open spec fn frames_of(len: nat) -> nat {
    len / (CHAN_SIZE as nat)
}

/// The index one past the last sample copied into a block of `len` bytes
/// when playing from `cursor`.
pub open spec fn copy_end(n_samples: nat, cursor: nat, len: nat) -> nat {
    if cursor + frames_of(len) < n_samples {
        cursor + frames_of(len)
    } else {
        n_samples
    }
}

/// The bytes of a block after it was filled from `samples` at `cursor`: the
/// encoding of the samples from `cursor` on, as many as the block has
/// frames or as are left, then the block's former bytes.
pub open spec fn filled_bytes(samples: Seq<i16>, cursor: nat, b: Seq<u8>) -> Seq<u8> {
    let enc = le_bytes(samples.subrange(cursor as int, copy_end(samples.len(), cursor, b.len()) as int));
    enc + b.skip(enc.len() as int)
}

/// The frames that a data block announces.
pub open spec fn data_frames(d: DataBufView) -> nat {
    match d.bytes {
        Some(b) => frames_of(b.len()),
        None => 0,
    }
}

/// A data block after it was filled from `samples` at `cursor`.
pub open spec fn filled_data(samples: Seq<i16>, cursor: nat, d: DataBufView) -> DataBufView {
    DataBufView {
        bytes: match d.bytes {
            Some(b) => Some(filled_bytes(samples, cursor, b)),
            None => None,
        },
        chunk: Chunk {
            offset: 0,
            stride: DEFAULT_CHANNELS as i32,
            size: (DEFAULT_CHANNELS * data_frames(d)) as u32,
        },
    }
}

/// A data block after it was silenced: every mapped byte zero, the chunk
/// header untouched.
pub open spec fn silenced_data(d: DataBufView) -> DataBufView {
    DataBufView {
        bytes: match d.bytes {
            Some(b) => Some(Seq::new(b.len(), |j: int| 0u8)),
            None => None,
        },
        chunk: d.chunk,
    }
}

/// The cursor after a fill of `datas` from `cursor`: it advances by the
/// frames of the last block.
pub open spec fn cursor_after(cursor: nat, datas: Seq<DataBufView>) -> nat {
    if datas.len() == 0 {
        cursor
    } else {
        cursor + data_frames(datas.last())
    }
}

/// The blocks of a buffer, by their views.
pub open spec fn datas_view(datas: Seq<DataBuf>) -> Seq<DataBufView> {
    datas.map_values(|d: DataBuf| d@)
}

/// No block makes the cursor overflow when its frames are added to it.
pub open spec fn cursor_fits(cursor: nat, datas: Seq<DataBuf>) -> bool {
    forall|i: int| 0 <= i < datas.len() ==> cursor + data_frames(#[trigger] datas[i]@) <= usize::MAX
}

/// The encoding of two adjacent runs of samples is the encoding of the run
/// that they make up together.
proof fn lemma_le_bytes_split(s: Seq<i16>, a: int, b: int, c: int)
    requires
        0 <= a <= b <= c <= s.len(),
    ensures
        le_bytes(s.subrange(a, b)) + le_bytes(s.subrange(b, c)) == le_bytes(s.subrange(a, c)),
{
    let x = le_bytes(s.subrange(a, b));
    let y = le_bytes(s.subrange(b, c));
    let z = le_bytes(s.subrange(a, c));
    assert forall|j: int| 0 <= j < z.len() implies (x + y)[j] == z[j] by {
        if j < x.len() {
            assert(j / 2 < b - a);
        } else {
            let q = j - x.len();
            assert(x.len() == 2 * (b - a));
            assert(q / 2 == j / 2 - (b - a));
            assert(q % 2 == j % 2);
        }
    }
    assert(x + y =~= z);
}

/// Law: the little-endian encoding loses nothing: two runs of samples with
/// the same encoding are the same run.
pub proof fn law_le_bytes_injective(a: Seq<i16>, b: Seq<i16>)
    requires
        le_bytes(a) == le_bytes(b),
    ensures
        a == b,
{
    assert(le_bytes(a).len() == 2 * a.len());
    assert(le_bytes(b).len() == 2 * b.len());
    assert(a.len() == b.len());
    assert forall|k: int| 0 <= k < a.len() implies a[k] == b[k] by {
        assert(le_bytes(a)[2 * k] == le_bytes(b)[2 * k]);
        assert(le_bytes(a)[2 * k + 1] == le_bytes(b)[2 * k + 1]);
        assert((2 * k) / 2 == k && (2 * k) % 2 == 0);
        assert((2 * k + 1) / 2 == k && (2 * k + 1) % 2 == 1);
        let u = sample_bits(a[k]);
        let v = sample_bits(b[k]);
        assert(0 <= u < 0x10000 && 0 <= v < 0x10000);
        assert(0 <= u / 0x100 < 0x100 && 0 <= v / 0x100 < 0x100);
        assert(le_bytes(a)[2 * k] == (u % 0x100) as u8);
        assert(le_bytes(b)[2 * k] == (v % 0x100) as u8);
        assert(le_bytes(a)[2 * k + 1] == (u / 0x100) as u8);
        assert(le_bytes(b)[2 * k + 1] == (v / 0x100) as u8);
        assert(u % 0x100 == v % 0x100);
        assert(u / 0x100 == v / 0x100);
        assert(u == (u / 0x100) * 0x100 + u % 0x100);
        assert(v == (v / 0x100) * 0x100 + v % 0x100);
        assert(u == v);
    }
    assert(a =~= b);
}

/// Law: two fills in a row of a single block each play the sound on without
/// gap or repeat: the samples that the first writes, followed by those that
/// the second writes from the cursor the first left, are the encoding of
/// one unbroken run of the sound. `first` and `second` are the blocks'
/// former bytes; the first fill must leave the cursor inside the sound.
pub proof fn law_consecutive_fills(samples: Seq<i16>, cursor: nat, first: Seq<u8>, second: Seq<u8>)
    requires
        cursor + frames_of(first.len()) <= samples.len(),
    ensures
        ({
            let next = cursor + frames_of(first.len());
            let end = copy_end(samples.len(), next, second.len());
            filled_bytes(samples, cursor, first).take(2 * (next - cursor))
                + filled_bytes(samples, next, second).take(2 * (end - next))
                == le_bytes(samples.subrange(cursor as int, end as int))
        }),
{
    let next = cursor + frames_of(first.len());
    let end = copy_end(samples.len(), next, second.len());
    assert(copy_end(samples.len(), cursor, first.len()) == next);
    let e1 = le_bytes(samples.subrange(cursor as int, next as int));
    let e2 = le_bytes(samples.subrange(next as int, end as int));
    assert(filled_bytes(samples, cursor, first).take(2 * (next - cursor)) =~= e1);
    assert(filled_bytes(samples, next, second).take(2 * (end - next)) =~= e2);
    lemma_le_bytes_split(samples, cursor as int, next as int, end as int);
}

/// The two little-endian bytes of a sample.
pub fn sample_to_le_bytes(v: i16) -> (r: (u8, u8))
    ensures
        r.0 == sample_bits(v) % 0x100,
        r.1 == sample_bits(v) / 0x100,
{
    let bits: u32 = if v < 0 {
        (v as i32 + 0x10000) as u32
    } else {
        v as u32
    };
    ((bits % 0x100) as u8, (bits / 0x100) as u8)
}

/// Fills `bytes` from `samples` at `cursor` and returns the number of frames
/// the block holds.
fn fill_bytes(samples: &[i16], cursor: usize, bytes: &mut Vec<u8>) -> (frames: usize)
    requires
        cursor <= samples@.len(),
        cursor + frames_of(old(bytes)@.len()) <= usize::MAX,
    ensures
        frames == frames_of(old(bytes)@.len()),
        2 * frames <= usize::MAX,
        final(bytes)@ == filled_bytes(samples@, cursor as nat, old(bytes)@),
{
    let n_frames = bytes.len() / CHAN_SIZE;
    let end = if n_frames + cursor < samples.len() {
        n_frames + cursor
    } else {
        samples.len()
    };
    let ghost old_bytes = bytes@;
    let ghost enc = le_bytes(samples@.subrange(cursor as int, end as int));
    let mut k: usize = cursor;
    while k < end
        invariant
            cursor <= k <= end,
            end <= samples@.len(),
            end - cursor <= n_frames,
            n_frames == old_bytes.len() / 2,
            2 * n_frames <= bytes@.len(),
            bytes@.len() == old_bytes.len(),
            enc == le_bytes(samples@.subrange(cursor as int, end as int)),
            forall|j: int| 0 <= j < 2 * (k - cursor) ==> #[trigger] bytes@[j] == enc[j],
            forall|j: int| 2 * (k - cursor) <= j < bytes@.len() ==> #[trigger] bytes@[j] == old_bytes[j],
        decreases end - k,
    {
        let (lo, hi) = sample_to_le_bytes(samples[k]);
        assert(bytes@.len() == bytes.len());
        let at = 2 * (k - cursor);
        bytes.set(at, lo);
        bytes.set(at + 1, hi);
        proof {
            let s = samples@.subrange(cursor as int, end as int);
            assert(s[(k - cursor) as int] == samples@[k as int]);
            assert((at as int) / 2 == k - cursor);
            assert((at + 1) / 2 == k - cursor);
            assert(enc[at as int] == lo);
            assert(enc[at + 1] == hi);
        }
        k = k + 1;
    }
    assert(bytes@ =~= enc + old_bytes.skip(enc.len() as int));
    n_frames
}

/// Sets every byte of `bytes` to zero.
fn silence_bytes(bytes: &mut Vec<u8>)
    ensures
        final(bytes)@ == Seq::new(old(bytes)@.len(), |j: int| 0u8),
{
    let mut k: usize = 0;
    while k < bytes.len()
        invariant
            k <= bytes@.len(),
            bytes@.len() == old(bytes)@.len(),
            forall|j: int| 0 <= j < k ==> bytes@[j] == 0u8,
        decreases bytes@.len() - k,
    {
        bytes.set(k, 0u8);
        k = k + 1;
    }
    assert(bytes@ =~= Seq::new(old(bytes)@.len(), |j: int| 0u8));
}

/// Answers the audio server's request for more audio. `samples` is the
/// sound, `cursor` the index of the next sample to play, `datas` the blocks
/// of the buffer to fill.
///
/// When the cursor lies past the end of the sound, every mapped block is
/// silenced and nothing else changes. Otherwise every mapped block gets the
/// samples from the cursor on, as many as it has frames or as are left,
/// every block's chunk header announces its whole length, and the cursor
/// advances by the frames of the last block.
pub fn fill_buffers(samples: &[i16], cursor: &mut usize, datas: &mut Vec<DataBuf>) -> (status: FillStatus)
    requires
        cursor_fits(*old(cursor) as nat, old(datas)@),
    ensures
        final(datas)@.len() == old(datas)@.len(),
        *old(cursor) > samples@.len() ==> {
            &&& status == FillStatus::Exhausted
            &&& *final(cursor) == *old(cursor)
            &&& forall|i: int| 0 <= i < old(datas)@.len() ==>
                #[trigger] final(datas)@[i]@ == silenced_data(old(datas)@[i]@)
        },
        *old(cursor) <= samples@.len() ==> {
            &&& status == FillStatus::Filled
            &&& *final(cursor) == cursor_after(*old(cursor) as nat, datas_view(old(datas)@))
            &&& forall|i: int| 0 <= i < old(datas)@.len() ==>
                #[trigger] final(datas)@[i]@ == filled_data(samples@, *old(cursor) as nat, old(datas)@[i]@)
        },
{
    let ghost before = datas@;
    let start = *cursor;
    let n = datas.len();
    if start > samples.len() {
        let mut i: usize = 0;
        while i < n
            invariant
                n == before.len(),
                datas@.len() == n,
                i <= n,
                forall|k: int| 0 <= k < i ==> #[trigger] datas@[k]@ == silenced_data(before[k]@),
                forall|k: int| i <= k < n ==> #[trigger] datas@[k] == before[k],
            decreases n - i,
        {
            let mut d = DataBuf { bytes: None, chunk: Chunk { offset: 0, stride: 0, size: 0 } };
            datas.set_and_swap(i, &mut d);
            let DataBuf { bytes, chunk } = d;
            let bytes = match bytes {
                Some(mut b) => {
                    silence_bytes(&mut b);
                    Some(b)
                },
                None => None,
            };
            datas.set(i, DataBuf { bytes, chunk });
            i = i + 1;
        }
        return FillStatus::Exhausted;
    }
    let mut n_frames: usize = 0;
    let mut i: usize = 0;
    while i < n
        invariant
            n == before.len(),
            datas@.len() == n,
            i <= n,
            start <= samples@.len(),
            cursor_fits(start as nat, before),
            i == 0 ==> n_frames == 0,
            i > 0 ==> n_frames == data_frames(before[i - 1]@),
            forall|k: int| 0 <= k < i ==> #[trigger] datas@[k]@ == filled_data(samples@, start as nat, before[k]@),
            forall|k: int| i <= k < n ==> #[trigger] datas@[k] == before[k],
        decreases n - i,
    {
        let mut d = DataBuf { bytes: None, chunk: Chunk { offset: 0, stride: 0, size: 0 } };
        datas.set_and_swap(i, &mut d);
        assert(d == before[i as int]);
        assert(start + data_frames(before[i as int]@) <= usize::MAX);
        let DataBuf { bytes, chunk } = d;
        let (bytes, frames) = match bytes {
            Some(mut b) => {
                let f = fill_bytes(samples, start, &mut b);
                (Some(b), f)
            },
            None => (None, 0),
        };
        n_frames = frames;
        let stride = DEFAULT_CHANNELS as usize;
        assert(2 * n_frames <= usize::MAX);
        let chunk = Chunk {
            offset: 0,
            stride: stride as i32,
            size: #[verifier::truncate] ((stride * n_frames) as u32),
        };
        datas.set(i, DataBuf { bytes, chunk });
        i = i + 1;
    }
    proof {
        if n > 0 {
            assert(datas_view(before).last() == before[n - 1]@);
        }
    }
    *cursor = start + n_frames;
    FillStatus::Filled
}

} // verus!
