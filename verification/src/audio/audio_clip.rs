//! What the capture and playback callbacks do to a clip.
//!
//! A device hands over interleaved blocks: one sample per channel, frame
//! after frame.  Capture keeps the first channel of each frame; playback
//! repeats one sample of the clip on every channel of a frame.
use vstd::prelude::*;

verus! {

/// A run of audio samples taken at `sample_rate` samples per second.
#[derive(Clone, Debug)]
pub struct AudioClip<T> {
    pub samples: Vec<T>,
    pub sample_rate: u32,
}

/// A clip being played: the samples and the index of the next one to play.
#[derive(Clone, Debug)]
pub struct Playback<T> {
    pub position: usize,
    pub data: Vec<T>,
}

/// Number of frames in an interleaved block of `len` samples with `nbc`
/// channels.  A last frame that is cut short still counts.
pub open spec fn block_frames(len: int, nbc: int) -> int
    recommends
        len >= 0,
        nbc > 0,
{
    len / nbc + if len % nbc == 0 {
        0int
    } else {
        1int
    }
}

/// The first sample of every frame of an interleaved block.
pub open spec fn first_channel<T>(input: Seq<T>, nbc: int) -> Seq<T>
    recommends
        nbc > 0,
{
    Seq::new(block_frames(input.len() as int, nbc) as nat, |k: int| input[k * nbc])
}

/// The sample of `data` at `position`, or `silence` behind the end of the
/// clip.
pub open spec fn sample_or_silence<T>(data: Seq<T>, position: int, silence: T) -> T {
    if 0 <= position < data.len() {
        data[position]
    } else {
        silence
    }
}

/// Every frame of a block starts inside the block.
pub proof fn lemma_frame_starts_in_block(len: int, nbc: int, k: int)
    requires
        len >= 0,
        nbc > 0,
        0 <= k < block_frames(len, nbc),
    ensures
        0 <= k * nbc < len,
{
    let q = len / nbc;
    let r = len % nbc;
    assert(len == nbc * q + r && 0 <= r < nbc) by {
        vstd::arithmetic::div_mod::lemma_fundamental_div_mod(len, nbc);
    }
    assert(0 <= k * nbc < len) by (nonlinear_arith)
        requires
            len == nbc * q + r,
            0 <= r < nbc,
            0 <= k,
            k < q + (if r == 0 { 0int } else { 1int }),
            nbc > 0,
            len >= 0,
    ;
}

/// A block has no more frames than samples.
pub proof fn lemma_block_frames_bound(len: int, nbc: int)
    requires
        len >= 0,
        nbc > 0,
    ensures
        0 <= block_frames(len, nbc) <= len,
{
    let q = len / nbc;
    let r = len % nbc;
    vstd::arithmetic::div_mod::lemma_fundamental_div_mod(len, nbc);
    assert(0 <= q && q + (if r == 0 { 0int } else { 1int }) <= len) by (nonlinear_arith)
        requires
            len == nbc * q + r,
            0 <= r < nbc,
            nbc > 0,
            len >= 0,
    ;
}

/// Every sample of a block lies in one of its frames.
pub proof fn lemma_sample_lies_in_frame(len: int, nbc: int, k: int)
    requires
        nbc > 0,
        0 <= k < len,
    ensures
        0 <= k / nbc < block_frames(len, nbc),
{
    let q = len / nbc;
    let r = len % nbc;
    let kq = k / nbc;
    let kr = k % nbc;
    vstd::arithmetic::div_mod::lemma_fundamental_div_mod(len, nbc);
    vstd::arithmetic::div_mod::lemma_fundamental_div_mod(k, nbc);
    assert(0 <= kq && kq < q + (if r == 0 { 0int } else { 1int })) by (nonlinear_arith)
        requires
            len == nbc * q + r,
            0 <= r < nbc,
            k == nbc * kq + kr,
            0 <= kr < nbc,
            0 <= k < len,
            nbc > 0,
    ;
}

impl<T: Copy> AudioClip<T> {
    /// An empty clip for samples taken at `sample_rate`.
    pub fn new(sample_rate: u32) -> (clip: Self)
        ensures
            clip.samples@.len() == 0,
            clip.sample_rate == sample_rate,
    {
        AudioClip { samples: Vec::new(), sample_rate }
    }

    /// Starts the playback of this clip at its first sample.
    pub fn playback(&self) -> (state: Playback<T>)
        ensures
            state.position == 0,
            state.data@ == self.samples@,
    {
        let mut data: Vec<T> = Vec::with_capacity(self.samples.len());
        let mut i: usize = 0;
        while i < self.samples.len()
            invariant
                i <= self.samples@.len(),
                data@ == self.samples@.take(i as int),
            decreases self.samples@.len() - i,
        {
            data.push(self.samples[i]);
            i = i + 1;
        }
        Playback { position: 0, data }
    }
}

/// Appends the first channel of the interleaved block `input`, which has
/// `nbc` channels, to `clip`.
pub fn write_input_data<T: Copy>(input: &[T], nbc: u16, clip: &mut AudioClip<T>)
    requires
        nbc > 0,
    ensures
        final(clip).sample_rate == old(clip).sample_rate,
        final(clip).samples@ == old(clip).samples@ + first_channel(input@, nbc as int),
{
    let len: usize = input.len();
    let width: usize = nbc as usize;
    proof {
        lemma_block_frames_bound(len as int, width as int);
    }
    let frames: usize = len / width + if len % width == 0 {
        0
    } else {
        1
    };
    let ghost before = clip.samples@;
    let mut k: usize = 0;
    while k < frames
        invariant
            len == input@.len(),
            width == nbc,
            width > 0,
            frames == block_frames(len as int, width as int),
            k <= frames,
            clip.sample_rate == old(clip).sample_rate,
            clip.samples@ == before + first_channel(input@, nbc as int).take(k as int),
        decreases frames - k,
    {
        proof {
            lemma_frame_starts_in_block(len as int, width as int, k as int);
        }
        clip.samples.push(input[k * width]);
        assert(first_channel(input@, nbc as int).take(k + 1) =~= first_channel(
            input@,
            nbc as int,
        ).take(k as int).push(input@[k * width]));
        k = k + 1;
    }
    assert(first_channel(input@, nbc as int).take(frames as int) =~= first_channel(
        input@,
        nbc as int,
    ));
}

/// Fills the interleaved block `output`, which has `nbc` channels, from the
/// clip being played.  Each frame takes the sample at the playing position
/// on all its channels, or `silence` once the clip has run out, and moves the
/// position one sample on.
pub fn write_output_data<T: Copy>(
    output: &mut [T],
    nbc: u16,
    state: &mut Playback<T>,
    silence: T,
)
    requires
        nbc > 0,
        old(state).position + block_frames(old(output)@.len() as int, nbc as int) <= usize::MAX,
    ensures
        final(output)@.len() == old(output)@.len(),
        forall|k: int|
            0 <= k < final(output)@.len() ==> #[trigger] final(output)@[k] == sample_or_silence(
                old(state).data@,
                old(state).position + k / (nbc as int),
                silence,
            ),
        final(state).position == old(state).position + block_frames(
            old(output)@.len() as int,
            nbc as int,
        ),
        final(state).data@ == old(state).data@,
{
    let len: usize = output.len();
    let width: usize = nbc as usize;
    let start: usize = state.position;
    let frames: usize = len / width + if len % width == 0 {
        0
    } else {
        1
    };
    let mut k: usize = 0;
    while k < len
        invariant
            len == output@.len(),
            len == old(output)@.len(),
            width == nbc,
            width > 0,
            start == old(state).position,
            state.position == start,
            state.data@ == old(state).data@,
            frames == block_frames(len as int, width as int),
            start + frames <= usize::MAX,
            k <= len,
            forall|j: int|
                0 <= j < k ==> #[trigger] output@[j] == sample_or_silence(
                    state.data@,
                    start + j / (width as int),
                    silence,
                ),
        decreases len - k,
    {
        proof {
            lemma_sample_lies_in_frame(len as int, width as int, k as int);
        }
        let at: usize = start + k / width;
        let value: T = if at < state.data.len() {
            state.data[at]
        } else {
            silence
        };
        output[k] = value;
        k = k + 1;
    }
    state.position = start + frames;
}

} // verus!
