//! Silence detection and trimming over a recording cut into frames. Whether
//! a frame is loud (its energy against a threshold) is measured by the
//! caller; what follows from those answers is decided here.

use vstd::prelude::*;

verus! {

/// How much loud audio (ms) makes a recording count as speech.
pub const MIN_SPEECH_MS: u32 = 300;

/// The length (ms) of one analysis frame.
pub const FRAME_MS: u32 = 30;

/// The loud frames that make a recording count as speech:
/// `MIN_SPEECH_MS / FRAME_MS`, and at least one.
pub open spec fn spec_min_speech_frames() -> int {
    if MIN_SPEECH_MS / FRAME_MS >= 1 {
        (MIN_SPEECH_MS / FRAME_MS) as int
    } else {
        1
    }
}

/// The loud frames that make a recording count as speech.
pub fn min_speech_frames() -> (n: usize)
    ensures
        n == spec_min_speech_frames(),
{
    let n = MIN_SPEECH_MS / FRAME_MS;
    if n >= 1 {
        n as usize
    } else {
        1
    }
}

/// The number of loud frames in `loud`.
pub open spec fn loud_count(loud: Seq<bool>) -> int
    decreases loud.len(),
{
    if loud.len() == 0 {
        0
    } else {
        loud_count(loud.drop_last()) + if loud.last() {
            1int
        } else {
            0int
        }
    }
}

proof fn lemma_loud_count_step(loud: Seq<bool>, i: int)
    requires
        0 <= i < loud.len(),
    ensures
        loud_count(loud.take(i + 1)) == loud_count(loud.take(i)) + if loud[i] {
            1int
        } else {
            0int
        },
{
    assert(loud.take(i + 1).drop_last() =~= loud.take(i));
}

proof fn lemma_loud_count_monotone(loud: Seq<bool>, i: int, j: int)
    requires
        0 <= i <= j <= loud.len(),
    ensures
        loud_count(loud.take(i)) <= loud_count(loud.take(j)),
    decreases j - i,
{
    if i < j {
        lemma_loud_count_step(loud, j - 1);
        lemma_loud_count_monotone(loud, i, j - 1);
    }
}

/// Whether a recording holds speech, from the loudness of its consecutive
/// frames (the last one possibly short): at least `min_speech_frames` of
/// them are loud.
pub fn speech_in_frames(loud: &Vec<bool>) -> (b: bool)
    ensures
        b == (loud_count(loud@) >= spec_min_speech_frames()),
{
    let min_frames = min_speech_frames();
    let mut speech_frames: usize = 0;
    for i in 0..loud.len()
        invariant
            min_frames == spec_min_speech_frames(),
            speech_frames == loud_count(loud@.take(i as int)),
            speech_frames < min_frames,
            speech_frames <= i,
    {
        proof {
            lemma_loud_count_step(loud@, i as int);
        }
        if loud[i] {
            speech_frames += 1;
            if speech_frames >= min_frames {
                proof {
                    lemma_loud_count_monotone(loud@, i + 1, loud@.len() as int);
                    assert(loud@.take(loud@.len() as int) =~= loud@);
                }
                return true;
            }
        }
    }
    assert(loud@.take(loud@.len() as int) =~= loud@);
    false
}

/// The position of the first loud frame in `flags`, or its length when none is loud.
pub open spec fn first_loud(flags: Seq<bool>) -> int
    decreases flags.len(),
{
    if flags.len() == 0 {
        0
    } else if flags[0] {
        0
    } else {
        1 + first_loud(flags.drop_first())
    }
}

proof fn lemma_first_loud(flags: Seq<bool>)
    ensures
        0 <= first_loud(flags) <= flags.len(),
        first_loud(flags) < flags.len() ==> flags[first_loud(flags)],
        forall|i: int| 0 <= i < first_loud(flags) ==> !#[trigger] flags[i],
    decreases flags.len(),
{
    if flags.len() > 0 && !flags[0] {
        lemma_first_loud(flags.drop_first());
        assert forall|i: int| 0 <= i < first_loud(flags) implies !#[trigger] flags[i] by {
            if i > 0 {
                assert(flags[i] == flags.drop_first()[i - 1]);
            }
        }
    }
}

/// The first loud frame among the first `n` of `flags`, from the frames
/// before `i` being quiet.
proof fn lemma_first_loud_scan(flags: Seq<bool>, i: int, n: int)
    requires
        0 <= i <= n <= flags.len(),
        forall|j: int| 0 <= j < i ==> !#[trigger] flags[j],
        i == n || flags[i],
    ensures
        first_loud(flags.take(n)) == i,
    decreases i,
{
    if i > 0 {
        let t = flags.take(n);
        assert(!t[0]);
        let u = flags.skip(1);
        assert(t.drop_first() =~= u.take(n - 1));
        assert forall|j: int| 0 <= j < i - 1 implies !#[trigger] u[j] by {
            assert(u[j] == flags[j + 1]);
        }
        if i < n {
            assert(u[i - 1] == flags[i]);
        }
        lemma_first_loud_scan(u, i - 1, n - 1);
    } else if n > 0 {
        assert(flags.take(n)[0] == flags[0]);
    }
}

/// Where the kept part of a recording of `len` samples begins: at the first
/// loud full frame from the start (`front[i]` tells whether samples
/// `[i * frame, (i + 1) * frame)` are loud), or after the last full frame
/// when none is.
pub open spec fn trim_start_at(front: Seq<bool>, frame: int) -> int {
    frame * first_loud(front)
}

/// How many frames the scan from the end may step back over before it
/// reaches `start + frame`: the least `m` with `len - m * frame <= start + frame`.
pub open spec fn back_steps_allowed(len: int, start: int, frame: int) -> int {
    if len <= start + frame {
        0
    } else {
        (len - start - 1) / frame
    }
}

/// Where the kept part ends: at the end of the last loud full frame counted
/// from the end (`back[j]` tells whether samples `[len - (j + 1) * frame,
/// len - j * frame)` are loud), stepping back no further than `start + frame`.
pub open spec fn trim_end_at(back: Seq<bool>, len: int, start: int, frame: int) -> int {
    len - frame * first_loud(back.take(back_steps_allowed(len, start, frame)))
}

/// The samples kept of a recording of `len` samples: nothing when the loud
/// part is empty; otherwise from `pad` samples before its start to `pad`
/// samples after its end, within the recording.
pub open spec fn spec_trim_bounds(
    front: Seq<bool>,
    back: Seq<bool>,
    len: int,
    frame: int,
    pad: int,
) -> Option<(int, int)> {
    let start = trim_start_at(front, frame);
    let end = trim_end_at(back, len, start, frame);
    if end <= start {
        None
    } else {
        Some(
            (
                if start >= pad {
                    start - pad
                } else {
                    0
                },
                if end + pad <= len {
                    end + pad
                } else {
                    len
                },
            ),
        )
    }
}

proof fn lemma_frame_mul(frame: int, a: int, b: int)
    requires
        frame >= 1,
        0 <= a <= b,
    ensures
        frame * a <= frame * b,
        frame * (a + 1) == frame * a + frame,
{
    assert(frame * a <= frame * b) by (nonlinear_arith)
        requires
            frame >= 1,
            0 <= a <= b,
    ;
    assert(frame * (a + 1) == frame * a + frame) by (nonlinear_arith);
}

/// The range of samples to keep once leading and trailing silence is cut,
/// or `None` when nothing is left. `front` and `back` tell, for each of the
/// `len / frame` full frames counted from the start and from the end, whether
/// it is loud; `pad` samples are kept on either side of the loud part.
pub fn trim_bounds(front: &Vec<bool>, back: &Vec<bool>, len: usize, frame: usize, pad: usize) -> (r:
    Option<(usize, usize)>)
    requires
        frame >= 1,
        front@.len() == len / frame,
        back@.len() == len / frame,
        len + pad <= usize::MAX,
    ensures
        match r {
            None => spec_trim_bounds(front@, back@, len as int, frame as int, pad as int) is None,
            Some((a, b)) => spec_trim_bounds(front@, back@, len as int, frame as int, pad as int)
                == Some((a as int, b as int)),
        },
{
    let ghost f = frame as int;
    let ghost n = (len / frame) as int;
    proof {
        assert(f * n <= len) by (nonlinear_arith)
            requires
                f >= 1,
                n == len as int / f,
                len >= 0,
        ;
    }
    let mut i: usize = 0;
    while i < front.len() && !front[i]
        invariant
            front@.len() == n,
            0 <= i <= n,
            forall|j: int| 0 <= j < i ==> !#[trigger] front@[j],
        decreases n - i,
    {
        i = i + 1;
    }
    proof {
        lemma_first_loud_scan(front@, i as int, n);
        assert(front@.take(n) =~= front@);
        lemma_frame_mul(f, i as int, n);
    }
    let start = frame * i;
    let m: usize = if len - start <= frame {
        0
    } else {
        (len - start - 1) / frame
    };
    proof {
        assert(m == back_steps_allowed(len as int, start as int, f));
        if len - start > frame {
            assert(m <= n) by (nonlinear_arith)
                requires
                    f >= 1,
                    m == (len as int - start as int - 1) / f,
                    n == len as int / f,
                    start >= 0,
            ;
            assert(f * m < len - start) by (nonlinear_arith)
                requires
                    f >= 1,
                    m == (len as int - start as int - 1) / f,
                    len - start >= 1,
            ;
        }
    }
    let mut k: usize = 0;
    while k < m && !back[k]
        invariant
            back@.len() == n,
            0 <= k <= m <= n,
            forall|j: int| 0 <= j < k ==> !#[trigger] back@[j],
        decreases m - k,
    {
        k = k + 1;
    }
    proof {
        lemma_first_loud_scan(back@, k as int, m as int);
        lemma_frame_mul(f, k as int, m as int);
        assert(f * m <= len) by (nonlinear_arith)
            requires
                f >= 1,
                m <= n,
                f * n <= len,
        ;
    }
    let end = len - frame * k;
    if end <= start {
        return None;
    }
    let a = if start >= pad {
        start - pad
    } else {
        0
    };
    let b = if end + pad <= len {
        end + pad
    } else {
        len
    };
    Some((a, b))
}

/// Trimming keeps a non-empty range within the recording, or nothing.
pub proof fn law_trim_within_recording(
    front: Seq<bool>,
    back: Seq<bool>,
    len: int,
    frame: int,
    pad: int,
)
    requires
        frame >= 1,
        len >= 0,
        pad >= 0,
        front.len() == len / frame,
        back.len() == len / frame,
    ensures
        spec_trim_bounds(front, back, len, frame, pad) matches Some((a, b)) ==> 0 <= a < b <= len,
{
    lemma_first_loud(front);
    let start = trim_start_at(front, frame);
    let m = back_steps_allowed(len, start, frame);
    let k = first_loud(back.take(m));
    lemma_first_loud(back.take(m));
    let n = len / frame;
    assert(frame * n <= len) by (nonlinear_arith)
        requires
            frame >= 1,
            n == len / frame,
            len >= 0,
    ;
    lemma_frame_mul(frame, first_loud(front), n);
    assert(frame * k >= 0) by (nonlinear_arith)
        requires
            frame >= 1,
            k >= 0,
    ;
}

} // verus!
