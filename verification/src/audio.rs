//! Recording bookkeeping: the capture buffer's size, the start and stop
//! checks, and how many incoming frames a full or partly full buffer takes.

use vstd::prelude::*;

verus! {

/// The sample rate (Hz) that recordings are resampled to for transcription.
pub const TARGET_SAMPLE_RATE: u32 = 16000;

/// Why recording failed.
pub enum AudioError {
    NoDevice,
    Stream(String),
    AlreadyRecording,
    NotRecording,
}

/// Samples held by a recording of at most `secs` seconds at the target rate.
pub fn max_samples_for(secs: u32) -> (n: usize)
    requires
        TARGET_SAMPLE_RATE * secs <= usize::MAX,
    ensures
        n == TARGET_SAMPLE_RATE * secs,
{
    (TARGET_SAMPLE_RATE as usize) * (secs as usize)
}

/// Extra buffer capacity to reserve so that `max_samples` samples fit
/// without reallocating.
pub fn reserve_needed(capacity: usize, max_samples: usize) -> (n: usize)
    ensures
        n == (if capacity < max_samples {
            max_samples - capacity
        } else {
            0
        }),
{
    if capacity < max_samples {
        max_samples - capacity
    } else {
        0
    }
}

/// Starting is refused while a recording is under way.
pub fn check_can_start(recording: bool) -> (r: Result<(), AudioError>)
    ensures
        recording <==> r matches Err(AudioError::AlreadyRecording),
        !recording <==> r is Ok,
{
    if recording {
        Err(AudioError::AlreadyRecording)
    } else {
        Ok(())
    }
}

/// Stopping is refused when no recording is under way.
pub fn check_can_stop(recording: bool) -> (r: Result<(), AudioError>)
    ensures
        !recording <==> r matches Err(AudioError::NotRecording),
        recording <==> r is Ok,
{
    if !recording {
        Err(AudioError::NotRecording)
    } else {
        Ok(())
    }
}

/// The number of frames in `data_len` interleaved samples of `channels`
/// channels, a last partial frame included.
pub open spec fn frame_count(data_len: int, channels: int) -> int {
    (data_len + channels - 1) / channels
}

/// Of an incoming block of `data_len` samples in `channels` channels, how
/// many frames go into a buffer holding `buffered` of at most `max_samples`
/// samples (one sample, the first channel's, per frame): none once full,
/// otherwise as many as arrive, up to the room left.
pub open spec fn spec_frames_to_capture(buffered: int, max_samples: int, data_len: int, channels: int) -> int {
    if buffered >= max_samples {
        0
    } else if frame_count(data_len, channels) <= max_samples - buffered {
        frame_count(data_len, channels)
    } else {
        max_samples - buffered
    }
}

/// How many frames of an incoming block go into the capture buffer.
pub fn frames_to_capture(buffered: usize, max_samples: usize, data_len: usize, channels: usize) -> (n:
    usize)
    requires
        channels > 0,
    ensures
        n == spec_frames_to_capture(buffered as int, max_samples as int, data_len as int, channels as int),
{
    if buffered >= max_samples {
        return 0;
    }
    let q = data_len / channels;
    let r = data_len % channels;
    proof {
        let d = data_len as int;
        let c = channels as int;
        assert(c * (q as int) + r as int == d) by (nonlinear_arith)
            requires
                c > 0,
                q as int == d / c,
                r as int == d % c,
        ;
        if r > 0 {
            assert((q as int) < d) by (nonlinear_arith)
                requires
                    c >= 1,
                    r >= 1,
                    c * (q as int) + r as int == d,
                    q >= 0,
            ;
        }
    }
    let frames = if r == 0 {
        q
    } else {
        q + 1
    };
    proof {
        let d = data_len as int;
        let c = channels as int;
        assert(frames as int == frame_count(d, c)) by (nonlinear_arith)
            requires
                c > 0,
                d >= 0,
                c * (q as int) + r as int == d,
                0 <= r < c,
                frames as int == q + if r == 0 {
                    0int
                } else {
                    1int
                },
        {
            if r == 0 {
                assert(d + c - 1 == c * (q as int) + (c - 1));
            } else {
                assert(d + c - 1 == c * (q as int + 1) + (r - 1));
            }
        }
    }
    let room = max_samples - buffered;
    if frames <= room {
        frames
    } else {
        room
    }
}

/// A buffer never grows past its limit: once full it takes nothing, and
/// otherwise what it takes fits in the room left.
pub proof fn law_capture_never_overfills(buffered: int, max_samples: int, data_len: int, channels: int)
    requires
        0 <= buffered,
        0 <= data_len,
        channels > 0,
    ensures
        buffered >= max_samples ==> spec_frames_to_capture(buffered, max_samples, data_len, channels) == 0,
        buffered < max_samples ==> buffered + spec_frames_to_capture(buffered, max_samples, data_len, channels) <= max_samples,
{
}

} // verus!
