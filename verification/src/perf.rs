//! Hardware performance profiles and the settings each one implies.

use vstd::prelude::*;

verus! {

/// Hardware performance tier, from low-end to high-end machines.
#[derive(Debug, Clone, Copy, PartialEq, Eq, Structural)]
pub enum PerfProfile {
    Potato,
    Balanced,
    Quality,
}

/// Installed memory (bytes) at or below which a machine is low-end: 4.5 GiB.
pub const LOW_MEMORY_BYTES: u64 = 4831838208u64;

/// Installed memory (bytes) from which a machine may be high-end: 16 GiB.
pub const HIGH_MEMORY_BYTES: u64 = 17179869184u64;

/// The profile for a machine with `memory` bytes and `cores` CPU cores:
/// low-end at 4.5 GiB or less or at most two cores; high-end from 16 GiB and
/// eight cores; otherwise balanced.
pub open spec fn profile_for(memory: u64, cores: usize) -> PerfProfile {
    if memory <= LOW_MEMORY_BYTES || cores <= 2 {
        PerfProfile::Potato
    } else if memory >= HIGH_MEMORY_BYTES && cores >= 8 {
        PerfProfile::Quality
    } else {
        PerfProfile::Balanced
    }
}

/// The number of cores assumed when the platform cannot tell.
pub open spec fn cores_or_default(available_cores: Option<usize>) -> usize {
    match available_cores {
        Some(n) => n,
        None => 2,
    }
}

/// Picks the profile from the installed memory (in bytes) and the number of
/// cores the platform reports (`None` when it cannot tell, counted as two).
pub fn detect_profile(total_memory_bytes: u64, available_cores: Option<usize>) -> (p: PerfProfile)
    ensures
        p == profile_for(total_memory_bytes, cores_or_default(available_cores)),
{
    let cores = match available_cores {
        Some(n) => n,
        None => 2,
    };
    if total_memory_bytes <= LOW_MEMORY_BYTES || cores <= 2 {
        PerfProfile::Potato
    } else if total_memory_bytes >= HIGH_MEMORY_BYTES && cores >= 8 {
        PerfProfile::Quality
    } else {
        PerfProfile::Balanced
    }
}

/// Which profile a machine gets: low-end exactly when it has at most 4.5 GiB
/// of memory or at most two cores; a machine with more memory and more
/// cores is high-end when it has at least 16 GiB and eight cores, and
/// balanced otherwise (8 GiB and four cores, say).
pub proof fn law_profile_thresholds(memory: u64, cores: usize)
    ensures
        LOW_MEMORY_BYTES == 9 * 536870912,
        HIGH_MEMORY_BYTES == 16 * 1073741824,
        (profile_for(memory, cores) == PerfProfile::Potato) <==> (memory <= 9 * 536870912 || cores
            <= 2),
        memory > 9 * 536870912 && cores > 2 ==> (profile_for(memory, cores)
            == PerfProfile::Quality <==> memory >= 16 * 1073741824 && cores >= 8),
        memory > 9 * 536870912 && cores > 2 && !(memory >= 16 * 1073741824 && cores >= 8) ==> profile_for(
            memory,
            cores,
        ) == PerfProfile::Balanced,
{
}

/// Inference threads: one while the GPU does the work, so that the CPU stays
/// free for the system; otherwise two, four or six by tier.
pub open spec fn spec_thread_count(profile: PerfProfile, gpu_active: bool) -> i32 {
    if gpu_active {
        1
    } else {
        match profile {
            PerfProfile::Potato => 2,
            PerfProfile::Balanced => 4,
            PerfProfile::Quality => 6,
        }
    }
}

/// Whisper thread count for a profile.
pub fn thread_count(profile: PerfProfile, gpu_active: bool) -> (n: i32)
    ensures
        n == spec_thread_count(profile, gpu_active),
{
    if gpu_active {
        return 1;
    }
    match profile {
        PerfProfile::Potato => 2,
        PerfProfile::Balanced => 4,
        PerfProfile::Quality => 6,
    }
}

/// The speech model id a profile uses by default.
pub open spec fn spec_default_model_id(profile: PerfProfile) -> Seq<char> {
    match profile {
        PerfProfile::Potato => "tiny.en"@,
        PerfProfile::Balanced => "base"@,
        PerfProfile::Quality => "small"@,
    }
}

/// The speech model id a profile uses by default.
pub fn default_model_id(profile: PerfProfile) -> (id: &'static str)
    ensures
        id@ == spec_default_model_id(profile),
{
    match profile {
        PerfProfile::Potato => "tiny.en",
        PerfProfile::Balanced => "base",
        PerfProfile::Quality => "small",
    }
}

/// Seconds of audio that one recording may hold under a profile.
pub open spec fn spec_max_recording_secs(profile: PerfProfile) -> u32 {
    match profile {
        PerfProfile::Potato => 30,
        PerfProfile::Balanced => 60,
        PerfProfile::Quality => 120,
    }
}

/// Maximum recording length (in seconds) for a profile.
pub fn max_recording_secs(profile: PerfProfile) -> (secs: u32)
    ensures
        secs == spec_max_recording_secs(profile),
{
    match profile {
        PerfProfile::Potato => 30,
        PerfProfile::Balanced => 60,
        PerfProfile::Quality => 120,
    }
}

/// The speech model id recommended when the GPU does the work: low-end
/// machines keep their default, while balanced and high-end machines can
/// run a larger model comfortably, the largest on offer.
pub open spec fn spec_gpu_model_id(profile: PerfProfile) -> Seq<char> {
    match profile {
        PerfProfile::Potato => "tiny.en"@,
        PerfProfile::Balanced => "small"@,
        PerfProfile::Quality => "small"@,
    }
}

/// The model recommended for a profile, knowing whether the GPU will be
/// used: the profile's default without it; with it, a larger model for
/// balanced and high-end machines.
pub fn recommended_model_with_gpu(profile: PerfProfile, gpu_will_be_used: bool) -> (id:
    &'static str)
    ensures
        id@ == (if gpu_will_be_used {
            spec_gpu_model_id(profile)
        } else {
            spec_default_model_id(profile)
        }),
{
    if !gpu_will_be_used {
        return default_model_id(profile);
    }
    match profile {
        PerfProfile::Potato => "tiny.en",
        PerfProfile::Balanced => "small",
        PerfProfile::Quality => "small",
    }
}

/// A higher tier allows longer recordings and, without the GPU, runs more
/// threads; with the GPU every tier runs one thread.
pub proof fn law_higher_tier_gets_more()
    ensures
        spec_max_recording_secs(PerfProfile::Potato) < spec_max_recording_secs(
            PerfProfile::Balanced,
        ) < spec_max_recording_secs(PerfProfile::Quality),
        spec_thread_count(PerfProfile::Potato, false) < spec_thread_count(
            PerfProfile::Balanced,
            false,
        ) < spec_thread_count(PerfProfile::Quality, false),
        forall|p: PerfProfile| spec_thread_count(p, true) == 1,
{
}

} // verus!
