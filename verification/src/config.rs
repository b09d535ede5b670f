//! Settings with their defaults per profile, and the transcript history:
//! newest first, with at most `HISTORY_LIMIT` entries kept on disk.

use vstd::prelude::*;
use crate::perf::{
    default_model_id, max_recording_secs, spec_default_model_id, spec_max_recording_secs,
    PerfProfile,
};

verus! {

/// The user's settings.
pub struct AppConfig {
    pub perf_profile: PerfProfile,
    pub auto_detect_profile: bool,
    pub model_id: String,
    pub language: String,
    pub hotkey: String,
    pub preload_model: bool,
    pub max_recording_secs: u32,
    pub silence_skip: bool,
    pub show_latency: bool,
    pub inject_delay_ms: u32,
    pub paste_mode: bool,
    pub unload_when_idle: bool,
    pub onboarding_complete: bool,
    pub use_gpu: bool,
    pub polish_transcripts: bool,
}

/// Whether transcripts are polished when a saved config does not say.
pub fn default_polish_transcripts() -> (b: bool)
    ensures
        b,
{
    true
}

/// Whether the GPU is used when a saved config does not say.
pub fn default_use_gpu() -> (b: bool)
    ensures
        b,
{
    true
}

impl AppConfig {
    /// The default settings on a machine of the given profile: its default
    /// model and recording limit, automatic language, push-to-talk on
    /// Ctrl+Shift+Space, silence skipped, latency shown, typing after 50 ms,
    /// GPU and polish on, onboarding pending; low-end machines load the model
    /// on demand and unload it when idle, others preload it and keep it.
    pub fn for_profile(profile: PerfProfile) -> (c: Self)
        ensures
            c.perf_profile == profile,
            c.auto_detect_profile,
            c.model_id@ == spec_default_model_id(profile),
            c.language@ == "auto"@,
            c.hotkey@ == "Ctrl+Shift+Space"@,
            c.preload_model == (profile != PerfProfile::Potato),
            c.max_recording_secs == spec_max_recording_secs(profile),
            c.silence_skip,
            c.show_latency,
            c.inject_delay_ms == 50,
            !c.paste_mode,
            c.unload_when_idle == (profile == PerfProfile::Potato),
            !c.onboarding_complete,
            c.use_gpu,
            c.polish_transcripts,
    {
        AppConfig {
            perf_profile: profile,
            auto_detect_profile: true,
            model_id: default_model_id(profile).to_owned(),
            language: "auto".to_owned(),
            hotkey: "Ctrl+Shift+Space".to_owned(),
            preload_model: profile != PerfProfile::Potato,
            max_recording_secs: max_recording_secs(profile),
            silence_skip: true,
            show_latency: true,
            inject_delay_ms: 50,
            paste_mode: false,
            unload_when_idle: profile == PerfProfile::Potato,
            onboarding_complete: false,
            use_gpu: default_use_gpu(),
            polish_transcripts: default_polish_transcripts(),
        }
    }
}

/// One transcript in the history.
pub struct TranscriptEntry {
    pub id: String,
    pub text: String,
    pub timestamp: i64,
    pub latency_ms: u64,
}

/// The contents of a history entry.
pub struct TranscriptRecord {
    pub id: Seq<char>,
    pub text: Seq<char>,
    pub timestamp: i64,
    pub latency_ms: u64,
}

impl View for TranscriptEntry {
    type V = TranscriptRecord;

    open spec fn view(&self) -> TranscriptRecord {
        TranscriptRecord {
            id: self.id@,
            text: self.text@,
            timestamp: self.timestamp,
            latency_ms: self.latency_ms,
        }
    }
}

/// The views of a list of history entries.
pub open spec fn transcript_records(v: Seq<TranscriptEntry>) -> Seq<TranscriptRecord> {
    Seq::new(v.len(), |i: int| v[i]@)
}

/// The most entries the history keeps on disk.
pub const HISTORY_LIMIT: usize = 50;

/// The part of a history that is written to disk: its first `HISTORY_LIMIT` entries.
pub open spec fn saved_history(h: Seq<TranscriptRecord>) -> Seq<TranscriptRecord> {
    if h.len() <= HISTORY_LIMIT {
        h
    } else {
        h.take(HISTORY_LIMIT as int)
    }
}

/// A copy of a history entry.
fn copy_entry(e: &TranscriptEntry) -> (c: TranscriptEntry)
    ensures
        c@ == e@,
{
    TranscriptEntry {
        id: e.id.clone(),
        text: e.text.clone(),
        timestamp: e.timestamp,
        latency_ms: e.latency_ms,
    }
}

/// The entries of a history that are written to disk.
pub fn history_to_save(entries: &Vec<TranscriptEntry>) -> (r: Vec<TranscriptEntry>)
    ensures
        transcript_records(r@) == saved_history(transcript_records(entries@)),
{
    let n = if entries.len() <= HISTORY_LIMIT {
        entries.len()
    } else {
        HISTORY_LIMIT
    };
    let mut r: Vec<TranscriptEntry> = Vec::new();
    for i in 0..n
        invariant
            n <= entries@.len(),
            transcript_records(r@) == transcript_records(entries@).take(i as int),
    {
        let c = copy_entry(&entries[i]);
        let ghost cv = c@;
        let ghost before = transcript_records(r@);
        assert(cv == entries@[i as int]@);
        r.push(c);
        assert(transcript_records(r@) =~= before.push(cv));
        assert(transcript_records(r@) =~= transcript_records(entries@).take(i + 1));
    }
    assert(transcript_records(entries@).take(entries@.len() as int) =~= transcript_records(
        entries@,
    ));
    r
}

/// An identifier in the textual form of a UUID: 36 characters, with hyphens
/// at positions 8, 13, 18 and 23 and lowercase hexadecimal digits elsewhere.
pub open spec fn is_hyphenated_uuid(s: Seq<char>) -> bool {
    &&& s.len() == 36
    &&& forall|k: int|
        0 <= k < 36 ==> if k == 8 || k == 13 || k == 18 || k == 23 {
            #[trigger] s[k] == '-'
        } else {
            ('0' <= s[k] <= '9') || ('a' <= s[k] <= 'f')
        }
}

/// A random (version 4, RFC 4122 variant) UUID in textual form: hyphenated
/// lowercase hexadecimal, with the version digit `4` at position 14 and the
/// variant digit `8`, `9`, `a` or `b` at position 19.
pub open spec fn is_v4_uuid(s: Seq<char>) -> bool {
    &&& is_hyphenated_uuid(s)
    &&& s[14] == '4'
    &&& (s[19] == '8' || s[19] == '9' || s[19] == 'a' || s[19] == 'b')
}

/// Calls `uuid::Uuid::new_v4` and formats the result with `to_string`. The
/// value is random; claimed is only its textual shape: `new_v4` sets the
/// version and variant bits of every value it makes, and `uuid`'s `Display`
/// writes lowercase hyphenated hexadecimal.
#[verifier::external_body]
fn new_entry_id() -> (id: String)
    ensures
        is_v4_uuid(id@),
{
    uuid::Uuid::new_v4().to_string()
}

/// The timestamp recorded for an entry: seconds since the Unix epoch taken
/// as an `i64`, or 0 when the clock reads before the epoch.
pub open spec fn entry_timestamp(since_epoch_secs: Option<u64>) -> i64 {
    match since_epoch_secs {
        Some(s) => s as i64,
        None => 0,
    }
}

/// Puts a new transcript at the front of the history, under a fresh random
/// version 4 UUID; `since_epoch_secs` is the clock reading (`None` before the
/// epoch). Returns the new history and the entry added.
pub fn append_history(
    entries: Vec<TranscriptEntry>,
    text: &str,
    latency_ms: u64,
    since_epoch_secs: Option<u64>,
) -> (r: (Vec<TranscriptEntry>, TranscriptEntry))
    ensures
        r.1.text@ == text@,
        r.1.latency_ms == latency_ms,
        r.1.timestamp == entry_timestamp(since_epoch_secs),
        is_v4_uuid(r.1.id@),
        transcript_records(r.0@) == seq![r.1@] + transcript_records(entries@),
{
    let timestamp: i64 = match since_epoch_secs {
        Some(s) => s as i64,
        None => 0,
    };
    let entry = TranscriptEntry {
        id: new_entry_id(),
        text: text.to_owned(),
        timestamp,
        latency_ms,
    };
    let mut entries = entries;
    let ghost before = transcript_records(entries@);
    entries.insert(0, copy_entry(&entry));
    assert(transcript_records(entries@) =~= seq![entry@] + before);
    (entries, entry)
}

/// After a transcript is added, the saved history starts with it, keeps the
/// earlier entries in order behind it, and holds at most `HISTORY_LIMIT` entries.
pub proof fn law_new_transcript_saved_first(e: TranscriptRecord, h: Seq<TranscriptRecord>)
    ensures
        saved_history(seq![e] + h).len() <= HISTORY_LIMIT,
        saved_history(seq![e] + h)[0] == e,
        forall|k: int|
            1 <= k < saved_history(seq![e] + h).len() ==> #[trigger] saved_history(
                seq![e] + h,
            )[k] == h[k - 1],
{
    let all = seq![e] + h;
    assert(all[0] == e);
    assert forall|k: int| 1 <= k < saved_history(all).len() implies #[trigger] saved_history(
        all,
    )[k] == h[k - 1] by {
        assert(all[k] == h[k - 1]);
    }
}

} // verus!
