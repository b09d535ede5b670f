//! The decisions behind the app's push-to-talk session: what a hotkey press
//! or release does, what happens to a finished recording, what the tray and
//! the recording overlay show, and what saving the settings does to the
//! loaded model.

use vstd::prelude::*;
use crate::text::str_eq;

verus! {

/// What the app is doing.
#[derive(Debug, Clone, Copy, PartialEq, Eq, Structural)]
pub enum AppStatus {
    Idle,
    Recording,
    Transcribing,
    LoadingModel,
    Error,
}

/// The status reported to the user interface.
pub struct StatusPayload {
    pub status: AppStatus,
    pub message: Option<String>,
    pub last_latency_ms: Option<u64>,
}

/// The text held by an optional message.
pub open spec fn message_view(m: Option<String>) -> Option<Seq<char>> {
    match m {
        Some(s) => Some(s@),
        None => None,
    }
}

impl StatusPayload {
    /// The status at start-up: idle, with no message and no latency yet.
    pub fn idle() -> (p: Self)
        ensures
            p.status == AppStatus::Idle,
            p.message is None,
            p.last_latency_ms is None,
    {
        StatusPayload { status: AppStatus::Idle, message: None, last_latency_ms: None }
    }

    /// Sets the status and its message; the last latency is kept.
    pub fn set_status(&mut self, status: AppStatus, message: Option<String>)
        ensures
            final(self).status == status,
            message_view(final(self).message) == message_view(message),
            final(self).last_latency_ms == old(self).last_latency_ms,
    {
        self.status = status;
        self.message = message;
    }

    /// Records a finished transcription: idle, no message, and its latency.
    pub fn finish_transcription(&mut self, latency_ms: u64)
        ensures
            final(self).status == AppStatus::Idle,
            final(self).message is None,
            final(self).last_latency_ms == Some(latency_ms),
    {
        self.status = AppStatus::Idle;
        self.message = None;
        self.last_latency_ms = Some(latency_ms);
    }
}

/// The tray tooltip for a status.
pub open spec fn spec_tray_label(status: AppStatus) -> Seq<char> {
    match status {
        AppStatus::Idle => "VTT — Ready"@,
        AppStatus::Recording => "VTT — Recording…"@,
        AppStatus::Transcribing => "VTT — Transcribing…"@,
        AppStatus::LoadingModel => "VTT — Loading model…"@,
        AppStatus::Error => "VTT — Error"@,
    }
}

/// The tray tooltip for a status.
pub fn tray_label(status: AppStatus) -> (label: &'static str)
    ensures
        label@ == spec_tray_label(status),
{
    match status {
        AppStatus::Idle => "VTT — Ready",
        AppStatus::Recording => "VTT — Recording…",
        AppStatus::Transcribing => "VTT — Transcribing…",
        AppStatus::LoadingModel => "VTT — Loading model…",
        AppStatus::Error => "VTT — Error",
    }
}

/// The recording overlay shows while recording or transcribing, and hides otherwise.
pub fn overlay_visible(status: AppStatus) -> (shown: bool)
    ensures
        shown == (status == AppStatus::Recording || status == AppStatus::Transcribing),
{
    match status {
        AppStatus::Recording | AppStatus::Transcribing => true,
        _ => false,
    }
}

/// What a hotkey event leads to.
#[derive(Debug, Clone, Copy, PartialEq, Eq, Structural)]
pub enum HotkeyAction {
    Ignore,
    StartRecording,
    StopAndTranscribe,
}

/// Pressing the hotkey starts a recording unless one is under way; releasing
/// it stops and transcribes the recording under way, if any.
pub open spec fn hotkey_decision(status: AppStatus, pressed: bool) -> HotkeyAction {
    if pressed {
        if status == AppStatus::Recording {
            HotkeyAction::Ignore
        } else {
            HotkeyAction::StartRecording
        }
    } else if status == AppStatus::Recording {
        HotkeyAction::StopAndTranscribe
    } else {
        HotkeyAction::Ignore
    }
}

/// What a hotkey press (`pressed`) or release does in the current status.
pub fn hotkey_action(status: AppStatus, pressed: bool) -> (a: HotkeyAction)
    ensures
        a == hotkey_decision(status, pressed),
{
    if pressed {
        if status == AppStatus::Recording {
            HotkeyAction::Ignore
        } else {
            HotkeyAction::StartRecording
        }
    } else {
        if status != AppStatus::Recording {
            HotkeyAction::Ignore
        } else {
            HotkeyAction::StopAndTranscribe
        }
    }
}

/// What happens to a finished recording.
#[derive(Debug, Clone, Copy, PartialEq, Eq, Structural)]
pub enum CaptureStep {
    /// Silence skipping is on and no speech was heard.
    SkipSilence,
    /// Nothing is left to transcribe.
    SkipEmpty,
    /// The samples go to the speech model.
    Transcribe,
}

/// With silence skipping on, a recording without speech is skipped; then a
/// recording left empty (after trimming its silence when skipping is on) is
/// skipped; anything else is transcribed.
pub fn capture_step(silence_skip: bool, speech_detected: bool, samples_left: usize) -> (s: CaptureStep)
    ensures
        s == (if silence_skip && !speech_detected {
            CaptureStep::SkipSilence
        } else if samples_left == 0 {
            CaptureStep::SkipEmpty
        } else {
            CaptureStep::Transcribe
        }),
{
    if silence_skip && !speech_detected {
        CaptureStep::SkipSilence
    } else if samples_left == 0 {
        CaptureStep::SkipEmpty
    } else {
        CaptureStep::Transcribe
    }
}

/// The message shown when a recording is skipped.
pub fn skip_message(step: CaptureStep) -> (m: Option<&'static str>)
    ensures
        step == CaptureStep::SkipSilence ==> (m matches Some(t) && t@ == "Silence detected — skipped"@),
        step == CaptureStep::SkipEmpty ==> (m matches Some(t) && t@ == "No speech detected"@),
        step == CaptureStep::Transcribe ==> m is None,
{
    match step {
        CaptureStep::SkipSilence => Some("Silence detected — skipped"),
        CaptureStep::SkipEmpty => Some("No speech detected"),
        CaptureStep::Transcribe => None,
    }
}

/// The language passed to the speech model: none (detect it) for `auto`,
/// else the configured one.
pub fn transcription_language(language: &str) -> (r: Option<&str>)
    ensures
        language@ == "auto"@ ==> r is None,
        language@ != "auto"@ ==> (r matches Some(l) && l@ == language@),
{
    if str_eq(language, "auto") {
        None
    } else {
        Some(language)
    }
}

/// What follows a finished transcription.
#[derive(Debug, Clone, Copy, PartialEq, Eq, Structural)]
pub struct AfterTranscript {
    /// The text is typed or pasted and added to the history.
    pub deliver: bool,
    /// The speech model is unloaded to free memory.
    pub unload_model: bool,
}

/// A non-empty transcript is delivered and recorded; the model is unloaded
/// afterwards when the settings ask to unload it while idle.
pub fn after_transcription(text: &str, unload_when_idle: bool) -> (a: AfterTranscript)
    ensures
        a.deliver == (text@.len() > 0),
        a.unload_model == unload_when_idle,
{
    AfterTranscript { deliver: !text.is_empty(), unload_model: unload_when_idle }
}

/// What saving the settings does to the loaded model.
#[derive(Debug, Clone, Copy, PartialEq, Eq, Structural)]
pub enum ModelAction {
    Unload,
    Preload,
    Keep,
}

/// Unload when the settings ask to unload while idle; otherwise preload when
/// they ask for it and the model is installed; otherwise leave it.
pub fn model_action_after_save(unload_when_idle: bool, preload_model: bool, installed: bool) -> (a:
    ModelAction)
    ensures
        a == (if unload_when_idle {
            ModelAction::Unload
        } else if preload_model && installed {
            ModelAction::Preload
        } else {
            ModelAction::Keep
        }),
{
    if unload_when_idle {
        ModelAction::Unload
    } else if preload_model && installed {
        ModelAction::Preload
    } else {
        ModelAction::Keep
    }
}

/// What a tray menu item does.
#[derive(Debug, Clone, Copy, PartialEq, Eq, Structural)]
pub enum MenuAction {
    ShowMain,
    OpenSettings,
    Quit,
    Nothing,
}

/// The action of the tray menu item with id `id`.
pub fn menu_action(id: &str) -> (a: MenuAction)
    ensures
        a == (if id@ == "show"@ {
            MenuAction::ShowMain
        } else if id@ == "settings"@ {
            MenuAction::OpenSettings
        } else if id@ == "quit"@ {
            MenuAction::Quit
        } else {
            MenuAction::Nothing
        }),
{
    if str_eq(id, "show") {
        MenuAction::ShowMain
    } else if str_eq(id, "settings") {
        MenuAction::OpenSettings
    } else if str_eq(id, "quit") {
        MenuAction::Quit
    } else {
        MenuAction::Nothing
    }
}

/// The decimal digit character for `d` (below 10).
pub open spec fn digit_char(d: nat) -> char {
    ((d + 48) as u8) as char
}

/// The decimal form of `n`, without leading zeros (what `u64`'s `Display` writes).
pub open spec fn decimal(n: nat) -> Seq<char>
    decreases n,
{
    if n < 10 {
        seq![digit_char(n)]
    } else {
        decimal(n / 10).push(digit_char(n % 10))
    }
}

/// The decimal digits of `n`.
pub fn decimal_chars(n: u64) -> (v: Vec<char>)
    ensures
        v@ == decimal(n as nat),
    decreases n,
{
    let d = (n % 10) as u8;
    let c = (48u8 + d) as char;
    if n < 10 {
        let mut v: Vec<char> = Vec::new();
        v.push(c);
        assert(v@ =~= seq![digit_char(n as nat)]);
        v
    } else {
        let mut v = decimal_chars(n / 10);
        v.push(c);
        v
    }
}

/// The message shown when a transcription is done: with its latency when known.
pub fn done_message(last_latency_ms: Option<u64>) -> (m: String)
    ensures
        m@ == (match last_latency_ms {
            Some(ms) => "Done in "@ + decimal(ms as nat) + " ms"@,
            None => "Done"@,
        }),
{
    match last_latency_ms {
        Some(ms) => {
            let mut m = "Done in ".to_owned();
            let digits = crate::text::string_of(&decimal_chars(ms));
            m.append(digits.as_str());
            m.append(" ms");
            m
        },
        None => "Done".to_owned(),
    }
}

/// A hotkey press never starts a second recording, and a release never
/// stops anything but a recording under way.
pub proof fn law_hotkey_respects_recording(status: AppStatus)
    ensures
        status == AppStatus::Recording ==> hotkey_decision(status, true) == HotkeyAction::Ignore,
        status != AppStatus::Recording ==> hotkey_decision(status, false) == HotkeyAction::Ignore,
{
}

} // verus!
