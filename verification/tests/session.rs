use vtt::audio::{
    check_can_start, check_can_stop, frames_to_capture, max_samples_for, reserve_needed,
    AudioError, TARGET_SAMPLE_RATE,
};
use vtt::config::{
    append_history, default_polish_transcripts, default_use_gpu, history_to_save, AppConfig,
    TranscriptEntry, HISTORY_LIMIT,
};
use vtt::inject::{paste_keystrokes, plan_injection, InjectMethod, InjectPlan, KeyMotion, PasteKey};
use vtt::perf::PerfProfile;
use vtt::session::{
    after_transcription, capture_step, done_message, hotkey_action, menu_action, model_action_after_save,
    overlay_visible, skip_message, transcription_language, tray_label, AppStatus, CaptureStep,
    HotkeyAction, MenuAction, ModelAction, StatusPayload,
};
use vtt::transcribe::{join_segments, whisper_language};

#[test]
fn status_updates() {
    let mut s = StatusPayload::idle();
    assert_eq!(s.status, AppStatus::Idle);
    s.finish_transcription(120);
    s.set_status(AppStatus::Error, Some("boom".to_string()));
    assert_eq!(s.status, AppStatus::Error);
    assert_eq!(s.message.as_deref(), Some("boom"));
    assert_eq!(s.last_latency_ms, Some(120));
    s.finish_transcription(7);
    assert_eq!(s.status, AppStatus::Idle);
    assert_eq!(s.message, None);
    assert_eq!(s.last_latency_ms, Some(7));
}

#[test]
fn tray_and_overlay() {
    assert_eq!(tray_label(AppStatus::Idle), "VTT — Ready");
    assert_eq!(tray_label(AppStatus::Recording), "VTT — Recording…");
    assert_eq!(tray_label(AppStatus::Error), "VTT — Error");
    assert!(overlay_visible(AppStatus::Recording));
    assert!(overlay_visible(AppStatus::Transcribing));
    assert!(!overlay_visible(AppStatus::Idle));
    assert!(!overlay_visible(AppStatus::LoadingModel));
}

#[test]
fn hotkey_decisions() {
    assert_eq!(hotkey_action(AppStatus::Idle, true), HotkeyAction::StartRecording);
    assert_eq!(hotkey_action(AppStatus::Recording, true), HotkeyAction::Ignore);
    assert_eq!(hotkey_action(AppStatus::Recording, false), HotkeyAction::StopAndTranscribe);
    assert_eq!(hotkey_action(AppStatus::Transcribing, false), HotkeyAction::Ignore);
    assert_eq!(hotkey_action(AppStatus::Error, true), HotkeyAction::StartRecording);
}

#[test]
fn capture_steps() {
    assert_eq!(capture_step(true, false, 100), CaptureStep::SkipSilence);
    assert_eq!(capture_step(true, true, 0), CaptureStep::SkipEmpty);
    assert_eq!(capture_step(false, false, 0), CaptureStep::SkipEmpty);
    assert_eq!(capture_step(false, false, 5), CaptureStep::Transcribe);
    assert_eq!(skip_message(CaptureStep::SkipSilence), Some("Silence detected — skipped"));
    assert_eq!(skip_message(CaptureStep::SkipEmpty), Some("No speech detected"));
    assert_eq!(skip_message(CaptureStep::Transcribe), None);
}

#[test]
fn languages() {
    assert_eq!(transcription_language("auto"), None);
    assert_eq!(transcription_language("de"), Some("de"));
    assert_eq!(whisper_language(None), None);
    assert_eq!(whisper_language(Some("auto")), None);
    assert_eq!(whisper_language(Some("en")), Some("en"));
}

#[test]
fn settings_and_menu_actions() {
    assert_eq!(model_action_after_save(true, true, true), ModelAction::Unload);
    assert_eq!(model_action_after_save(false, true, true), ModelAction::Preload);
    assert_eq!(model_action_after_save(false, true, false), ModelAction::Keep);
    assert_eq!(model_action_after_save(false, false, true), ModelAction::Keep);
    assert_eq!(menu_action("show"), MenuAction::ShowMain);
    assert_eq!(menu_action("settings"), MenuAction::OpenSettings);
    assert_eq!(menu_action("quit"), MenuAction::Quit);
    assert_eq!(menu_action("other"), MenuAction::Nothing);
}

#[test]
fn done_messages() {
    assert_eq!(done_message(Some(1234)), "Done in 1234 ms");
    assert_eq!(done_message(Some(0)), "Done in 0 ms");
    assert_eq!(done_message(Some(u64::MAX)), format!("Done in {} ms", u64::MAX));
    assert_eq!(done_message(None), "Done");
}

#[test]
fn segments_join_into_transcript() {
    let segs = vec![Some("  Hello ".to_string()), None, Some(" world ".to_string())];
    assert_eq!(join_segments(&segs), "Hello world");
    let last_missing = vec![Some("a".to_string()), None];
    assert_eq!(join_segments(&last_missing), "a");
    assert_eq!(join_segments(&Vec::new()), "");
}

#[test]
fn injection_plans() {
    assert_eq!(plan_injection("", true, 50), InjectPlan::Skip);
    assert_eq!(
        plan_injection("hi", false, 50),
        InjectPlan::Send { pause_ms: 50, method: InjectMethod::Typing }
    );
    assert_eq!(
        plan_injection("hi", true, 0),
        InjectPlan::Send { pause_ms: 0, method: InjectMethod::Clipboard }
    );
}

#[test]
fn paste_shortcut_per_platform() {
    assert_eq!(
        paste_keystrokes(true),
        vec![
            (PasteKey::Meta, KeyMotion::Press),
            (PasteKey::V, KeyMotion::Click),
            (PasteKey::Meta, KeyMotion::Release),
        ]
    );
    assert_eq!(
        paste_keystrokes(false),
        vec![
            (PasteKey::Control, KeyMotion::Press),
            (PasteKey::V, KeyMotion::Click),
            (PasteKey::Control, KeyMotion::Release),
        ]
    );
}

#[test]
fn audio_bookkeeping() {
    assert_eq!(TARGET_SAMPLE_RATE, 16000);
    assert_eq!(max_samples_for(30), 480_000);
    assert_eq!(reserve_needed(100, 480_000), 479_900);
    assert_eq!(reserve_needed(500_000, 480_000), 0);
    assert!(matches!(check_can_start(true), Err(AudioError::AlreadyRecording)));
    assert!(check_can_start(false).is_ok());
    assert!(matches!(check_can_stop(false), Err(AudioError::NotRecording)));
    assert!(check_can_stop(true).is_ok());
    assert_eq!(frames_to_capture(0, 10, 8, 2), 4);
    assert_eq!(frames_to_capture(0, 10, 9, 2), 5);
    assert_eq!(frames_to_capture(8, 10, 9, 2), 2);
    assert_eq!(frames_to_capture(10, 10, 9, 2), 0);
    assert_eq!(frames_to_capture(0, 10, 0, 1), 0);
}

#[test]
fn config_defaults_per_profile() {
    let c = AppConfig::for_profile(PerfProfile::Potato);
    assert_eq!(c.model_id, "tiny.en");
    assert_eq!(c.language, "auto");
    assert_eq!(c.hotkey, "Ctrl+Shift+Space");
    assert!(!c.preload_model);
    assert!(c.unload_when_idle);
    assert_eq!(c.max_recording_secs, 30);
    assert_eq!(c.inject_delay_ms, 50);
    let q = AppConfig::for_profile(PerfProfile::Quality);
    assert_eq!(q.model_id, "small");
    assert!(q.preload_model);
    assert!(!q.unload_when_idle);
    assert!(q.use_gpu && q.polish_transcripts && q.silence_skip && !q.onboarding_complete);
    assert!(default_use_gpu());
    assert!(default_polish_transcripts());
}

fn entry(n: u64) -> TranscriptEntry {
    TranscriptEntry { id: format!("id{n}"), text: format!("t{n}"), timestamp: n as i64, latency_ms: n }
}

#[test]
fn history_is_newest_first_and_capped() {
    let old: Vec<TranscriptEntry> = (0..60).map(entry).collect();
    let (all, e) = append_history(old, "hello", 33, Some(1_700_000_000));
    assert_eq!(all.len(), 61);
    assert_eq!(all[0].text, "hello");
    assert_eq!(all[0].id, e.id);
    assert_eq!(all[1].id, "id0");
    assert_eq!(e.timestamp, 1_700_000_000);
    assert_eq!(e.latency_ms, 33);
    assert_eq!(e.id.len(), 36);
    for (k, ch) in e.id.chars().enumerate() {
        if [8, 13, 18, 23].contains(&k) {
            assert_eq!(ch, '-');
        } else {
            assert!(ch.is_ascii_hexdigit() && !ch.is_ascii_uppercase());
        }
    }
    assert_eq!(e.id.chars().nth(14), Some('4'));
    assert!(['8', '9', 'a', 'b'].contains(&e.id.chars().nth(19).unwrap()));
    let saved = history_to_save(&all);
    assert_eq!(saved.len(), HISTORY_LIMIT);
    assert_eq!(saved[0].text, "hello");
    assert_eq!(saved[49].id, "id48");
    let (_, before_epoch) = append_history(Vec::new(), "x", 0, None);
    assert_eq!(before_epoch.timestamp, 0);
    assert_eq!(history_to_save(&Vec::new()).len(), 0);
}

#[test]
fn what_follows_a_transcription() {
    let a = after_transcription("hello", false);
    assert!(a.deliver && !a.unload_model);
    let a = after_transcription("", true);
    assert!(!a.deliver && a.unload_model);
}
