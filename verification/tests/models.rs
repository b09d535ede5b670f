use vtt::gpu::{backend_display_name, compiled_backend, gpu_compiled};
use vtt::models::{
    catalog, find_catalog_entry, model_on_disk, not_installed_message, speech_catalog, DownloadProgress,
    InstalledModel, ModelKind, HF_BASE, UNKNOWN_MODEL,
};
use vtt::perf::{
    default_model_id, detect_profile, max_recording_secs, recommended_model_with_gpu,
    thread_count, PerfProfile,
};

#[test]
fn catalog_lists_four_speech_models() {
    let c = speech_catalog();
    let ids: Vec<&str> = c.iter().map(|e| e.id.as_str()).collect();
    assert_eq!(ids, vec!["tiny.en", "tiny", "base", "small"]);
    assert_eq!(c[0].url, format!("{HF_BASE}/ggml-tiny.en.bin"));
    assert_eq!(c[0].name, "Tiny (English)");
    assert_eq!(c[3].size_bytes, 488_000_000);
    assert!(c.iter().all(|e| e.kind == ModelKind::Speech));
    assert_eq!(catalog().len(), 4);
}

#[test]
fn find_catalog_entry_by_id() {
    let e = find_catalog_entry("base").unwrap();
    assert_eq!(e.filename, "ggml-base.bin");
    assert_eq!(e.profile, PerfProfile::Balanced);
    assert!(find_catalog_entry("large").is_none());
    assert!(find_catalog_entry("").is_none());
    assert!(find_catalog_entry("Base").is_none());
}

#[test]
fn default_model_of_each_profile_is_in_catalog() {
    for p in [PerfProfile::Potato, PerfProfile::Balanced, PerfProfile::Quality] {
        let e = find_catalog_entry(default_model_id(p)).unwrap();
        assert_eq!(e.profile, p);
        assert_eq!(recommended_model_with_gpu(p, false), default_model_id(p));
    }
}

#[test]
fn gpu_recommends_a_model_no_smaller() {
    assert_eq!(recommended_model_with_gpu(PerfProfile::Potato, true), "tiny.en");
    assert_eq!(recommended_model_with_gpu(PerfProfile::Balanced, true), "small");
    assert_eq!(recommended_model_with_gpu(PerfProfile::Quality, true), "small");
    let size = |id: &str| find_catalog_entry(id).unwrap().size_bytes;
    for p in [PerfProfile::Potato, PerfProfile::Balanced, PerfProfile::Quality] {
        assert!(size(recommended_model_with_gpu(p, true)) >= size(default_model_id(p)));
    }
    assert!(size(recommended_model_with_gpu(PerfProfile::Balanced, true)) > size("base"));
}

#[test]
fn model_messages() {
    assert_eq!(
        not_installed_message("base"),
        "Model 'base' is not installed. Download it from Settings."
    );
    assert_eq!(UNKNOWN_MODEL, "Unknown model");
}

#[test]
fn installed_model_from_entry() {
    let e = find_catalog_entry("tiny").unwrap();
    let m = InstalledModel::from_entry(e, 123, "/m/ggml-tiny.bin".to_string());
    assert_eq!(m.id, "tiny");
    assert_eq!(m.name, "Tiny (Multilingual)");
    assert_eq!(m.size_bytes, 123);
    assert_eq!(m.path, "/m/ggml-tiny.bin");
}

#[test]
fn download_progress_counts_bytes() {
    let mut p = DownloadProgress::start(None, 500);
    assert_eq!((p.downloaded, p.total), (0, 500));
    p.advance(200);
    p.advance(100);
    assert_eq!(p.downloaded, 300);
    assert_eq!(p.completed(), (500, 500));
    let q = DownloadProgress::start(Some(42), 500);
    assert_eq!(q.total, 42);
}

#[test]
fn profile_detection_thresholds() {
    let gib: u64 = 1 << 30;
    assert_eq!(detect_profile(4 * gib, Some(8)), PerfProfile::Potato);
    assert_eq!(detect_profile(4 * gib + gib / 2, Some(8)), PerfProfile::Potato);
    assert_eq!(detect_profile(4 * gib + gib / 2 + 1, Some(8)), PerfProfile::Balanced);
    assert_eq!(detect_profile(32 * gib, Some(2)), PerfProfile::Potato);
    assert_eq!(detect_profile(32 * gib, None), PerfProfile::Potato);
    assert_eq!(detect_profile(16 * gib, Some(8)), PerfProfile::Quality);
    assert_eq!(detect_profile(16 * gib - 1, Some(8)), PerfProfile::Balanced);
    assert_eq!(detect_profile(16 * gib, Some(7)), PerfProfile::Balanced);
}

#[test]
fn thread_counts_per_profile() {
    assert_eq!(thread_count(PerfProfile::Quality, true), 1);
    assert_eq!(thread_count(PerfProfile::Potato, true), 1);
    assert_eq!(thread_count(PerfProfile::Potato, false), 2);
    assert_eq!(thread_count(PerfProfile::Balanced, false), 4);
    assert_eq!(thread_count(PerfProfile::Quality, false), 6);
}

#[test]
fn recording_limits_per_profile() {
    assert_eq!(max_recording_secs(PerfProfile::Potato), 30);
    assert_eq!(max_recording_secs(PerfProfile::Balanced), 60);
    assert_eq!(max_recording_secs(PerfProfile::Quality), 120);
}

#[test]
fn gpu_backend_choice_and_names() {
    assert_eq!(compiled_backend(true, true, true), Some("cuda"));
    assert_eq!(compiled_backend(false, true, true), Some("vulkan"));
    assert_eq!(compiled_backend(false, false, true), Some("metal"));
    assert_eq!(compiled_backend(false, false, false), None);
    assert!(gpu_compiled(false, true, false));
    assert!(!gpu_compiled(false, false, false));
    assert_eq!(backend_display_name("cuda"), "CUDA (NVIDIA)");
    assert_eq!(backend_display_name("vulkan"), "Vulkan (GPU)");
    assert_eq!(backend_display_name("metal"), "Metal (Apple GPU)");
    assert_eq!(backend_display_name("opencl"), "opencl");
}

#[test]
fn model_on_disk_outcomes() {
    assert_eq!(model_on_disk("nope", true), Err("Unknown model".to_string()));
    assert_eq!(model_on_disk("nope", false), Err("Unknown model".to_string()));
    assert_eq!(model_on_disk("base", true), Ok(()));
    assert_eq!(
        model_on_disk("base", false),
        Err("Model 'base' is not installed. Download it from Settings.".to_string())
    );
}
