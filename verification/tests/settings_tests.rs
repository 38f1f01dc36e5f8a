use fastpack::config::{
    AlgorithmChoice, AlgorithmConfig, LayoutConfig, MaxRectsHeuristic, OutputConfig, PackMode, ScaleMode,
    SizeConstraint, SpriteConfig, TrimMode,
};
use fastpack::gui::{
    advance_frame, apply_shortcuts, clamp_frame, format_clock, step_frame, format_time, KeyBind, Keybinds, Language, LogEntry, LogLevel, PendingActions,
    ShortcutHits,
};
use fastpack::pixel_format::{PixelFormat, TextureFormat};
use fastpack::updater::{apply_poll, check_message, parse_version, ReleaseInfo, UpdateMsg, UpdatePoll, UpdateStatus};

#[test]
fn defaults_match_documentation() {
    let l = LayoutConfig::default();
    assert_eq!((l.max_width, l.max_height, l.border_padding, l.shape_padding), (2048, 2048, 2, 2));
    assert_eq!(l.pack_mode, PackMode::Best);
    let s = SpriteConfig::default();
    assert_eq!(s.trim_mode, TrimMode::Trim);
    assert_eq!(s.trim_threshold, 1);
    assert!(s.detect_aliases);
    let o = OutputConfig::default();
    assert_eq!(o.name, "atlas");
    assert_eq!(o.quality, 95);
    assert!(!o.multipack);
    assert_eq!(AlgorithmConfig::default(), AlgorithmConfig::MaxRects { heuristic: MaxRectsHeuristic::BestShortSideFit });
}

#[test]
fn parse_names_ignoring_case() {
    assert_eq!("RGBA4444".parse::<PixelFormat>(), Ok(PixelFormat::Rgba4444));
    assert_eq!(PixelFormat::parse_name("alpha8"), Ok(PixelFormat::Alpha8));
    assert_eq!(TextureFormat::parse_name("JPG"), Ok(TextureFormat::Jpeg));
    assert_eq!(TextureFormat::parse_name("bc3"), Ok(TextureFormat::Dxt5));
    assert_eq!(TrimMode::parse_name("CropKeepPos"), Ok(TrimMode::CropKeepPos));
    assert_eq!(TrimMode::parse_name("none"), Ok(TrimMode::NoTrim));
    assert_eq!(SizeConstraint::parse_name("Multiple-Of-4"), Ok(SizeConstraint::MultipleOf4));
    assert_eq!(PackMode::parse_name("fast"), Ok(PackMode::Fast));
    assert_eq!(AlgorithmChoice::parse_name("maxrects"), Ok(AlgorithmChoice::MaxRects));
    assert_eq!(MaxRectsHeuristic::parse_name("CPR"), Ok(MaxRectsHeuristic::ContactPointRule));
    assert_eq!(ScaleMode::parse_name("eagle"), Ok(ScaleMode::Eagle));
    // The Kelvin sign lower-cases to `k`.
    assert_eq!(TrimMode::parse_name("crop-\u{212a}eep-pos"), Ok(TrimMode::CropKeepPos));
}

#[test]
fn parse_unknown_names_report_the_input() {
    assert_eq!(PixelFormat::parse_name("rgb"), Err("unknown pixel format: rgb".to_string()));
    assert_eq!(TextureFormat::parse_name("gif"), Err("unknown texture format: gif".to_string()));
    assert_eq!(TrimMode::parse_name("tr im"), Err("unknown trim mode: tr im".to_string()));
}

#[test]
fn display_names() {
    assert_eq!(PixelFormat::Rgb565.name(), "RGB565");
    assert_eq!(TextureFormat::WebP.name(), "webp");
    assert_eq!(TextureFormat::Etc2.extension(), "ktx");
    assert_eq!(TextureFormat::Dxt1.extension(), "dds");
    assert_eq!(TextureFormat::Jpeg.extension(), "jpg");
    assert_eq!(TrimMode::CropKeepPos.name(), "crop-keep-pos");
    for f in [PixelFormat::Rgba8888, PixelFormat::Rgb888, PixelFormat::Alpha8] {
        assert_eq!(PixelFormat::parse_name(f.name()), Ok(f));
    }
}

#[test]
fn languages() {
    assert_eq!(Language::default(), Language::En);
    assert_eq!(Language::Ja.code(), "ja");
    assert_eq!(Language::Fr.display(), "Français");
    assert_eq!(Language::all().len(), 9);
    assert_eq!(Language::all()[8], Language::Ko);
}

#[test]
fn keybinds() {
    let k = Keybinds::default();
    assert_eq!(k.save_project.display(), "Ctrl+S");
    assert_eq!(k.anim_preview.display(), "P");
    let b = KeyBind { key: "E".to_string(), ctrl: true, shift: true, alt: true };
    assert_eq!(b.display(), "Ctrl+Alt+Shift+E");
    assert_eq!(KeyBind::bare("F5").display(), "F5");
    assert_eq!(KeyBind::default_open_project().key, "O");
}

#[test]
fn log_entries_and_clock() {
    assert_eq!(format_clock(0), "00:00:00");
    assert_eq!(format_clock(86399), "23:59:59");
    assert_eq!(format_clock(86400 + 3661), "01:01:01");
    let t = format_time();
    assert_eq!(t.len(), 8);
    let e = LogEntry::warn("careful".to_string());
    assert_eq!(e.level, LogLevel::Warn);
    assert_eq!(e.message, "careful");
    assert_eq!(e.time.as_bytes()[2], b':');
    assert_eq!(LogEntry::info("x".to_string()).level, LogLevel::Info);
    assert_eq!(LogEntry::error("x".to_string()).level, LogLevel::Error);
}

#[test]
fn pending_actions_start_clear() {
    let p = PendingActions::default();
    assert!(!p.pack && !p.export && !p.rebuild_watcher);
}

#[test]
fn versions_parse() {
    assert_eq!(parse_version("v1.2.3"), (1, 2, 3));
    assert_eq!(parse_version("0.4"), (0, 4, 0));
    assert_eq!(parse_version("vv2.x.7.9"), (2, 7, 9));
    assert_eq!(parse_version("+3.1.0"), (3, 1, 0));
    assert_eq!(parse_version("4294967296.1"), (1, 0, 0));
    assert_eq!(parse_version(""), (0, 0, 0));
}

fn release(v: &str) -> ReleaseInfo {
    ReleaseInfo { version: v.to_string(), notes: String::new(), asset_url: "u".to_string() }
}

#[test]
fn update_check_messages() {
    match check_message(Ok(Some(release("v0.5.0"))), "0.4.9") {
        UpdateMsg::Available(r) => assert_eq!(r.version, "v0.5.0"),
        _ => panic!("expected an update"),
    }
    match check_message(Ok(Some(release("v0.4.0"))), "0.4.0") {
        UpdateMsg::UpToDate { latest } => assert_eq!(latest, "v0.4.0"),
        _ => panic!("expected up to date"),
    }
    match check_message(Ok(None), "0.4.0") {
        UpdateMsg::UpToDate { latest } => assert_eq!(latest, "0.4.0"),
        _ => panic!("expected up to date"),
    }
    match check_message(Err("offline".to_string()), "0.4.0") {
        UpdateMsg::Error(e) => assert_eq!(e, "offline"),
        _ => panic!("expected an error"),
    }
}

#[test]
fn update_polling() {
    let mut status = UpdateStatus::Checking;
    assert!(!apply_poll(&mut status, UpdatePoll::Empty));
    assert!(matches!(status, UpdateStatus::Checking));
    assert!(apply_poll(&mut status, UpdatePoll::Message(UpdateMsg::Error("x".to_string()))));
    assert!(matches!(status, UpdateStatus::Error(ref m) if m == "x"));
    assert!(apply_poll(&mut status, UpdatePoll::Disconnected));
    assert!(matches!(status, UpdateStatus::Error(_)));
}

fn asset(name: Option<&str>, url: Option<&str>) -> fastpack::updater::AssetRecord {
    fastpack::updater::AssetRecord {
        name: name.map(|s| s.to_string()),
        browser_download_url: url.map(|s| s.to_string()),
    }
}

fn record(assets: Option<Vec<fastpack::updater::AssetRecord>>) -> fastpack::updater::ReleaseRecord {
    fastpack::updater::ReleaseRecord {
        tag_name: Some("v0.9.0".to_string()),
        body: Some("notes".to_string()),
        assets,
    }
}

#[test]
fn release_from_picks_first_matching_asset() {
    let r = fastpack::updater::release_from(
        record(Some(vec![
            asset(Some("fastpack-macos-aarch64"), Some("u1")),
            asset(None, Some("u0")),
            asset(Some("fastpack-linux-x86_64"), Some("u2")),
            asset(Some("other-linux-x86_64"), Some("u3")),
        ])),
        "linux-x86_64",
    )
    .unwrap();
    assert_eq!((r.version.as_str(), r.notes.as_str(), r.asset_url.as_str()), ("v0.9.0", "notes", "u2"));
}

#[test]
fn release_from_without_match_or_url_is_none() {
    assert!(fastpack::updater::release_from(record(None), "linux-x86_64").is_none());
    assert!(fastpack::updater::release_from(record(Some(vec![asset(Some("a.exe"), Some("u"))])), "linux-x86_64").is_none());
    let first_has_no_url = record(Some(vec![
        asset(Some("a-linux-x86_64"), None),
        asset(Some("b-linux-x86_64"), Some("u")),
    ]));
    assert!(fastpack::updater::release_from(first_has_no_url, "linux-x86_64").is_none());
}

#[test]
fn release_from_defaults_missing_text() {
    let rec = fastpack::updater::ReleaseRecord {
        tag_name: None,
        body: None,
        assets: Some(vec![asset(Some("fastpack-windows-x86_64.exe"), Some("w"))]),
    };
    let r = fastpack::updater::release_from(rec, "windows-x86_64.exe").unwrap();
    assert_eq!((r.version.as_str(), r.notes.as_str(), r.asset_url.as_str()), ("", "", "w"));
}

#[test]
fn ends_with_compares_bytes() {
    assert!(fastpack::updater::ends_with("abc", "bc"));
    assert!(fastpack::updater::ends_with("abc", ""));
    assert!(!fastpack::updater::ends_with("bc", "abc"));
    assert!(!fastpack::updater::ends_with("abc", "ab"));
}

fn press(name: &str, ctrl: bool) -> fastpack::gui::KeyPress {
    fastpack::gui::KeyPress::Key { name: Some(name.to_string()), ctrl, shift: false, alt: false }
}

#[test]
fn capture_binds_the_last_key_to_the_waiting_slot() {
    let mut slot = 4u8;
    let mut binds = Keybinds::default();
    let presses = vec![
        press("Q", false),
        fastpack::gui::KeyPress::Key { name: None, ctrl: true, shift: false, alt: false },
        press("E", true),
    ];
    assert!(fastpack::gui::capture_keys(&mut slot, &mut binds, presses));
    assert_eq!(slot, 0);
    assert_eq!(binds.export.display(), "Ctrl+E");
    assert_eq!(binds.new_project.display(), "Ctrl+N");
}

#[test]
fn capture_is_canceled_by_escape() {
    let mut slot = 2u8;
    let mut binds = Keybinds::default();
    assert!(!fastpack::gui::capture_keys(&mut slot, &mut binds, vec![fastpack::gui::KeyPress::Escape]));
    assert_eq!(slot, 0);
    assert_eq!(binds.open_project.display(), "Ctrl+O");
    // escape together with a key: the capture ends without rebinding, but the key still counts as pressed
    let mut slot = 2u8;
    assert!(fastpack::gui::capture_keys(&mut slot, &mut binds, vec![press("X", false), fastpack::gui::KeyPress::Escape]));
    assert_eq!(slot, 0);
    assert_eq!(binds.open_project.display(), "Ctrl+O");
}

#[test]
fn capture_waits_without_bindable_key_and_idles_without_slot() {
    let mut slot = 5u8;
    let mut binds = Keybinds::default();
    assert!(!fastpack::gui::capture_keys(&mut slot, &mut binds, Vec::new()));
    assert_eq!(slot, 5);
    let mut idle = 0u8;
    assert!(!fastpack::gui::capture_keys(&mut idle, &mut binds, vec![press("Z", false)]));
    assert_eq!(binds.anim_preview.display(), "P");
}

fn hits(new: bool, open: bool, save: bool, export: bool, anim: bool) -> ShortcutHits {
    ShortcutHits { new_project: new, open_project: open, save_project: save, export, anim_preview: anim }
}

#[test]
fn shortcuts_request_actions() {
    let mut p = PendingActions::default();
    let toggle = apply_shortcuts(&mut p, hits(true, false, true, true, false), false, false, 0, 0);
    assert!(!toggle);
    assert!(p.new_project && p.save_project && p.export);
    assert!(!p.open_project && !p.pack);
}

#[test]
fn shortcut_export_ignored_while_packing() {
    let mut p = PendingActions::default();
    apply_shortcuts(&mut p, hits(false, false, false, true, false), false, true, 0, 0);
    assert!(!p.export);
}

#[test]
fn shortcuts_ignored_while_capturing() {
    let mut p = PendingActions::default();
    let toggle = apply_shortcuts(&mut p, hits(true, true, true, true, true), true, false, 5, 5);
    assert!(!toggle);
    assert_eq!(p, PendingActions::default());
}

#[test]
fn anim_preview_toggles_with_two_selected_frames() {
    let mut p = PendingActions::default();
    assert!(apply_shortcuts(&mut p, hits(false, false, false, false, true), false, false, 2, 3));
    assert!(!apply_shortcuts(&mut p, hits(false, false, false, false, true), false, false, 1, 3));
    assert!(!apply_shortcuts(&mut p, hits(false, false, false, false, true), false, false, 2, 0));
}

#[test]
fn preview_playback_wraps_or_stops() {
    assert_eq!(advance_frame(0, 3, false), (1, true));
    assert_eq!(advance_frame(2, 3, true), (0, true));
    assert_eq!(advance_frame(2, 3, false), (2, false));
}

#[test]
fn preview_step_buttons() {
    assert_eq!(step_frame(2, 3, true), 0);
    assert_eq!(step_frame(1, 3, true), 2);
    assert_eq!(step_frame(0, 3, false), 0);
    assert_eq!(step_frame(2, 3, false), 1);
    assert_eq!(clamp_frame(7, 3), 2);
    assert_eq!(clamp_frame(1, 3), 1);
}
