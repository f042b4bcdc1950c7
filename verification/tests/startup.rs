use wispet::clipboard::{clipboard_update, ClipboardWatch};
use wispet::config::{config_file_text, normalize_config, Config, General, ProviderEntry, Providers};
use wispet::plan::{finish_report, mdd_sources, mdx_load_error, plan_providers, ProviderPlan};
use wispet::resource::{extract_wispet_resource_name, guess_mime, mime_for_extension};
use wispet::shortcut::{parse_shortcut, str_to_code, KeyCode, Modifiers, ShortcutError};
use wispet::startup::{
    build_providers, build_providers_reporting, startup_log_contents, timestamp_label,
    LoadedProvider,
};

fn entry(kind: &str, priority: u32) -> ProviderEntry {
    ProviderEntry {
        kind: kind.to_string(),
        enabled: true,
        priority,
        label: None,
        path: None,
        api_key: None,
        source_lang: None,
        target_lang: None,
        lang: None,
    }
}

fn config(list: Vec<ProviderEntry>) -> Config {
    Config { general: General { hotkey_main: "Ctrl+Alt+Space".into() }, providers: Providers { list } }
}

#[test]
fn default_config_has_one_dictionary() {
    let cfg = Config::default();
    assert_eq!(cfg.general.hotkey_main, "Ctrl+Alt+Space");
    assert_eq!(cfg.providers.list.len(), 1);
    let e = &cfg.providers.list[0];
    assert_eq!(e.kind, "mdx");
    assert!(e.enabled);
    assert_eq!(e.priority, 1);
    assert_eq!(e.label.as_deref(), Some("Vocabulary.com"));
    assert_eq!(e.path.as_deref(), Some("vocabulary.com.mdx"));
    assert!(Providers::default().list.is_empty());
}

#[test]
fn blank_hotkey_falls_back_to_default() {
    let mut cfg = config(vec![entry("google", 1)]);
    cfg.general.hotkey_main = "   ".into();
    let fixed = normalize_config(cfg);
    assert_eq!(fixed.general.hotkey_main, "Ctrl+Alt+Space");
    assert_eq!(fixed.providers.list.len(), 1);
    let mut cfg = config(Vec::new());
    cfg.general.hotkey_main = "Ctrl+Shift+W".into();
    assert_eq!(normalize_config(cfg).general.hotkey_main, "Ctrl+Shift+W");
}

#[test]
fn config_file_starts_with_the_comment_block() {
    let text = config_file_text("[general]\nhotkey_main = \"X\"\n");
    assert!(text.starts_with("# Wispet configuration\n#\n"));
    assert!(text.ends_with("\n\n[general]\nhotkey_main = \"X\"\n"));
    assert!(text.contains("# type = \"wikipedia\" — Wikipedia summary (no key required)\n"));
}

#[test]
fn plans_follow_priority_with_stable_ties() {
    let mut a = entry("google", 5);
    a.label = Some("G".into());
    let mut b = entry("wikipedia", 1);
    b.lang = Some("de".into());
    let c = entry("google", 5);
    let mut d = entry("mdx", 0);
    d.enabled = false;
    let plans = plan_providers(&config(vec![a, b, c, d]));
    assert_eq!(plans.len(), 3);
    match &plans[0] {
        ProviderPlan::Wikipedia { id, label, lang } => {
            assert_eq!(id, "wikipedia_1");
            assert_eq!(label, "wikipedia");
            assert_eq!(lang, "de");
        }
        _ => panic!("wikipedia first"),
    }
    match &plans[1] {
        ProviderPlan::Google { id, label, source_lang, target_lang } => {
            assert_eq!(id, "google_2");
            assert_eq!(label, "G");
            assert_eq!(source_lang, "auto");
            assert_eq!(target_lang, "zh-CN");
        }
        _ => panic!("google second"),
    }
    match &plans[2] {
        ProviderPlan::Google { id, label, .. } => {
            assert_eq!(id, "google_3");
            assert_eq!(label, "google");
        }
        _ => panic!("google third"),
    }
}

#[test]
fn unusable_entries_are_reported() {
    let mut deepl = entry("deepl", 1);
    deepl.api_key = None;
    let mut mdx = entry("mdx", 2);
    mdx.label = Some("My dict".into());
    let odd = entry("bing", 3);
    let plans = plan_providers(&config(vec![deepl, mdx, odd]));
    assert_eq!(plans.len(), 3);
    match &plans[0] {
        ProviderPlan::Problem { message } => {
            assert_eq!(message, "DeepL provider missing api_key — skipping")
        }
        _ => panic!("missing key reported"),
    }
    match &plans[1] {
        ProviderPlan::Problem { message } => {
            assert_eq!(message, "MDX provider \"My dict\" has no path configured — skipping")
        }
        _ => panic!("missing path reported"),
    }
    match &plans[2] {
        ProviderPlan::Problem { message } => assert_eq!(message, "Unknown provider type 'bing' — skipping"),
        _ => panic!("unknown type reported"),
    }
}

#[test]
fn report_lines() {
    assert_eq!(
        mdx_load_error("Vocab", "/x/v.mdx", "Cannot open MDX file"),
        "MDX provider \"Vocab\" (/x/v.mdx): Cannot open MDX file"
    );
    assert_eq!(finish_report(vec!["a".into()], 2), vec!["a".to_string()]);
    let r = finish_report(vec!["a".into()], 0);
    assert_eq!(r.len(), 2);
    assert_eq!(
        r[1],
        "No providers loaded — every lookup will return \"no result\". Check the paths/settings in wispet.toml."
    );
}

#[test]
fn mdd_sources_are_the_mdx_paths() {
    let mut a = entry("mdx", 1);
    a.path = Some("a.mdx".into());
    a.enabled = false;
    let b = entry("mdx", 2);
    let mut c = entry("google", 3);
    c.path = Some("ignored".into());
    let mut d = entry("mdx", 4);
    d.path = Some("d.mdx".into());
    assert_eq!(mdd_sources(&config(vec![a, b, c, d])), vec!["a.mdx".to_string(), "d.mdx".to_string()]);
}

fn open_fake(path: &str) -> Result<String, String> {
    if path.ends_with(".mdx") {
        Ok(format!("dict at {path}"))
    } else {
        Err(format!("Cannot open MDX file: {path}"))
    }
}

#[test]
fn providers_are_built_and_failures_reported() {
    let mut good = entry("mdx", 3);
    good.path = Some("good.mdx".into());
    good.label = Some("Good".into());
    let mut bad = entry("mdx", 1);
    bad.path = Some("bad.txt".into());
    let mut deepl = entry("deepl", 2);
    deepl.api_key = Some("k:fx".into());
    let (providers, errors) = build_providers_reporting(&config(vec![good, bad, deepl]), open_fake);
    assert_eq!(providers.len(), 2);
    match &providers[0] {
        LoadedProvider::Deepl { id, label, api_key, source_lang, target_lang } => {
            assert_eq!(id, "deepl_1");
            assert_eq!(label, "deepl");
            assert_eq!(api_key, "k:fx");
            assert_eq!(source_lang, "auto");
            assert_eq!(target_lang, "EN");
        }
        _ => panic!("deepl first"),
    }
    match &providers[1] {
        LoadedProvider::Mdx { id, label, path, dict } => {
            assert_eq!(id, "mdx_2");
            assert_eq!(label, "Good");
            assert_eq!(path, "good.mdx");
            assert_eq!(dict, "dict at good.mdx");
        }
        _ => panic!("mdx second"),
    }
    assert_eq!(errors, vec!["MDX provider \"mdx\" (bad.txt): Cannot open MDX file: bad.txt".to_string()]);
}

#[test]
fn no_providers_at_all_is_reported_last() {
    let mut bad = entry("mdx", 1);
    bad.path = Some("bad.txt".into());
    let (providers, errors) = build_providers_reporting(&config(vec![bad, entry("bing", 2)]), open_fake);
    assert!(providers.is_empty());
    assert_eq!(errors.len(), 3);
    assert_eq!(errors[1], "Unknown provider type 'bing' — skipping");
    assert!(errors[2].starts_with("No providers loaded"));
    let only = build_providers(&config(vec![entry("wikipedia", 1)]), open_fake);
    assert_eq!(only.len(), 1);
    assert!(matches!(&only[0], LoadedProvider::Wikipedia { lang, .. } if lang == "en"));
}

#[test]
fn startup_log_text() {
    assert_eq!(timestamp_label(Some(1700000000)), "unix_ts=1700000000");
    assert_eq!(timestamp_label(None), "unknown time");
    assert_eq!(
        startup_log_contents(&[], "unix_ts=5"),
        "Wispet startup at unix_ts=5\nAll configured providers loaded successfully.\n"
    );
    assert_eq!(
        startup_log_contents(&["one".to_string(), "two".to_string()], "unknown time"),
        "Wispet startup at unknown time\n2 problem(s) found:\n\n- one\n- two\n"
    );
}

#[test]
fn shortcuts_parse_in_any_case() {
    let sc = parse_shortcut("Ctrl+Alt+Space").unwrap();
    assert_eq!(sc.key, KeyCode::Space);
    assert_eq!(sc.mods, Modifiers { control: true, alt: true, shift: false, super_key: false });
    let sc = parse_shortcut("shift+CMD+w").unwrap();
    assert_eq!(sc.key, KeyCode::KeyW);
    assert_eq!(sc.mods, Modifiers { control: false, alt: false, shift: true, super_key: true });
    assert_eq!(parse_shortcut("F12").unwrap().key, KeyCode::F12);
    assert_eq!(parse_shortcut("Control+Option+Return").unwrap().key, KeyCode::Enter);
    assert_eq!(parse_shortcut("a+b").unwrap().key, KeyCode::KeyB);
}

#[test]
fn shortcut_errors() {
    match parse_shortcut("Ctrl+Alt") {
        Err(e @ ShortcutError::NoKey { .. }) => assert_eq!(e.message(), "Shortcut 'Ctrl+Alt' has no key"),
        other => panic!("unexpected {:?}", other),
    }
    match parse_shortcut("Ctrl+Foo+Space") {
        Err(e @ ShortcutError::UnknownKey { .. }) => assert_eq!(e.message(), "Unknown key code: 'foo'"),
        other => panic!("unexpected {:?}", other),
    }
    assert!(matches!(parse_shortcut("Ctrl++A"), Err(ShortcutError::UnknownKey { name }) if name.is_empty()));
    assert!(matches!(parse_shortcut(""), Err(ShortcutError::UnknownKey { .. })));
}

#[test]
fn key_names() {
    assert_eq!(str_to_code("q").unwrap(), KeyCode::KeyQ);
    assert_eq!(str_to_code("7").unwrap(), KeyCode::Digit7);
    assert_eq!(str_to_code("esc").unwrap(), KeyCode::Escape);
    assert_eq!(str_to_code("backspace").unwrap(), KeyCode::Backspace);
    assert_eq!(str_to_code("delete").unwrap(), KeyCode::Delete);
    assert_eq!(str_to_code("tab").unwrap(), KeyCode::Tab);
    assert!(str_to_code("Q").is_err());
    assert!(str_to_code("f13").is_err());
}

#[test]
fn mime_types() {
    assert_eq!(guess_mime("hello.MP3"), "audio/mpeg");
    assert_eq!(guess_mime("a.b.jpeg"), "image/jpeg");
    assert_eq!(guess_mime("style.css"), "text/css");
    assert_eq!(guess_mime("noext"), "application/octet-stream");
    assert_eq!(guess_mime("svg"), "image/svg+xml");
    assert_eq!(mime_for_extension("js"), "application/javascript");
    assert_eq!(mime_for_extension("JS"), "application/octet-stream");
}

#[test]
fn resource_names_from_request_uris() {
    assert_eq!(
        extract_wispet_resource_name("wispet://mdd/sound/hello%20world.mp3").as_deref(),
        Some("hello world.mp3")
    );
    assert_eq!(extract_wispet_resource_name("wispet://mdd/abc").as_deref(), Some("abc"));
    assert_eq!(extract_wispet_resource_name("wispet://localhost/x"), None);
    assert_eq!(extract_wispet_resource_name("wispet://mdd/sound/"), None);
    assert_eq!(extract_wispet_resource_name("wispet://mdd/sound/a/b.mp3").as_deref(), Some("a/b.mp3"));
    assert_eq!(
        extract_wispet_resource_name("wispet://mdd/sound/us/hello%20there.mp3").as_deref(),
        Some("us/hello there.mp3")
    );
    assert_eq!(extract_wispet_resource_name("wispet://mdd/sound/a%20b.mp3").as_deref(), Some("a b.mp3"));
    assert_eq!(extract_wispet_resource_name("wispet://mdd/"), None);
    assert_eq!(extract_wispet_resource_name("wispet://mdd/sound/%FF.mp3").as_deref(), Some("%FF.mp3"));
}

#[test]
fn clipboard_announces_new_text_once() {
    assert_eq!(clipboard_update("", "  word \n").as_deref(), Some("word"));
    assert_eq!(clipboard_update("word", " word "), None);
    assert_eq!(clipboard_update("word", "   "), None);
    assert_eq!(clipboard_update("word", "other").as_deref(), Some("other"));
}

#[test]
fn building_twice_gives_the_same_providers() {
    let mut a = entry("google", 2);
    a.label = Some("G".into());
    let b = entry("wikipedia", 1);
    let mut c = entry("mdx", 2);
    c.path = Some("x.mdx".into());
    let cfg = config(vec![a, b, c]);
    let (first, report) = build_providers_reporting(&cfg, open_fake);
    let second = build_providers(&cfg, open_fake);
    assert!(report.is_empty());
    let ids = |v: &Vec<LoadedProvider<String>>| -> Vec<String> {
        v.iter()
            .map(|p| match p {
                LoadedProvider::Mdx { id, .. }
                | LoadedProvider::Deepl { id, .. }
                | LoadedProvider::Google { id, .. }
                | LoadedProvider::Wikipedia { id, .. } => id.clone(),
            })
            .collect()
    };
    assert_eq!(ids(&first), vec!["wikipedia_0", "google_1", "mdx_2"]);
    assert_eq!(ids(&first), ids(&second));
}

#[test]
fn clipboard_run_announces_each_new_text_once() {
    let reads = [Some(" a "), None, Some("a"), Some("  "), Some("b"), Some("b\n"), Some("a")];
    let mut last = String::new();
    let mut events = Vec::new();
    for read in reads {
        if let Some(text) = read {
            if let Some(news) = clipboard_update(&last, text) {
                last = news.clone();
                events.push(news);
            }
        }
    }
    assert_eq!(events, vec!["a".to_string(), "b".to_string(), "a".to_string()]);
}

#[test]
fn deepl_without_key_is_reported() {
    let (providers, errors) = build_providers_reporting(&config(vec![entry("deepl", 1)]), open_fake);
    assert!(providers.is_empty());
    assert_eq!(errors[0], "DeepL provider missing api_key — skipping");
    assert!(errors[1].starts_with("No providers loaded"));
}

#[test]
fn watcher_emits_each_new_text_once() {
    let reads = [Some(" a "), None, Some("a"), Some("  "), Some("b"), Some("b\n"), Some("a")];
    let mut watch = ClipboardWatch::new();
    let events: Vec<String> =
        reads.iter().filter_map(|r| watch.on_read(r.map(|t| t.to_string()))).collect();
    assert_eq!(events, vec!["a".to_string(), "b".to_string(), "a".to_string()]);
}
