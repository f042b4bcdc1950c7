use wispet::html::{html_escape, sanitize_mdx_html};
use wispet::provider::{
    collect_results, deepl_api_url, deepl_is_free_key, deepl_result, deepl_source_lang,
    deepl_status_failure, google_result, is_success_status, google_url, mdx_result, should_lookup, wikipedia_result,
    wikipedia_status, wikipedia_url, DeeplFailure, DeeplTranslation, Json, ProviderResult,
    ResultKind, WikiStatus, WikiSummary,
};

fn result(id: &str) -> ProviderResult {
    ProviderResult {
        provider_id: id.to_string(),
        provider_label: id.to_uppercase(),
        kind: ResultKind::Translation,
        content: format!("from {id}"),
        phonetic: None,
        source_lang: None,
    }
}

#[test]
fn blank_queries_are_not_looked_up() {
    assert!(!should_lookup(""));
    assert!(!should_lookup("  \t\n"));
    assert!(should_lookup(" word "));
}

#[test]
fn results_keep_provider_order_and_skip_misses() {
    let out = collect_results(vec![Some(result("a")), None, Some(result("c")), None, Some(result("e"))]);
    let ids: Vec<&str> = out.iter().map(|r| r.provider_id.as_str()).collect();
    assert_eq!(ids, vec!["a", "c", "e"]);
    assert!(collect_results(vec![None, None]).is_empty());
}

#[test]
fn deepl_free_keys_use_the_free_endpoint() {
    assert!(deepl_is_free_key("abc-123:fx"));
    assert!(!deepl_is_free_key("abc-123"));
    assert!(!deepl_is_free_key("fx"));
    assert_eq!(deepl_api_url("k:fx"), "https://api-free.deepl.com/v2/translate");
    assert_eq!(deepl_api_url("k"), "https://api.deepl.com/v2/translate");
}

#[test]
fn deepl_auto_source_means_detect() {
    assert_eq!(deepl_source_lang("auto"), None);
    assert_eq!(deepl_source_lang("DE").as_deref(), Some("DE"));
}

#[test]
fn deepl_statuses() {
    assert_eq!(deepl_status_failure(403), Some(DeeplFailure::InvalidKey));
    assert_eq!(deepl_status_failure(456), Some(DeeplFailure::QuotaExceeded));
    assert_eq!(deepl_status_failure(500), Some(DeeplFailure::Http(500)));
    assert_eq!(deepl_status_failure(199), Some(DeeplFailure::Http(199)));
    assert_eq!(deepl_status_failure(200), None);
    assert_eq!(deepl_status_failure(299), None);
}

#[test]
fn success_statuses() {
    assert!(is_success_status(200));
    assert!(is_success_status(299));
    assert!(!is_success_status(199));
    assert!(!is_success_status(300));
    assert!(!is_success_status(404));
}

#[test]
fn deepl_takes_the_first_translation() {
    assert!(deepl_result(Vec::new()).is_none());
    let r = deepl_result(vec![
        DeeplTranslation { text: "Hallo".into(), detected_source_language: "EN".into() },
        DeeplTranslation { text: "other".into(), detected_source_language: "FR".into() },
    ])
    .unwrap();
    assert_eq!(r.provider_id, "deepl");
    assert_eq!(r.provider_label, "DeepL");
    assert_eq!(r.kind, ResultKind::Translation);
    assert_eq!(r.content, "Hallo");
    assert_eq!(r.source_lang.as_deref(), Some("EN"));
}

#[test]
fn google_url_percent_encodes_the_query() {
    assert_eq!(
        google_url("auto", "zh-CN", "héllo wörld&x"),
        "https://translate.googleapis.com/translate_a/single?client=gtx&sl=auto&tl=zh-CN&dt=t&q=h%C3%A9llo%20w%C3%B6rld%26x"
    );
}

fn s(t: &str) -> Json {
    Json::Str(t.to_string())
}

#[test]
fn google_joins_the_segments() {
    let raw = Json::Array(vec![
        Json::Array(vec![
            Json::Array(vec![s("Bonjour "), s("Hello ")]),
            Json::Array(vec![Json::Null]),
            Json::Array(vec![s("le monde"), s("world")]),
        ]),
        Json::Null,
        s("en"),
    ]);
    let r = google_result("google_1", "Google", &raw).unwrap();
    assert_eq!(r.content, "Bonjour le monde");
    assert_eq!(r.provider_id, "google_1");
    assert_eq!(r.provider_label, "Google");
    assert_eq!(r.source_lang.as_deref(), Some("en"));
}

#[test]
fn google_without_text_gives_nothing() {
    assert!(google_result("g", "G", &Json::Null).is_none());
    assert!(google_result("g", "G", &Json::Array(vec![Json::Bool(true)])).is_none());
    let blank = Json::Array(vec![Json::Array(vec![Json::Array(vec![s("  ")])])]);
    assert!(google_result("g", "G", &blank).is_none());
    let no_lang = Json::Array(vec![Json::Array(vec![Json::Array(vec![s("x")])]), Json::Number("1".into())]);
    assert_eq!(google_result("g", "G", &no_lang).unwrap().source_lang, None);
}

#[test]
fn wikipedia_url_and_statuses() {
    assert_eq!(
        wikipedia_url("en", "Rust (language)"),
        "https://en.wikipedia.org/api/rest_v1/page/summary/Rust%20%28language%29"
    );
    assert_eq!(wikipedia_status(200), WikiStatus::Found);
    assert_eq!(wikipedia_status(404), WikiStatus::Missing);
    assert_eq!(wikipedia_status(500), WikiStatus::Failed);
    assert_eq!(wikipedia_status(301), WikiStatus::Failed);
}

#[test]
fn wikipedia_article_content() {
    let data = WikiSummary {
        title: "T".into(),
        extract: "A <b> & \"c\"".into(),
        extract_html: None,
        description: Some("d<e>".into()),
    };
    let r = wikipedia_result("wikipedia_2", "Wiki", "en", data).unwrap();
    assert_eq!(r.kind, ResultKind::Article);
    assert_eq!(
        r.content,
        "<p class=\"wiki-desc\">d&lt;e&gt;</p><p>A &lt;b&gt; &amp; &quot;c&quot;</p>"
    );
    assert_eq!(r.source_lang.as_deref(), Some("en"));
    let with_html = WikiSummary {
        title: "T".into(),
        extract: "x".into(),
        extract_html: Some("<p>x</p>".into()),
        description: None,
    };
    assert_eq!(
        wikipedia_result("w", "W", "de", with_html).unwrap().content,
        "<p class=\"wiki-desc\"></p><p>x</p>"
    );
    let unsafe_html = WikiSummary {
        title: "T".into(),
        extract: "x".into(),
        extract_html: Some("<p onclick=\"steal()\">x</p><script>x</script>".into()),
        description: None,
    };
    assert_eq!(
        wikipedia_result("w", "W", "de", unsafe_html).unwrap().content,
        "<p class=\"wiki-desc\"></p><p>x</p>"
    );
    let blank = WikiSummary { title: "T".into(), extract: " ".into(), extract_html: None, description: None };
    assert!(wikipedia_result("w", "W", "de", blank).is_none());
}

#[test]
fn html_escape_escapes_markup() {
    assert_eq!(html_escape("a&b<c>\"d\"'"), "a&amp;b&lt;c&gt;&quot;d&quot;'");
    assert_eq!(html_escape("&amp;"), "&amp;amp;");
}

#[test]
fn sanitizer_strips_scripts_and_handlers() {
    let html = "<div ONCLICK='x()' class=\"a\"><SCRIPT type=\"t\">\nbad()\n</script>ok</div>".to_string();
    assert_eq!(sanitize_mdx_html(html), "<div class=\"a\">ok</div>");
    assert_eq!(
        sanitize_mdx_html("<a href=\"sound://x.wav\">s</a> <a href=\"entry://y\">y</a>".to_string()),
        "<a href=\"wispet://mdd/sound/x.wav\">s</a> <a href=\"#y\">y</a>"
    );
}

#[test]
fn mdx_result_is_a_dictionary_entry() {
    let r = mdx_result("mdx_0", "Dict", "<b onmouseover=a()>x</b>".to_string());
    assert_eq!(r.kind, ResultKind::Dict);
    assert_eq!(r.content, "<b>x</b>");
    assert!(r.source_lang.is_none());
}
