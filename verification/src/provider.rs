//! Results of the lookup providers, and the parts of each provider that
//! decide what it asks for and what it makes of the answer.

use vstd::prelude::*;
use crate::bytes::MdxError;
use crate::dict::{MdxDict, lookup_outcome};
use crate::html::{html_escape, sanitize_mdx_html, spec_html_escape, spec_sanitize};
use crate::text::{all_white_space, chars_eq, chars_of, is_blank};
use crate::url::{percent_encode, url_encode};
use vstd::utf8::encode_utf8;

verus! {

/// What kind of content a result holds.
#[derive(Debug, Clone, Copy, PartialEq, Eq, Structural)]
pub enum ResultKind {
    /// Structured dictionary entry (HTML).
    Dict,
    /// Machine translation (plain text).
    Translation,
    /// Encyclopedia article excerpt (HTML).
    Article,
}

/// One provider's answer to a lookup.
#[derive(Debug, Clone)]
pub struct ProviderResult {
    pub provider_id: String,
    pub provider_label: String,
    pub kind: ResultKind,
    /// Sanitized HTML for `Dict` and `Article`, plain UTF-8 for `Translation`.
    pub content: String,
    pub phonetic: Option<String>,
    /// The source language, if detected.
    pub source_lang: Option<String>,
}

/// The view of an optional string.
pub open spec fn opt_view(o: Option<String>) -> Option<Seq<char>> {
    match o {
        Some(s) => Some(s@),
        None => None,
    }
}

/// `r` holds exactly the given fields.
pub open spec fn result_is(
    r: ProviderResult,
    id: Seq<char>,
    label: Seq<char>,
    kind: ResultKind,
    content: Seq<char>,
    source_lang: Option<Seq<char>>,
) -> bool {
    &&& r.provider_id@ == id
    &&& r.provider_label@ == label
    &&& r.kind == kind
    &&& r.content@ == content
    &&& r.phonetic is None
    &&& opt_view(r.source_lang) == source_lang
}

/// Whether a lookup is worth making: the query is not blank.
pub fn should_lookup(query: &str) -> (r: bool)
    ensures
        r == !all_white_space(query@),
{
    !is_blank(query)
}

/// The results of a lookup across providers, in provider order, without
/// the providers that found nothing or failed.
pub open spec fn flatten_results(outcomes: Seq<Option<ProviderResult>>) -> Seq<ProviderResult>
    decreases outcomes.len(),
{
    if outcomes.len() == 0 {
        Seq::empty()
    } else {
        let rest = flatten_results(outcomes.drop_last());
        match outcomes.last() {
            Some(r) => rest.push(r),
            None => rest,
        }
    }
}

/// Keeps the results that were found, in order.
pub fn collect_results(outcomes: Vec<Option<ProviderResult>>) -> (r: Vec<ProviderResult>)
    ensures
        r@ == flatten_results(outcomes@),
{
    let ghost all = outcomes@;
    let n = outcomes.len();
    let mut src = outcomes;
    let mut rev: Vec<Option<ProviderResult>> = Vec::new();
    while src.len() > 0
        invariant
            n == all.len(),
            src@ == all.take(src@.len() as int),
            rev@.len() == n - src@.len(),
            forall|j: int| 0 <= j < rev@.len() ==> #[trigger] rev@[j] == all[n - 1 - j],
        decreases src@.len(),
    {
        let ghost before = src@;
        let x = src.pop().unwrap();
        rev.push(x);
        proof {
            assert(src@ =~= all.take(src@.len() as int));
        }
    }
    let mut out: Vec<ProviderResult> = Vec::new();
    let mut k: usize = 0;
    assert(all.take(0) =~= Seq::<Option<ProviderResult>>::empty());
    while rev.len() > 0
        invariant
            n == all.len(),
            k + rev@.len() == n,
            forall|j: int| 0 <= j < rev@.len() ==> #[trigger] rev@[j] == all[n - 1 - j],
            out@ == flatten_results(all.take(k as int)),
        decreases rev@.len(),
    {
        let x = rev.pop().unwrap();
        proof {
            assert(x == all[k as int]);
            assert(all.take(k + 1).drop_last() =~= all.take(k as int));
            assert(all.take(k + 1).last() == x);
        }
        match x {
            Some(res) => out.push(res),
            None => {},
        }
        k += 1;
    }
    assert(all.take(n as int) =~= all);
    out
}

/// Whether an HTTP status is a success (200 to 299).
pub fn is_success_status(status: u16) -> (r: bool)
    ensures
        r == (200 <= status && status <= 299),
{
    200 <= status && status <= 299
}

/// DeepL free-tier API keys end in `:fx`.
pub open spec fn is_free_key(api_key: Seq<char>) -> bool {
    api_key.len() >= 3 && api_key.subrange(api_key.len() - 3, api_key.len() as int) == ":fx"@
}

/// Whether a DeepL key belongs to the free tier.
pub fn deepl_is_free_key(api_key: &str) -> (r: bool)
    ensures
        r == is_free_key(api_key@),
{
    let k = chars_of(api_key);
    let suffix = chars_of(":fx");
    proof {
        reveal_strlit(":fx");
    }
    if k.len() < 3 {
        return false;
    }
    let tail = vstd::slice::slice_subrange(k.as_slice(), k.len() - 3, k.len());
    chars_eq(tail, suffix.as_slice())
}

/// The DeepL endpoint for a key: the free one for free-tier keys.
pub fn deepl_api_url(api_key: &str) -> (r: &'static str)
    ensures
        r@ == (if is_free_key(api_key@) {
            "https://api-free.deepl.com/v2/translate"@
        } else {
            "https://api.deepl.com/v2/translate"@
        }),
{
    if deepl_is_free_key(api_key) {
        "https://api-free.deepl.com/v2/translate"
    } else {
        "https://api.deepl.com/v2/translate"
    }
}

/// The source language sent to DeepL: none, so that DeepL detects it,
/// when it is configured as `auto`.
pub fn deepl_source_lang(source_lang: &str) -> (r: Option<String>)
    ensures
        source_lang@ == "auto"@ ==> r is None,
        source_lang@ != "auto"@ ==> (r matches Some(s) && s@ == source_lang@),
{
    let s = chars_of(source_lang);
    let auto = chars_of("auto");
    if chars_eq(s.as_slice(), auto.as_slice()) {
        None
    } else {
        Some(String::from_str(source_lang))
    }
}

/// Why a DeepL request failed, by its HTTP status.
#[derive(Debug, Clone, Copy, PartialEq, Eq, Structural)]
pub enum DeeplFailure {
    /// 403: the API key was refused.
    InvalidKey,
    /// 456: the quota is used up.
    QuotaExceeded,
    /// Another status outside 200..=299.
    Http(u16),
}

/// The failure a DeepL response status means, if any.
pub fn deepl_status_failure(status: u16) -> (r: Option<DeeplFailure>)
    ensures
        r == (if status == 403 {
            Some(DeeplFailure::InvalidKey)
        } else if status == 456 {
            Some(DeeplFailure::QuotaExceeded)
        } else if status < 200 || status > 299 {
            Some(DeeplFailure::Http(status))
        } else {
            None::<DeeplFailure>
        }),
{
    if status == 403 {
        Some(DeeplFailure::InvalidKey)
    } else if status == 456 {
        Some(DeeplFailure::QuotaExceeded)
    } else if status < 200 || status > 299 {
        Some(DeeplFailure::Http(status))
    } else {
        None
    }
}

/// One translation in a DeepL response.
pub struct DeeplTranslation {
    pub text: String,
    pub detected_source_language: String,
}

/// The result made of a DeepL response: its first translation, if any.
pub fn deepl_result(translations: Vec<DeeplTranslation>) -> (r: Option<ProviderResult>)
    ensures
        translations@.len() == 0 ==> r is None,
        translations@.len() > 0 ==> (r matches Some(res) && result_is(
            res,
            "deepl"@,
            "DeepL"@,
            ResultKind::Translation,
            translations@[0].text@,
            Some(translations@[0].detected_source_language@),
        )),
{
    let mut translations = translations;
    if translations.len() == 0 {
        return None;
    }
    let first = translations.remove(0);
    Some(
        ProviderResult {
            provider_id: String::from_str("deepl"),
            provider_label: String::from_str("DeepL"),
            kind: ResultKind::Translation,
            content: first.text,
            phonetic: None,
            source_lang: Some(first.detected_source_language),
        },
    )
}

/// A JSON value, as the providers' responses hold them.
pub enum Json {
    Null,
    Bool(bool),
    /// A number, in its textual form.
    Number(String),
    Str(String),
    Array(Vec<Json>),
    Object(Vec<(String, Json)>),
}

/// The `i`-th element of a JSON array (`Value::get` with an index).
pub open spec fn json_at(j: Json, i: int) -> Option<Json> {
    match j {
        Json::Array(v) => if 0 <= i < v@.len() {
            Some(v@[i])
        } else {
            None
        },
        _ => None,
    }
}

/// The text of a JSON string (`Value::as_str`).
pub open spec fn json_text(j: Option<Json>) -> Option<Seq<char>> {
    match j {
        Some(Json::Str(s)) => Some(s@),
        _ => None,
    }
}

/// The concatenated first elements of the segments that are strings.
pub open spec fn segment_texts(segments: Seq<Json>) -> Seq<char>
    decreases segments.len(),
{
    if segments.len() == 0 {
        Seq::empty()
    } else {
        let rest = segment_texts(segments.drop_last());
        match json_text(json_at(segments.last(), 0)) {
            Some(t) => rest + t,
            None => rest,
        }
    }
}

/// The translation in a Google Translate response: the first element is
/// a list of sentence segments whose first elements are the translated
/// text.
pub open spec fn google_translation(raw: Json) -> Option<Seq<char>> {
    match json_at(raw, 0) {
        Some(Json::Array(segments)) => Some(segment_texts(segments@)),
        _ => None,
    }
}

/// The Google Translate request for `query`.
pub fn google_url(source_lang: &str, target_lang: &str, query: &str) -> (r: String)
    ensures
        r@ == "https://translate.googleapis.com/translate_a/single?client=gtx&sl="@ + source_lang@
            + "&tl="@ + target_lang@ + "&dt=t&q="@ + percent_encode(encode_utf8(query@)),
{
    let mut url = String::from_str("https://translate.googleapis.com/translate_a/single?client=gtx&sl=");
    url.append(source_lang);
    url.append("&tl=");
    url.append(target_lang);
    url.append("&dt=t&q=");
    let q = url_encode(query);
    url.append(q.as_str());
    url
}

/// The text of the first element of a segment, if it is a string.
fn segment_text(seg: &Json) -> (r: Option<&String>)
    ensures
        match r {
            Some(s) => json_text(json_at(*seg, 0)) == Some(s@),
            None => json_text(json_at(*seg, 0)) is None,
        },
{
    match seg {
        Json::Array(v) => {
            if v.len() > 0 {
                match &v[0] {
                    Json::Str(s) => Some(s),
                    _ => None,
                }
            } else {
                None
            }
        },
        _ => None,
    }
}

/// The result made of a Google Translate response: none when the
/// response holds no segment list or only blank text.
pub fn google_result(id: &str, label: &str, raw: &Json) -> (r: Option<ProviderResult>)
    ensures
        match google_translation(*raw) {
            None => r is None,
            Some(text) => if all_white_space(text) {
                r is None
            } else {
                r matches Some(res) && result_is(
                    res,
                    id@,
                    label@,
                    ResultKind::Translation,
                    text,
                    json_text(json_at(*raw, 2)),
                )
            },
        },
{
    let segments = match raw {
        Json::Array(top) => {
            if top.len() > 0 {
                match &top[0] {
                    Json::Array(segs) => segs,
                    _ => return None,
                }
            } else {
                return None;
            }
        },
        _ => return None,
    };
    let mut text = String::new();
    let mut k: usize = 0;
    while k < segments.len()
        invariant
            k <= segments@.len(),
            text@ == segment_texts(segments@.take(k as int)),
        decreases segments@.len() - k,
    {
        proof {
            assert(segments@.take(k + 1).drop_last() =~= segments@.take(k as int));
        }
        match segment_text(&segments[k]) {
            Some(t) => text.append(t.as_str()),
            None => {},
        }
        k += 1;
    }
    assert(segments@.take(segments@.len() as int) =~= segments@);
    if is_blank(text.as_str()) {
        return None;
    }
    let detected = match raw {
        Json::Array(top) => {
            if top.len() > 2 {
                match &top[2] {
                    Json::Str(s) => Some(s.clone()),
                    _ => None,
                }
            } else {
                None
            }
        },
        _ => None,
    };
    Some(
        ProviderResult {
            provider_id: String::from_str(id),
            provider_label: String::from_str(label),
            kind: ResultKind::Translation,
            content: text,
            phonetic: None,
            source_lang: detected,
        },
    )
}

/// The Wikipedia summary request for `query` in the wiki of `lang`.
pub fn wikipedia_url(lang: &str, query: &str) -> (r: String)
    ensures
        r@ == "https://"@ + lang@ + ".wikipedia.org/api/rest_v1/page/summary/"@ + percent_encode(
            encode_utf8(query@),
        ),
{
    let mut url = String::from_str("https://");
    url.append(lang);
    url.append(".wikipedia.org/api/rest_v1/page/summary/");
    let q = url_encode(query);
    url.append(q.as_str());
    url
}

/// What a Wikipedia response status means.
#[derive(Debug, Clone, Copy, PartialEq, Eq, Structural)]
pub enum WikiStatus {
    /// 200..=299: a summary follows.
    Found,
    /// 404: there is no such article.
    Missing,
    /// Any other status: the request failed.
    Failed,
}

/// The meaning of a Wikipedia response status.
pub fn wikipedia_status(status: u16) -> (r: WikiStatus)
    ensures
        r == (if status == 404 {
            WikiStatus::Missing
        } else if 200 <= status && status <= 299 {
            WikiStatus::Found
        } else {
            WikiStatus::Failed
        }),
{
    if status == 404 {
        WikiStatus::Missing
    } else if 200 <= status && status <= 299 {
        WikiStatus::Found
    } else {
        WikiStatus::Failed
    }
}

/// A Wikipedia page summary.
pub struct WikiSummary {
    pub title: String,
    pub extract: String,
    pub extract_html: Option<String>,
    pub description: Option<String>,
}

/// The article content made of a summary: the escaped description in a
/// `wiki-desc` paragraph, then the HTML extract, sanitized as dictionary
/// records are (or the escaped plain extract in a paragraph).
pub open spec fn wiki_content(data: WikiSummary) -> Seq<char> {
    let body = match data.extract_html {
        Some(h) => spec_sanitize(h@),
        None => "<p>"@ + spec_html_escape(data.extract@) + "</p>"@,
    };
    let desc = match data.description {
        Some(d) => d@,
        None => Seq::empty(),
    };
    "<p class=\"wiki-desc\">"@ + spec_html_escape(desc) + "</p>"@ + body
}

/// The result made of a Wikipedia summary: none when its extract is blank.
pub fn wikipedia_result(id: &str, label: &str, lang: &str, data: WikiSummary) -> (r: Option<
    ProviderResult,
>)
    ensures
        all_white_space(data.extract@) ==> r is None,
        !all_white_space(data.extract@) ==> (r matches Some(res) && result_is(
            res,
            id@,
            label@,
            ResultKind::Article,
            wiki_content(data),
            Some(lang@),
        )),
{
    if is_blank(data.extract.as_str()) {
        return None;
    }
    let ghost d = data;
    let WikiSummary { title: _, extract, extract_html, description } = data;
    let body = match extract_html {
        Some(h) => sanitize_mdx_html(h),
        None => {
            let mut p = String::from_str("<p>");
            let esc = html_escape(extract.as_str());
            p.append(esc.as_str());
            p.append("</p>");
            p
        },
    };
    let desc = match description {
        Some(d) => d,
        None => String::new(),
    };
    let mut content = String::from_str("<p class=\"wiki-desc\">");
    let esc_desc = html_escape(desc.as_str());
    content.append(esc_desc.as_str());
    content.append("</p>");
    content.append(body.as_str());
    Some(
        ProviderResult {
            provider_id: String::from_str(id),
            provider_label: String::from_str(label),
            kind: ResultKind::Article,
            content,
            phonetic: None,
            source_lang: Some(String::from_str(lang)),
        },
    )
}

/// The result made of a dictionary record: the sanitized HTML.
pub fn mdx_result(id: &str, label: &str, html: String) -> (r: ProviderResult)
    ensures
        result_is(r, id@, label@, ResultKind::Dict, spec_sanitize(html@), None),
{
    ProviderResult {
        provider_id: String::from_str(id),
        provider_label: String::from_str(label),
        kind: ResultKind::Dict,
        content: sanitize_mdx_html(html),
        phonetic: None,
        source_lang: None,
    }
}

/// A dictionary provider's lookup: the record of the query's headword,
/// sanitized, or none when the dictionary lacks the word.
pub fn mdx_lookup(dict: &MdxDict, id: &str, label: &str, query: &str) -> (r: Result<
    Option<ProviderResult>,
    MdxError,
>)
    ensures
        match lookup_outcome(dict.index, query@) {
            Ok(None) => r matches Ok(None),
            Ok(Some(text)) => r matches Ok(Some(res)) && result_is(
                res,
                id@,
                label@,
                ResultKind::Dict,
                spec_sanitize(text),
                None,
            ),
            Err(f) => r matches Err(err) && err@ == f,
        },
{
    match dict.lookup_exact(query)? {
        None => Ok(None),
        Some(html) => Ok(Some(mdx_result(id, label, html))),
    }
}

} // verus!
