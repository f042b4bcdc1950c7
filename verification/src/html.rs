//! HTML clean-up of dictionary records, and escaping of plain text.

use vstd::prelude::*;
use crate::text::{chars_of, replace_all, replace_str, string_from_chars};

verus! {

/// Script elements with their content, across lines, in any case.
pub const SCRIPT_PATTERN: &'static str = "(?si)<script[^>]*>.*?</script>";

/// Inline event-handler attributes (`onclick=...` and the like).
pub const EVENT_ATTR_PATTERN: &'static str = "(?i)\\s+on\\w+\\s*=\\s*(\"[^\"]*\"|'[^']*'|[^\\s>]+)";

/// What `regex_lite::Regex::new(pattern)` and then `replace_all(haystack,
/// replacement)` give: `None` when the pattern does not compile.
pub uninterp spec fn regex_replace_all_result(
    pattern: Seq<char>,
    haystack: Seq<char>,
    replacement: Seq<char>,
) -> Option<Seq<char>>;

/// `regex_lite::Regex::new` followed by `Regex::replace_all`: every
/// non-overlapping match replaced. The two patterns of this module are
/// valid regex-lite syntax, so they compile; what the replacement gives is
/// left to the name `regex_replace_all_result`.
#[verifier::external_body]
pub(crate) fn regex_replace_all(pattern: &str, haystack: &str, replacement: &str) -> (r: Option<String>)
    ensures
        match r {
            Some(s) => regex_replace_all_result(pattern@, haystack@, replacement@) == Some(s@),
            None => regex_replace_all_result(pattern@, haystack@, replacement@) is None,
        },
        (pattern@ == SCRIPT_PATTERN@ || pattern@ == EVENT_ATTR_PATTERN@) ==> r is Some,
{
    match regex_lite::Regex::new(pattern) {
        Ok(re) => Some(re.replace_all(haystack, replacement).into_owned()),
        Err(_) => None,
    }
}

/// A dictionary record made safe to show: script elements and event
/// attributes removed, `sound://` links pointed at the resource scheme and
/// `entry://` links turned into anchors.
pub open spec fn spec_sanitize(html: Seq<char>) -> Seq<char> {
    let no_script = regex_replace_all_result(SCRIPT_PATTERN@, html, ""@).unwrap();
    let no_events = regex_replace_all_result(EVENT_ATTR_PATTERN@, no_script, ""@).unwrap();
    replace_all(
        replace_all(no_events, "sound://"@, "wispet://mdd/sound/"@),
        "entry://"@,
        "#"@,
    )
}

/// Strips potentially dangerous tags and attributes from MDX HTML.
pub fn sanitize_mdx_html(html: String) -> (r: String)
    ensures
        r@ == spec_sanitize(html@),
{
    let no_script = match regex_replace_all(SCRIPT_PATTERN, html.as_str(), "") {
        Some(s) => s,
        None => html,
    };
    let no_events = match regex_replace_all(EVENT_ATTR_PATTERN, no_script.as_str(), "") {
        Some(s) => s,
        None => no_script,
    };
    proof {
        reveal_strlit("sound://");
        reveal_strlit("entry://");
    }
    let linked = replace_str(no_events.as_str(), "sound://", "wispet://mdd/sound/");
    replace_str(linked.as_str(), "entry://", "#")
}

/// `s` with `&`, `<`, `>` and `"` written as character references.
pub open spec fn spec_html_escape(s: Seq<char>) -> Seq<char> {
    replace_all(
        replace_all(replace_all(replace_all(s, "&"@, "&amp;"@), "<"@, "&lt;"@), ">"@, "&gt;"@),
        seq!['"'],
        "&quot;"@,
    )
}

/// Escapes text for use inside HTML.
pub fn html_escape(s: &str) -> (r: String)
    ensures
        r@ == spec_html_escape(s@),
{
    proof {
        reveal_strlit("&");
        reveal_strlit("<");
        reveal_strlit(">");
    }
    let a = replace_str(s, "&", "&amp;");
    let b = replace_str(a.as_str(), "<", "&lt;");
    let c = replace_str(b.as_str(), ">", "&gt;");
    let quote: Vec<char> = vec!['"'];
    assert(quote@ =~= seq!['"']);
    let entity = chars_of("&quot;");
    let cc = chars_of(c.as_str());
    let d = crate::text::replace_chars(cc.as_slice(), quote.as_slice(), entity.as_slice());
    string_from_chars(d.as_slice())
}

} // verus!
