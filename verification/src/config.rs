//! The configuration read from `wispet.toml`, and its defaults.

use vstd::prelude::*;
use crate::text::{all_white_space, is_blank, is_white_space};

verus! {

/// The whole configuration.
#[derive(Debug, Clone)]
pub struct Config {
    pub general: General,
    pub providers: Providers,
}

/// General settings.
#[derive(Debug, Clone)]
pub struct General {
    /// Hotkey that opens the search box.
    pub hotkey_main: String,
}

/// The configured lookup providers.
#[derive(Debug, Clone)]
pub struct Providers {
    pub list: Vec<ProviderEntry>,
}

/// One configured provider.
#[derive(Debug, Clone)]
pub struct ProviderEntry {
    /// "mdx" | "deepl" | "google" | "wikipedia"
    pub kind: String,
    pub enabled: bool,
    pub priority: u32,
    pub label: Option<String>,
    pub path: Option<String>,
    pub api_key: Option<String>,
    pub source_lang: Option<String>,
    pub target_lang: Option<String>,
    pub lang: Option<String>,
}

/// The hotkey used when none is configured.
pub open spec fn default_hotkey() -> Seq<char> {
    "Ctrl+Alt+Space"@
}

impl Default for Providers {
    fn default() -> (r: Self)
        ensures
            r.list@.len() == 0,
    {
        Providers { list: Vec::new() }
    }
}

impl Default for Config {
    /// The first-launch configuration: the default hotkey and one enabled
    /// MDX provider with a placeholder path.
    fn default() -> (r: Self)
        ensures
            r.general.hotkey_main@ == default_hotkey(),
            r.providers.list@.len() == 1,
            r.providers.list@[0].kind@ == "mdx"@,
            r.providers.list@[0].enabled,
            r.providers.list@[0].priority == 1,
            r.providers.list@[0].label matches Some(l) && l@ == "Vocabulary.com"@,
            r.providers.list@[0].path matches Some(p) && p@ == "vocabulary.com.mdx"@,
            r.providers.list@[0].api_key is None,
            r.providers.list@[0].source_lang is None,
            r.providers.list@[0].target_lang is None,
            r.providers.list@[0].lang is None,
    {
        let mut list: Vec<ProviderEntry> = Vec::new();
        list.push(
            ProviderEntry {
                kind: String::from_str("mdx"),
                enabled: true,
                priority: 1,
                label: Some(String::from_str("Vocabulary.com")),
                path: Some(String::from_str("vocabulary.com.mdx")),
                api_key: None,
                source_lang: None,
                target_lang: None,
                lang: None,
            },
        );
        Config {
            general: General { hotkey_main: String::from_str("Ctrl+Alt+Space") },
            providers: Providers { list },
        }
    }
}

/// `after` is `before` made usable: a blank hotkey replaced by the default
/// one, everything else kept.
pub open spec fn normalized(before: Config, after: Config) -> bool {
    &&& if all_white_space(before.general.hotkey_main@) {
        after.general.hotkey_main@ == default_hotkey()
    } else {
        after.general.hotkey_main == before.general.hotkey_main
    }
    &&& after.providers == before.providers
}

/// A loaded configuration made usable: a blank hotkey (which would make
/// shortcut registration fail) falls back to the default one; everything
/// else is kept.
pub fn normalize_config(cfg: Config) -> (r: Config)
    ensures
        normalized(cfg, r),
{
    if is_blank(cfg.general.hotkey_main.as_str()) {
        Config {
            general: General { hotkey_main: String::from_str("Ctrl+Alt+Space") },
            providers: cfg.providers,
        }
    } else {
        cfg
    }
}

/// A normalized configuration always has a hotkey to register: its hotkey
/// is never blank.
pub proof fn lemma_normalized_hotkey_not_blank(before: Config, after: Config)
    requires
        normalized(before, after),
    ensures
        !all_white_space(after.general.hotkey_main@),
{
    reveal_strlit("Ctrl+Alt+Space");
    if all_white_space(before.general.hotkey_main@) {
        assert(!is_white_space(default_hotkey()[0]));
    }
}

/// The comment block written above the settings in `wispet.toml`.
pub open spec fn config_header() -> Seq<char> {
    "# Wispet configuration
#
# This is the ONLY place Wispet is configured — there is no in-app
# settings UI. Edit this file, then restart Wispet for changes to take
# effect (config is read once at startup).
#
# hotkey_main : opens the search box
#               hotkey syntax: modifier+key, e.g. \"Ctrl+Alt+Space\", \"Ctrl+Shift+W\"
#
# [[providers.list]] entries are tried in `priority` order (lowest first).
# type = \"mdx\"       — a local .mdx dictionary file (path required)
# type = \"deepl\"     — DeepL API (api_key required)
# type = \"google\"    — Google Translate (no key required)
# type = \"wikipedia\" — Wikipedia summary (no key required)

"@
}

/// The text of `wispet.toml`: the comment block, then the settings.
pub fn config_file_text(body: &str) -> (r: String)
    ensures
        r@ == config_header() + body@,
{
    let mut s = String::from_str(
        "# Wispet configuration
#
# This is the ONLY place Wispet is configured — there is no in-app
# settings UI. Edit this file, then restart Wispet for changes to take
# effect (config is read once at startup).
#
# hotkey_main : opens the search box
#               hotkey syntax: modifier+key, e.g. \"Ctrl+Alt+Space\", \"Ctrl+Shift+W\"
#
# [[providers.list]] entries are tried in `priority` order (lowest first).
# type = \"mdx\"       — a local .mdx dictionary file (path required)
# type = \"deepl\"     — DeepL API (api_key required)
# type = \"google\"    — Google Translate (no key required)
# type = \"wikipedia\" — Wikipedia summary (no key required)

",
    );
    s.append(body);
    s
}

} // verus!
