//! Which providers a configuration asks for, in which order, and what is
//! reported about the entries that cannot be used.

use vstd::prelude::*;
use crate::config::{Config, ProviderEntry};
use crate::index::is_permutation;
use crate::sort::lemma_permutation_of_range;
use crate::sort::{IndexOrder, identity_indices, in_range, merge_sort};
use crate::text::{texts, chars_eq, chars_of, decimal, decimal_chars, string_from_chars};

verus! {

/// Entry `i` is tried before entry `j`: by priority (lowest first), then
/// in configuration order.
pub open spec fn priority_before(entries: Seq<ProviderEntry>, i: int, j: int) -> bool {
    entries[i].priority < entries[j].priority || (entries[i].priority == entries[j].priority
        && i < j)
}

/// The order of provider entries by priority.
pub struct PriorityOrder<'a> {
    pub entries: &'a Vec<ProviderEntry>,
}

impl<'a> IndexOrder for PriorityOrder<'a> {
    open spec fn count(&self) -> nat {
        self.entries@.len()
    }

    open spec fn before(&self, i: int, j: int) -> bool {
        priority_before(self.entries@, i, j)
    }

    proof fn lemma_strict_total(&self) {
    }

    fn precedes(&self, i: usize, j: usize) -> (r: bool) {
        let pi = self.entries[i].priority;
        let pj = self.entries[j].priority;
        pi < pj || (pi == pj && i < j)
    }
}

/// What the configuration asks for at one position of the priority order.
pub enum ProviderPlan {
    /// A local dictionary to open.
    Mdx { id: String, label: String, path: String },
    /// DeepL with this key and these languages.
    Deepl {
        id: String,
        label: String,
        api_key: String,
        source_lang: String,
        target_lang: String,
    },
    /// Google Translate with these languages.
    Google { id: String, label: String, source_lang: String, target_lang: String },
    /// Wikipedia in this language.
    Wikipedia { id: String, label: String, lang: String },
    /// An entry that cannot be used, with the line that reports it.
    Problem { message: String },
}

/// `ProviderPlan` with its text seen as character sequences.
pub enum PlanView {
    Mdx { id: Seq<char>, label: Seq<char>, path: Seq<char> },
    Deepl {
        id: Seq<char>,
        label: Seq<char>,
        api_key: Seq<char>,
        source_lang: Seq<char>,
        target_lang: Seq<char>,
    },
    Google { id: Seq<char>, label: Seq<char>, source_lang: Seq<char>, target_lang: Seq<char> },
    Wikipedia { id: Seq<char>, label: Seq<char>, lang: Seq<char> },
    Problem { message: Seq<char> },
}

impl View for ProviderPlan {
    type V = PlanView;

    open spec fn view(&self) -> PlanView {
        match self {
            ProviderPlan::Mdx { id, label, path } => PlanView::Mdx {
                id: id@,
                label: label@,
                path: path@,
            },
            ProviderPlan::Deepl { id, label, api_key, source_lang, target_lang } =>
                PlanView::Deepl {
                id: id@,
                label: label@,
                api_key: api_key@,
                source_lang: source_lang@,
                target_lang: target_lang@,
            },
            ProviderPlan::Google { id, label, source_lang, target_lang } => PlanView::Google {
                id: id@,
                label: label@,
                source_lang: source_lang@,
                target_lang: target_lang@,
            },
            ProviderPlan::Wikipedia { id, label, lang } => PlanView::Wikipedia {
                id: id@,
                label: label@,
                lang: lang@,
            },
            ProviderPlan::Problem { message } => PlanView::Problem { message: message@ },
        }
    }
}

/// An optional setting, or its default.
pub open spec fn or_default(o: Option<String>, default: Seq<char>) -> Seq<char> {
    match o {
        Some(s) => s@,
        None => default,
    }
}

/// The report line of an MDX entry without a path.
pub open spec fn missing_path_message(label: Seq<char>) -> Seq<char> {
    "MDX provider \""@ + label + "\" has no path configured — skipping"@
}

/// The report line of an entry of unknown type.
pub open spec fn unknown_type_message(kind: Seq<char>) -> Seq<char> {
    "Unknown provider type '"@ + kind + "' — skipping"@
}

/// The report line of a DeepL entry without an API key.
pub open spec fn missing_key_message() -> Seq<char> {
    "DeepL provider missing api_key — skipping"@
}

/// What the entry `e` at position `i` of the priority order asks for:
/// nothing when it is disabled; a reported problem when it cannot be used.
pub open spec fn entry_plan(e: ProviderEntry, i: nat) -> Option<PlanView> {
    if !e.enabled {
        None
    } else {
        let id = e.kind@ + "_"@ + decimal(i);
        let label = or_default(e.label, e.kind@);
        if e.kind@ == "mdx"@ {
            match e.path {
                Some(p) => Some(PlanView::Mdx { id, label, path: p@ }),
                None => Some(PlanView::Problem { message: missing_path_message(label) }),
            }
        } else if e.kind@ == "deepl"@ {
            match e.api_key {
                Some(k) => Some(
                    PlanView::Deepl {
                        id,
                        label,
                        api_key: k@,
                        source_lang: or_default(e.source_lang, "auto"@),
                        target_lang: or_default(e.target_lang, "EN"@),
                    },
                ),
                None => Some(PlanView::Problem { message: missing_key_message() }),
            }
        } else if e.kind@ == "google"@ {
            Some(
                PlanView::Google {
                    id,
                    label,
                    source_lang: or_default(e.source_lang, "auto"@),
                    target_lang: or_default(e.target_lang, "zh-CN"@),
                },
            )
        } else if e.kind@ == "wikipedia"@ {
            Some(PlanView::Wikipedia { id, label, lang: or_default(e.lang, "en"@) })
        } else {
            Some(PlanView::Problem { message: unknown_type_message(e.kind@) })
        }
    }
}

/// A setting carried into a plan: the configured value when there is one,
/// else the default.
pub open spec fn carried(planned: Seq<char>, configured: Option<String>, default: Seq<char>) -> bool {
    match configured {
        Some(v) => planned == v@,
        None => planned == default,
    }
}

/// An enabled entry's plan carries its settings: a Google plan translates
/// from the entry's `source_lang` to its `target_lang` (`auto` and `zh-CN`
/// when unset), a DeepL plan likewise (`auto` and `EN`) with the entry's
/// key, a Wikipedia plan uses the entry's `lang` (`en` when unset) and an
/// MDX plan the entry's path; the label is the entry's, or its type.
pub proof fn lemma_plan_carries_settings(e: ProviderEntry, i: nat)
    requires
        e.enabled,
    ensures
        e.kind@ == "google"@ ==> (entry_plan(e, i) matches Some(
            PlanView::Google { label, source_lang, target_lang, .. },
        ) && carried(source_lang, e.source_lang, "auto"@) && carried(
            target_lang,
            e.target_lang,
            "zh-CN"@,
        ) && carried(label, e.label, e.kind@)),
        (e.kind@ == "deepl"@ && e.api_key is Some) ==> (entry_plan(e, i) matches Some(
            PlanView::Deepl { label, api_key, source_lang, target_lang, .. },
        ) && api_key == e.api_key->0@ && carried(source_lang, e.source_lang, "auto"@) && carried(
            target_lang,
            e.target_lang,
            "EN"@,
        ) && carried(label, e.label, e.kind@)),
        e.kind@ == "wikipedia"@ ==> (entry_plan(e, i) matches Some(
            PlanView::Wikipedia { label, lang, .. },
        ) && carried(lang, e.lang, "en"@) && carried(label, e.label, e.kind@)),
        (e.kind@ == "mdx"@ && e.path is Some) ==> (entry_plan(e, i) matches Some(
            PlanView::Mdx { label, path, .. },
        ) && path == e.path->0@ && carried(label, e.label, e.kind@)),
{
    reveal_strlit("google");
    reveal_strlit("deepl");
    reveal_strlit("wikipedia");
    reveal_strlit("mdx");
}

/// The plans of the first `k` positions of `order`.
pub open spec fn plans_in_order(entries: Seq<ProviderEntry>, order: Seq<usize>, k: int) -> Seq<
    PlanView,
>
    decreases k,
{
    if k <= 0 {
        Seq::empty()
    } else {
        let prev = plans_in_order(entries, order, k - 1);
        match entry_plan(entries[order[k - 1] as int], (k - 1) as nat) {
            Some(p) => prev.push(p),
            None => prev,
        }
    }
}

/// `order` lists the entries by priority, ties in configuration order.
pub open spec fn by_priority(entries: Seq<ProviderEntry>, order: Seq<usize>) -> bool {
    &&& is_permutation(order, entries.len())
    &&& forall|a: int, b: int|
        0 <= a < b < order.len() ==> !priority_before(entries, order[b] as int, order[a] as int)
}

/// The priority order is unique: two orders of the same entries that both
/// list them by priority (ties in configuration order) are the same.
pub proof fn lemma_priority_order_unique(entries: Seq<ProviderEntry>, o1: Seq<usize>, o2: Seq<usize>)
    requires
        entries.len() <= usize::MAX,
        by_priority(entries, o1),
        by_priority(entries, o2),
    ensures
        o1 == o2,
{
    let n = entries.len();
    lemma_permutation_of_range(o1, n);
    lemma_permutation_of_range(o2, n);
    lemma_orders_agree(entries, o1, o2, n as int);
    assert(o1 =~= o2);
}

/// Two priority orders agree on their first `k` positions.
proof fn lemma_orders_agree(entries: Seq<ProviderEntry>, o1: Seq<usize>, o2: Seq<usize>, k: int)
    requires
        0 <= k <= entries.len(),
        by_priority(entries, o1),
        by_priority(entries, o2),
        o1.len() == entries.len(),
        o2.len() == entries.len(),
        forall|x: usize| (x as int) < entries.len() ==> #[trigger] o1.contains(x),
        forall|x: usize| (x as int) < entries.len() ==> #[trigger] o2.contains(x),
        forall|a: int, b: int| 0 <= a < b < o1.len() ==> o1[a] != o1[b],
        forall|a: int, b: int| 0 <= a < b < o2.len() ==> o2[a] != o2[b],
        forall|a: int| 0 <= a < o1.len() ==> (o1[a] as int) < entries.len(),
        forall|a: int| 0 <= a < o2.len() ==> (o2[a] as int) < entries.len(),
    ensures
        forall|j: int| 0 <= j < k ==> o1[j] == o2[j],
    decreases k,
{
    if k > 0 {
        lemma_orders_agree(entries, o1, o2, k - 1);
        let m = k - 1;
        let x = o1[m];
        let y = o2[m];
        if x != y {
            assert(o2.contains(x));
            let p = choose|p: int| 0 <= p < o2.len() && o2[p] == x;
            assert(o1.contains(y));
            let q = choose|q: int| 0 <= q < o1.len() && o1[q] == y;
            if p < m {
                assert(o1[p] == x);
            }
            if q < m {
                assert(o2[q] == y);
            }
            assert(!priority_before(entries, o1[q] as int, o1[m] as int));
            assert(!priority_before(entries, o2[p] as int, o2[m] as int));
        }
    }
}

/// The plans as views.
pub open spec fn plan_views(plans: Seq<ProviderPlan>) -> Seq<PlanView> {
    plans.map_values(|p: ProviderPlan| p@)
}

/// An optional setting, or its default.
fn setting_or(o: &Option<String>, default: &str) -> (r: String)
    ensures
        r@ == or_default(*o, default@),
{
    match o {
        Some(s) => s.clone(),
        None => String::from_str(default),
    }
}

/// Whether the text is the given literal.
fn is_text(s: &str, lit: &str) -> (r: bool)
    ensures
        r == (s@ == lit@),
{
    let a = chars_of(s);
    let b = chars_of(lit);
    chars_eq(a.as_slice(), b.as_slice())
}

/// What one entry, at position `i` of the priority order, asks for.
fn plan_entry(e: &ProviderEntry, i: usize) -> (r: Option<ProviderPlan>)
    ensures
        match r {
            Some(p) => entry_plan(*e, i as nat) == Some(p@),
            None => entry_plan(*e, i as nat) is None,
        },
{
    if !e.enabled {
        return None;
    }
    let mut id = e.kind.clone();
    id.append("_");
    let digits = decimal_chars(i as u64);
    let d = string_from_chars(digits.as_slice());
    id.append(d.as_str());
    let label = match &e.label {
        Some(l) => l.clone(),
        None => e.kind.clone(),
    };
    if is_text(e.kind.as_str(), "mdx") {
        match &e.path {
            Some(p) => Some(ProviderPlan::Mdx { id, label, path: p.clone() }),
            None => {
                let mut message = String::from_str("MDX provider \"");
                message.append(label.as_str());
                message.append("\" has no path configured — skipping");
                Some(ProviderPlan::Problem { message })
            },
        }
    } else if is_text(e.kind.as_str(), "deepl") {
        match &e.api_key {
            Some(k) => Some(
                ProviderPlan::Deepl {
                    id,
                    label,
                    api_key: k.clone(),
                    source_lang: setting_or(&e.source_lang, "auto"),
                    target_lang: setting_or(&e.target_lang, "EN"),
                },
            ),
            None => Some(
                ProviderPlan::Problem {
                    message: String::from_str("DeepL provider missing api_key — skipping"),
                },
            ),
        }
    } else if is_text(e.kind.as_str(), "google") {
        Some(
            ProviderPlan::Google {
                id,
                label,
                source_lang: setting_or(&e.source_lang, "auto"),
                target_lang: setting_or(&e.target_lang, "zh-CN"),
            },
        )
    } else if is_text(e.kind.as_str(), "wikipedia") {
        Some(ProviderPlan::Wikipedia { id, label, lang: setting_or(&e.lang, "en") })
    } else {
        let mut message = String::from_str("Unknown provider type '");
        message.append(e.kind.as_str());
        message.append("' — skipping");
        Some(ProviderPlan::Problem { message })
    }
}

/// What the configuration asks for, in the order providers are tried:
/// entries sorted by priority (ties in configuration order), each given
/// the id `<type>_<position>` and its label (or its type); disabled
/// entries ask for nothing; MDX entries without a path, DeepL entries
/// without a key and entries of unknown type are reported.
pub fn plan_providers(cfg: &Config) -> (r: Vec<ProviderPlan>)
    ensures
        exists|order: Seq<usize>|
            by_priority(cfg.providers.list@, order) && plan_views(r@) == plans_in_order(
                cfg.providers.list@,
                order,
                order.len() as int,
            ),
{
    let list = &cfg.providers.list;
    let o = PriorityOrder { entries: list };
    let ids = identity_indices(list.len());
    let order = merge_sort(&o, ids.as_slice());
    proof {
        assert forall|a: int, b: int|
            0 <= a < b < order@.len() implies !priority_before(
            list@,
            order@[b] as int,
            order@[a] as int,
        ) by {
            assert(!o.before(order@[b] as int, order@[a] as int));
        }
        assert(by_priority(list@, order@));
    }
    let mut plans: Vec<ProviderPlan> = Vec::new();
    let mut i: usize = 0;
    assert(plan_views(plans@) =~= plans_in_order(list@, order@, 0));
    while i < order.len()
        invariant
            i <= order@.len(),
            in_range(&o, order@),
            o.entries@ == list@,
            plan_views(plans@) == plans_in_order(list@, order@, i as int),
        decreases order@.len() - i,
    {
        let e = &list[order[i]];
        let ghost prev = plans@;
        match plan_entry(e, i) {
            Some(p) => {
                plans.push(p);
                assert(plan_views(plans@) =~= plan_views(prev).push(plans@.last()@));
            },
            None => {},
        }
        i += 1;
    }
    plans
}

/// The report line of a dictionary that failed to open.
pub fn mdx_load_error(label: &str, path: &str, detail: &str) -> (r: String)
    ensures
        r@ == "MDX provider \""@ + label@ + "\" ("@ + path@ + "): "@ + detail@,
{
    let mut s = String::from_str("MDX provider \"");
    s.append(label);
    s.append("\" (");
    s.append(path);
    s.append("): ");
    s.append(detail);
    s
}

/// The report line when no provider could be loaded.
pub open spec fn no_providers_message() -> Seq<char> {
    "No providers loaded — every lookup will return \"no result\". Check the paths/settings in wispet.toml."@
}

/// The final report: the problems found, plus a last line when no provider
/// was loaded at all.
pub fn finish_report(errors: Vec<String>, loaded: usize) -> (r: Vec<String>)
    ensures
        loaded > 0 ==> r@ == errors@,
        loaded == 0 ==> r@.len() == errors@.len() + 1 && r@.take(errors@.len() as int)
            == errors@ && r@.last()@ == no_providers_message(),
{
    let mut errors = errors;
    let ghost start = errors@;
    if loaded == 0 {
        errors.push(
            String::from_str(
                "No providers loaded — every lookup will return \"no result\". Check the paths/settings in wispet.toml.",
            ),
        );
        assert(errors@.take(start.len() as int) =~= start);
    }
    errors
}

/// The paths of the MDX entries, in configuration order (enabled or not):
/// the dictionaries whose `.mdd` archives may hold a resource.
pub open spec fn mdx_paths(entries: Seq<ProviderEntry>, k: int) -> Seq<Seq<char>>
    decreases k,
{
    if k <= 0 {
        Seq::empty()
    } else {
        let prev = mdx_paths(entries, k - 1);
        let e = entries[k - 1];
        if e.kind@ == "mdx"@ && e.path is Some {
            prev.push(e.path.unwrap()@)
        } else {
            prev
        }
    }
}

/// The paths of the MDX entries, whose `.mdd` archives may hold resources.
pub fn mdd_sources(cfg: &Config) -> (r: Vec<String>)
    ensures
        texts(r@) == mdx_paths(cfg.providers.list@, cfg.providers.list@.len() as int),
{
    let list = &cfg.providers.list;
    let mut out: Vec<String> = Vec::new();
    let mut i: usize = 0;
    assert(texts(out@) =~= mdx_paths(list@, 0));
    while i < list.len()
        invariant
            i <= list@.len(),
            texts(out@) == mdx_paths(list@, i as int),
        decreases list@.len() - i,
    {
        let e = &list[i];
        let ghost prev = out@;
        if is_text(e.kind.as_str(), "mdx") {
            match &e.path {
                Some(p) => {
                    out.push(p.clone());
                    assert(texts(out@) =~= texts(prev).push(
                        p@,
                    ));
                },
                None => {},
            }
        }
        i += 1;
    }
    out
}

} // verus!
