//! Turning the configuration into the list of providers to query, and the
//! report of every entry that could not be used.

use vstd::prelude::*;
use crate::config::Config;
use crate::text::{decimal, decimal_chars, string_from_chars, texts};
use crate::plan::{
    by_priority,
    lemma_priority_order_unique,
    mdx_load_error,
    no_providers_message,
    plan_providers,
    plan_views,
    plans_in_order,
    PlanView,
    ProviderPlan,
    finish_report,
};

verus! {

/// A provider ready to be queried. `D` is the opened dictionary of an MDX
/// entry.
pub enum LoadedProvider<D> {
    Mdx { id: String, label: String, path: String, dict: D },
    Deepl {
        id: String,
        label: String,
        api_key: String,
        source_lang: String,
        target_lang: String,
    },
    Google { id: String, label: String, source_lang: String, target_lang: String },
    Wikipedia { id: String, label: String, lang: String },
}

impl<D> View for LoadedProvider<D> {
    type V = PlanView;

    /// The plan that the provider was made from.
    open spec fn view(&self) -> PlanView {
        match self {
            LoadedProvider::Mdx { id, label, path, .. } => PlanView::Mdx {
                id: id@,
                label: label@,
                path: path@,
            },
            LoadedProvider::Deepl { id, label, api_key, source_lang, target_lang } =>
                PlanView::Deepl {
                id: id@,
                label: label@,
                api_key: api_key@,
                source_lang: source_lang@,
                target_lang: target_lang@,
            },
            LoadedProvider::Google { id, label, source_lang, target_lang } => PlanView::Google {
                id: id@,
                label: label@,
                source_lang: source_lang@,
                target_lang: target_lang@,
            },
            LoadedProvider::Wikipedia { id, label, lang } => PlanView::Wikipedia {
                id: id@,
                label: label@,
                lang: lang@,
            },
        }
    }
}

/// The report line of a dictionary that failed to open.
pub open spec fn load_error_line(label: Seq<char>, path: Seq<char>, detail: Seq<char>) -> Seq<
    char,
> {
    "MDX provider \""@ + label + "\" ("@ + path + "): "@ + detail
}

/// The plans, among the first `k`, that give a provider: all but the
/// reported problems and the dictionaries that failed to open
/// (`failures[i]` holds why the dictionary of plan `i` did not open).
pub open spec fn kept_plans(plans: Seq<PlanView>, failures: Seq<Option<Seq<char>>>, k: int) -> Seq<
    PlanView,
>
    decreases k,
{
    if k <= 0 {
        Seq::empty()
    } else {
        let prev = kept_plans(plans, failures, k - 1);
        match plans[k - 1] {
            PlanView::Problem { .. } => prev,
            PlanView::Mdx { .. } => if failures[k - 1] is Some {
                prev
            } else {
                prev.push(plans[k - 1])
            },
            _ => prev.push(plans[k - 1]),
        }
    }
}

/// The report lines of the first `k` plans: each problem, and each
/// dictionary that failed to open, in order.
pub open spec fn problem_lines(plans: Seq<PlanView>, failures: Seq<Option<Seq<char>>>, k: int) -> Seq<
    Seq<char>,
>
    decreases k,
{
    if k <= 0 {
        Seq::empty()
    } else {
        let prev = problem_lines(plans, failures, k - 1);
        match plans[k - 1] {
            PlanView::Problem { message } => prev.push(message),
            PlanView::Mdx { label, path, .. } => match failures[k - 1] {
                Some(detail) => prev.push(load_error_line(label, path, detail)),
                None => prev,
            },
            _ => prev,
        }
    }
}

/// The whole report: the problem lines, and a last line when no provider
/// is left.
pub open spec fn startup_report(plans: Seq<PlanView>, failures: Seq<Option<Seq<char>>>) -> Seq<
    Seq<char>,
> {
    let lines = problem_lines(plans, failures, plans.len() as int);
    if kept_plans(plans, failures, plans.len() as int).len() == 0 {
        lines.push(no_providers_message())
    } else {
        lines
    }
}

/// `failures` records, for every plan, whether its dictionary failed to
/// open and with which message: only MDX plans fail, and each failure is
/// what `open_mdx` returned for the plan's path.
pub open spec fn failures_from<D, F: Fn(&str) -> Result<D, String>>(
    open_mdx: F,
    plans: Seq<PlanView>,
    failures: Seq<Option<Seq<char>>>,
) -> bool {
    &&& failures.len() == plans.len()
    &&& forall|i: int|
        #![trigger failures[i]]
        0 <= i < plans.len() && failures[i] is Some ==> {
            &&& plans[i] is Mdx
            &&& exists|p: &str, e: String|
                #![trigger call_ensures(open_mdx, (p,), Err::<D, String>(e))]
                p@ == plans[i]->Mdx_path && e@ == failures[i]->0 && call_ensures(
                    open_mdx,
                    (p,),
                    Err::<D, String>(e),
                )
        }
}

/// Each dictionary held is what `open_mdx` returned for its path.
pub open spec fn opened_by<D, F: Fn(&str) -> Result<D, String>>(
    open_mdx: F,
    loaded: Seq<LoadedProvider<D>>,
) -> bool {
    forall|j: int|
        #![trigger loaded[j]]
        0 <= j < loaded.len() && loaded[j] is Mdx ==> exists|p: &str|
            #![trigger call_ensures(open_mdx, (p,), Ok::<D, String>(loaded[j]->Mdx_dict))]
            p@ == loaded[j]->Mdx_path@ && call_ensures(
                open_mdx,
                (p,),
                Ok::<D, String>(loaded[j]->Mdx_dict),
            )
}

/// The providers, as plans.
pub open spec fn loaded_views<D>(loaded: Seq<LoadedProvider<D>>) -> Seq<PlanView> {
    loaded.map_values(|p: LoadedProvider<D>| p@)
}

/// The configuration `cfg` was turned into `loaded` and `report`: with
/// `order` the entries by priority and `failures` the dictionaries that did
/// not open, the providers are the plans kept and the report is
/// `startup_report`.
pub open spec fn built_from<D, F: Fn(&str) -> Result<D, String>>(
    open_mdx: F,
    cfg: Config,
    order: Seq<usize>,
    failures: Seq<Option<Seq<char>>>,
    loaded: Seq<LoadedProvider<D>>,
    report: Seq<Seq<char>>,
) -> bool {
    let list = cfg.providers.list@;
    let plans = plans_in_order(list, order, order.len() as int);
    &&& by_priority(list, order)
    &&& failures_from(open_mdx, plans, failures)
    &&& loaded_views(loaded) == kept_plans(plans, failures, plans.len() as int)
    &&& report == startup_report(plans, failures)
}

/// Building is determined by the configuration and by which dictionaries
/// open: two builds of the same configuration in which the same
/// dictionaries fail, with the same messages, give the same providers (in
/// the same order, with the same ids and labels) and the same report. So
/// `build_providers` gives the providers of `build_providers_reporting`.
pub proof fn lemma_build_determined<D, F: Fn(&str) -> Result<D, String>>(
    open_mdx: F,
    cfg: Config,
    order1: Seq<usize>,
    order2: Seq<usize>,
    failures: Seq<Option<Seq<char>>>,
    loaded1: Seq<LoadedProvider<D>>,
    loaded2: Seq<LoadedProvider<D>>,
    report1: Seq<Seq<char>>,
    report2: Seq<Seq<char>>,
)
    requires
        cfg.providers.list@.len() <= usize::MAX,
        built_from(open_mdx, cfg, order1, failures, loaded1, report1),
        built_from(open_mdx, cfg, order2, failures, loaded2, report2),
    ensures
        loaded_views(loaded1) == loaded_views(loaded2),
        report1 == report2,
{
    lemma_priority_order_unique(cfg.providers.list@, order1, order2);
}

/// Builds the providers that the configuration asks for, in priority order
/// (ties in configuration order), opening each MDX dictionary with
/// `open_mdx`, and reports every entry that could not be used: MDX entries
/// without a path, DeepL entries without a key, entries of unknown type,
/// dictionaries that failed to open, and, last, that no provider is left at
/// all. Disabled entries are skipped silently.
pub fn build_providers_reporting<D, F: Fn(&str) -> Result<D, String>>(cfg: &Config, open_mdx: F) -> (r: (
    Vec<LoadedProvider<D>>,
    Vec<String>,
))
    requires
        forall|p: &str| call_requires(open_mdx, (p,)),
    ensures
        exists|order: Seq<usize>, failures: Seq<Option<Seq<char>>>|
            #[trigger] built_from(open_mdx, *cfg, order, failures, r.0@, texts(r.1@)),
        opened_by(open_mdx, r.0@),
{
    let plans = plan_providers(cfg);
    let ghost list = cfg.providers.list@;
    let ghost order = choose|order: Seq<usize>|
        by_priority(list, order) && plan_views(plans@) == plans_in_order(
            list,
            order,
            order.len() as int,
        );
    let ghost pv = plan_views(plans@);
    let mut providers: Vec<LoadedProvider<D>> = Vec::new();
    let mut errors: Vec<String> = Vec::new();
    let ghost mut failures: Seq<Option<Seq<char>>> = Seq::empty();
    let mut i: usize = 0;
    assert(loaded_views(providers@) =~= kept_plans(pv, failures, 0));
    assert(texts(errors@) =~= problem_lines(pv, failures, 0));
    while i < plans.len()
        invariant
            i <= plans@.len(),
            pv == plan_views(plans@),
            forall|p: &str| call_requires(open_mdx, (p,)),
            failures.len() == i,
            forall|k: int|
                #![trigger failures[k]]
                0 <= k < i && failures[k] is Some ==> {
                    &&& pv[k] is Mdx
                    &&& exists|p: &str, e: String|
                        #![trigger call_ensures(open_mdx, (p,), Err::<D, String>(e))]
                        p@ == pv[k]->Mdx_path && e@ == failures[k]->0 && call_ensures(
                            open_mdx,
                            (p,),
                            Err::<D, String>(e),
                        )
                },
            loaded_views(providers@) == kept_plans(pv, failures, i as int),
            texts(errors@) == problem_lines(pv, failures, i as int),
            opened_by(open_mdx, providers@),
        decreases plans@.len() - i,
    {
        let ghost prev_failures = failures;
        let ghost prev_providers = providers@;
        let ghost prev_errors = errors@;
        assert(pv[i as int] == plans@[i as int]@);
        match &plans[i] {
            ProviderPlan::Mdx { id, label, path } => {
                let p = path.as_str();
                let opened = open_mdx(p);
                match opened {
                    Ok(dict) => {
                        proof {
                            failures = failures.push(None);
                        }
                        providers.push(
                            LoadedProvider::Mdx {
                                id: id.clone(),
                                label: label.clone(),
                                path: path.clone(),
                                dict,
                            },
                        );
                        assert(loaded_views(providers@) =~= loaded_views(prev_providers).push(
                            pv[i as int],
                        ));
                        assert(opened_by(open_mdx, providers@)) by {
                            assert forall|j: int|
                                #![trigger providers@[j]]
                                0 <= j < providers@.len() && providers@[j] is Mdx implies exists|
                                q: &str,
                            |
                                #![trigger call_ensures(open_mdx, (q,), Ok::<D, String>(providers@[j]->Mdx_dict))]
                                q@ == providers@[j]->Mdx_path@ && call_ensures(
                                    open_mdx,
                                    (q,),
                                    Ok::<D, String>(providers@[j]->Mdx_dict),
                                ) by {
                                if j < prev_providers.len() {
                                    assert(providers@[j] == prev_providers[j]);
                                } else {
                                    assert(call_ensures(
                                        open_mdx,
                                        (p,),
                                        Ok::<D, String>(providers@[j]->Mdx_dict),
                                    ));
                                }
                            }
                        }
                    },
                    Err(e) => {
                        proof {
                            failures = failures.push(Some(e@));
                            assert(call_ensures(open_mdx, (p,), Err::<D, String>(e)));
                        }
                        let line = mdx_load_error(label.as_str(), path.as_str(), e.as_str());
                        errors.push(line);
                        assert(texts(errors@) =~= texts(prev_errors).push(
                            load_error_line(label@, path@, e@),
                        ));
                    },
                }
            },
            ProviderPlan::Deepl { id, label, api_key, source_lang, target_lang } => {
                proof {
                    failures = failures.push(None);
                }
                providers.push(
                    LoadedProvider::Deepl {
                        id: id.clone(),
                        label: label.clone(),
                        api_key: api_key.clone(),
                        source_lang: source_lang.clone(),
                        target_lang: target_lang.clone(),
                    },
                );
                assert(loaded_views(providers@) =~= loaded_views(prev_providers).push(
                    pv[i as int],
                ));
            },
            ProviderPlan::Google { id, label, source_lang, target_lang } => {
                proof {
                    failures = failures.push(None);
                }
                providers.push(
                    LoadedProvider::Google {
                        id: id.clone(),
                        label: label.clone(),
                        source_lang: source_lang.clone(),
                        target_lang: target_lang.clone(),
                    },
                );
                assert(loaded_views(providers@) =~= loaded_views(prev_providers).push(
                    pv[i as int],
                ));
            },
            ProviderPlan::Wikipedia { id, label, lang } => {
                proof {
                    failures = failures.push(None);
                }
                providers.push(
                    LoadedProvider::Wikipedia {
                        id: id.clone(),
                        label: label.clone(),
                        lang: lang.clone(),
                    },
                );
                assert(loaded_views(providers@) =~= loaded_views(prev_providers).push(
                    pv[i as int],
                ));
            },
            ProviderPlan::Problem { message } => {
                proof {
                    failures = failures.push(None);
                }
                errors.push(message.clone());
                assert(texts(errors@) =~= texts(prev_errors).push(message@));
            },
        }
        assert(kept_plans(pv, failures, i as int) == kept_plans(pv, prev_failures, i as int))
            by {
            lemma_prefix_plans(pv, prev_failures, failures, i as int);
        }
        assert(problem_lines(pv, failures, i as int) == problem_lines(pv, prev_failures, i as int))
            by {
            lemma_prefix_plans(pv, prev_failures, failures, i as int);
        }
        i += 1;
    }
    let count = providers.len();
    let report = finish_report(errors, count);
    proof {
        assert(texts(report@) =~= startup_report(pv, failures)) by {
            if count == 0 {
                assert(texts(report@).take(texts(report@).len() - 1) =~= texts(
                    report@.take(report@.len() - 1),
                ));
            }
        }
        assert(built_from(open_mdx, *cfg, order, failures, providers@, texts(report@)));
    }
    let ghost lp = providers@;
    let ghost lr = report@;
    let r = (providers, report);
    assert(r.0@ == lp);
    assert(r.1@ == lr);
    r
}

/// Only the first `k` failures matter to the first `k` plans.
proof fn lemma_prefix_plans(
    plans: Seq<PlanView>,
    a: Seq<Option<Seq<char>>>,
    b: Seq<Option<Seq<char>>>,
    k: int,
)
    requires
        0 <= k,
        k <= a.len(),
        k <= b.len(),
        forall|i: int| 0 <= i < k ==> a[i] == b[i],
    ensures
        kept_plans(plans, a, k) == kept_plans(plans, b, k),
        problem_lines(plans, a, k) == problem_lines(plans, b, k),
    decreases k,
{
    if k > 0 {
        lemma_prefix_plans(plans, a, b, k - 1);
    }
}

/// The providers that the configuration asks for: the first half of
/// `build_providers_reporting`.
pub fn build_providers<D, F: Fn(&str) -> Result<D, String>>(cfg: &Config, open_mdx: F) -> (r: Vec<
    LoadedProvider<D>,
>)
    requires
        forall|p: &str| call_requires(open_mdx, (p,)),
    ensures
        exists|order: Seq<usize>, failures: Seq<Option<Seq<char>>>, report: Seq<Seq<char>>|
            built_from(open_mdx, *cfg, order, failures, r@, report),
        opened_by(open_mdx, r@),
{
    build_providers_reporting(cfg, open_mdx).0
}


/// The label of the launch time: `unix_ts=<seconds>`, or `unknown time`
/// when the clock stands before the Unix epoch.
pub fn timestamp_label(unix_secs: Option<u64>) -> (r: String)
    ensures
        r@ == match unix_secs {
            Some(n) => "unix_ts="@ + decimal(n as nat),
            None => "unknown time"@,
        },
{
    match unix_secs {
        Some(n) => {
            let mut s = String::from_str("unix_ts=");
            let digits = decimal_chars(n);
            let d = string_from_chars(digits.as_slice());
            s.append(d.as_str());
            s
        },
        None => String::from_str("unknown time"),
    }
}

/// The bullet lines of the first `k` problems.
pub open spec fn bullet_lines(errors: Seq<Seq<char>>, k: int) -> Seq<char>
    decreases k,
{
    if k <= 0 {
        Seq::empty()
    } else {
        bullet_lines(errors, k - 1) + "- "@ + errors[k - 1] + "\n"@
    }
}

/// The text of the startup log written at launch `now`, given the report.
pub open spec fn startup_log(errors: Seq<Seq<char>>, now: Seq<char>) -> Seq<char> {
    if errors.len() == 0 {
        "Wispet startup at "@ + now + "\nAll configured providers loaded successfully.\n"@
    } else {
        "Wispet startup at "@ + now + "\n"@ + decimal(errors.len()) + " problem(s) found:\n\n"@
            + bullet_lines(errors, errors.len() as int)
    }
}

/// The text of the startup log: the launch time, then either that every
/// provider loaded or the number of problems and one `- ` line for each.
pub fn startup_log_contents(errors: &[String], now: &str) -> (r: String)
    ensures
        r@ == startup_log(texts(errors@), now@),
{
    let mut s = String::from_str("Wispet startup at ");
    s.append(now);
    if errors.len() == 0 {
        s.append("\nAll configured providers loaded successfully.\n");
        return s;
    }
    s.append("\n");
    let digits = decimal_chars(errors.len() as u64);
    let d = string_from_chars(digits.as_slice());
    s.append(d.as_str());
    s.append(" problem(s) found:\n\n");
    let ghost head = s@;
    let ghost es = texts(errors@);
    let mut i: usize = 0;
    while i < errors.len()
        invariant
            i <= errors@.len(),
            es == texts(errors@),
            s@ == head + bullet_lines(es, i as int),
        decreases errors@.len() - i,
    {
        s.append("- ");
        s.append(errors[i].as_str());
        s.append("\n");
        assert(es[i as int] == errors@[i as int]@);
        assert(s@ =~= head + bullet_lines(es, i + 1));
        i += 1;
    }
    s
}

} // verus!
