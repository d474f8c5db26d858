//! The ZCode plans: which of them a configuration offers, and where their quota is asked for.
//!
//! A coding plan is a subscription of the user's own; a start plan is a trial that ZCode grants.
//! A usable start plan goes before every coding plan.

use crate::diagnostic::{plain_report, report, Diagnostic, Report};
use crate::environment::{first_value, lookup, Environment};
use crate::ordered::Ordered;
use crate::paths::{at_base, below, path_models, FilePath, PathModel};
use crate::text::{
    concat, decimal, ends_with, find_any, finishes_with, first_of, join, joined,
    law_parts_at_the_first, lemma_ending, lemma_first_of, lemma_first_of_is, lemma_joined_holds,
    lemma_parts_at_the_first, lemma_without_trailing, lemma_without_trailing_is, one_of, opt_text,
    same_text, skip_chars, split_at_first, split_once, strip_suffix,
    strip_trailing, take_chars, texts, to_decimal, trim, trimmed, without_trailing,
};
use vstd::prelude::*;
use vstd::string::StringExecFns;

verus! {

/// Where a service tells the quota of a coding plan, below its origin.
pub const QUOTA_PATH: &'static str = "/api/monitor/usage/quota/limit";

/// Where a gateway tells the balance of a start plan, below its root.
pub const BALANCE_PATH: &'static str = "/billing/balance";

/// The kinds of plans whose quota can be read.
#[derive(Debug, Clone, Copy, PartialEq, Eq, Structural)]
pub enum PlanKind {
    Coding,
    Start,
}

/// The name of a kind in snapshots.
pub open spec fn kind_name(kind: PlanKind) -> Seq<char> {
    match kind {
        PlanKind::Coding => "coding_plan"@,
        PlanKind::Start => "start_plan"@,
    }
}

/// The rank of a kind: the lower goes first.
pub open spec fn rank(kind: PlanKind) -> u8 {
    match kind {
        PlanKind::Start => 0,
        PlanKind::Coding => 1,
    }
}

impl PlanKind {
    /// The name of this kind in snapshots.
    pub fn snapshot_kind(self) -> (name: &'static str)
        ensures
            name@ == kind_name(self),
    {
        match self {
            PlanKind::Coding => "coding_plan",
            PlanKind::Start => "start_plan",
        }
    }

    /// The rank of this kind: the lower goes first.
    pub fn priority(self) -> (priority: u8)
        ensures
            priority == rank(self),
    {
        match self {
            PlanKind::Start => 0,
            PlanKind::Coding => 1,
        }
    }
}

/// The kind of plan that a provider's id tells by its ending.
pub open spec fn plan_of(id: Seq<char>) -> Option<PlanKind> {
    if finishes_with(id, "-start-plan"@) {
        Some(PlanKind::Start)
    } else if finishes_with(id, "-coding-plan"@) {
        Some(PlanKind::Coding)
    } else {
        None
    }
}

/// The kind of plan that a provider's id tells.
pub fn plan_kind_from_id(id: &str) -> (kind: Option<PlanKind>)
    ensures
        kind == plan_of(id@),
{
    if ends_with(id, "-start-plan") {
        Some(PlanKind::Start)
    } else if ends_with(id, "-coding-plan") {
        Some(PlanKind::Coding)
    } else {
        None
    }
}

/// The characters that end the authority of a URL.
pub open spec fn authority_ends() -> Seq<char> {
    seq!['/', '?', '#']
}

/// The scheme of a URL, its authority, and what follows that.
pub open spec fn url_parts(base_url: Seq<char>) -> Option<(Seq<char>, Seq<char>, Seq<char>)> {
    match split_at_first(trimmed(base_url), "://"@) {
        Some((scheme, rest)) => {
            let end = first_of(rest, one_of(authority_ends()));
            if scheme.len() > 0 && end > 0 {
                Some((scheme, rest.take(end), rest.skip(end)))
            } else {
                None
            }
        },
        None => None,
    }
}

/// The quota endpoint at the origin of a base URL.
pub open spec fn quota_url(base_url: Seq<char>) -> Option<Seq<char>> {
    match url_parts(base_url) {
        Some((scheme, authority, _)) => Some(scheme + "://"@ + authority + QUOTA_PATH@),
        None => None,
    }
}

/// The root of a gateway: its path without the part that serves the Anthropic interface.
pub open spec fn gateway_path(path: Seq<char>) -> Option<Seq<char>> {
    if finishes_with(path, "/anthropic"@) {
        Some(path.take(path.len() - "/anthropic"@.len()))
    } else if path == "/api/v1/zcode-plan"@ {
        Some(path)
    } else {
        None
    }
}

/// The balance endpoint of the gateway that a base URL leads to.
pub open spec fn balance_url(base_url: Seq<char>, app_version: Seq<char>) -> Option<Seq<char>> {
    match url_parts(base_url) {
        Some((scheme, authority, rest)) => match gateway_path(
            without_trailing(rest, one_of(seq!['/'])),
        ) {
            Some(gateway) => Some(
                scheme + "://"@ + authority + gateway + BALANCE_PATH@ + "?app_version="@
                    + app_version,
            ),
            None => None,
        },
        None => None,
    }
}

/// The scheme of a URL, its authority, and what follows that.
fn split_url(base_url: &str) -> (parts: Option<(&str, &str, &str)>)
    ensures
        match parts {
            Some((scheme, authority, rest)) => url_parts(base_url@) == Some(
                (scheme@, authority@, rest@),
            ),
            None => url_parts(base_url@) is None,
        },
{
    match split_once(trim(base_url), "://") {
        Some((scheme, rest)) => {
            let ends: Vec<char> = vec!['/', '?', '#'];
            proof {
                assert(ends@ =~= authority_ends());
            }
            let end: usize = find_any(rest, &ends);
            if scheme.is_empty() || end == 0 {
                None
            } else {
                Some((scheme, take_chars(rest, end), skip_chars(rest, end)))
            }
        },
        None => None,
    }
}

/// The quota endpoint at the origin of a base URL.
pub fn quota_url_from_base_url(base_url: &str) -> (url: Option<String>)
    ensures
        opt_text(url) == quota_url(base_url@),
{
    match split_url(base_url) {
        Some((scheme, authority, _)) => {
            let mut url: String = concat(scheme, "://");
            url.append(authority);
            url.append(QUOTA_PATH);
            Some(url)
        },
        None => None,
    }
}

/// The balance endpoint of the gateway that a base URL leads to. The monitoring path of the
/// coding plans does not exist there.
pub fn start_plan_balance_url(base_url: &str, app_version: &str) -> (url: Option<String>)
    ensures
        opt_text(url) == balance_url(base_url@, app_version@),
{
    match split_url(base_url) {
        Some((scheme, authority, rest)) => {
            let slash: Vec<char> = vec!['/'];
            proof {
                assert(slash@ =~= seq!['/']);
            }
            let path: &str = strip_trailing(rest, &slash);
            let gateway: &str = match strip_suffix(path, "/anthropic") {
                Some(gateway) => gateway,
                None => if same_text(path, "/api/v1/zcode-plan") {
                    path
                } else {
                    return None;
                },
            };
            let mut url: String = concat(scheme, "://");
            url.append(authority);
            url.append(gateway);
            url.append(BALANCE_PATH);
            url.append("?app_version=");
            url.append(app_version);
            Some(url)
        },
        None => None,
    }
}

/// The options of a provider.
#[derive(Debug)]
pub struct ZCodeProviderOptions {
    pub api_key: String,
    pub base_url: String,
    /// The whole quota URL; where it is empty, the URL follows from `base_url`.
    pub quota_url: String,
}

/// One provider in a configuration.
#[derive(Debug)]
pub struct ZCodeProviderEntry {
    pub enabled: bool,
    pub system_disabled_reason: Option<String>,
    pub options: ZCodeProviderOptions,
}

/// A configuration: its providers by their ids.
#[derive(Debug)]
pub struct ZCodeConfigFile {
    pub provider: Ordered<ZCodeProviderEntry>,
}

/// What the cache says of one provider.
#[derive(Debug)]
pub struct PlanCacheItem {
    pub status: Option<String>,
}

/// What the cache says of the providers, by their ids.
#[derive(Debug)]
pub struct PlanCacheEntryStatus {
    pub items: Ordered<PlanCacheItem>,
}

/// The cache of the plans that are available: the second sign of a granted start plan, since a
/// configuration may not have it enabled yet.
#[derive(Debug)]
pub struct PlanCacheFile {
    pub entry_status: Option<PlanCacheEntryStatus>,
}

/// Whether the cache calls a plan available.
pub open spec fn item_available(item: PlanCacheItem) -> bool {
    match item.status {
        Some(status) => trimmed(status@) == "available"@,
        None => false,
    }
}

/// The ids of the available plans, in their order.
pub open spec fn available(items: Seq<(String, PlanCacheItem)>) -> Seq<Seq<char>>
    decreases items.len(),
{
    if items.len() == 0 {
        seq![]
    } else if item_available(items.last().1) {
        available(items.drop_last()).push(items.last().0@)
    } else {
        available(items.drop_last())
    }
}

/// The ids of the plans that a cache calls available.
pub open spec fn cached_ids(cache: PlanCacheFile) -> Seq<Seq<char>> {
    match cache.entry_status {
        Some(status) => available(status.items.entries()),
        None => seq![],
    }
}

fn is_available(item: &PlanCacheItem) -> (holds: bool)
    ensures
        holds == item_available(*item),
{
    match &item.status {
        Some(status) => same_text(trim(status.as_str()), "available"),
        None => false,
    }
}

impl PlanCacheFile {
    /// The ids of the plans that this cache calls available.
    pub fn available_ids(&self) -> (ids: Vec<String>)
        ensures
            texts(ids@) == cached_ids(*self),
    {
        let mut ids: Vec<String> = Vec::new();
        proof {
            assert(texts(ids@) =~= seq![]);
        }
        if let Some(status) = &self.entry_status {
            let ghost items = status.items.entries();
            let len: usize = status.items.len();
            let mut i: usize = 0;
            proof {
                assert(items.take(0) =~= seq![]);
            }
            while i < len
                invariant
                    i <= len,
                    len == items.len(),
                    items == status.items.entries(),
                    texts(ids@) == available(items.take(i as int)),
                decreases len - i,
            {
                let ghost before = ids@;
                proof {
                    assert(items.take(i + 1).drop_last() =~= items.take(i as int));
                    assert(items.take(i + 1).last() == items[i as int]);
                }
                if is_available(status.items.value(i)) {
                    ids.push(status.items.key(i).clone());
                    proof {
                        assert(texts(ids@) =~= texts(before).push(items[i as int].0@));
                    }
                }
                i = i + 1;
            }
            proof {
                assert(items.take(i as int) =~= items);
            }
        }
        ids
    }
}

/// What the first cache that could be read and decoded calls available; nothing where there is
/// none.
pub open spec fn availability(caches: Seq<Option<PlanCacheFile>>) -> Seq<Seq<char>>
    decreases caches.len(),
{
    if caches.len() == 0 {
        seq![]
    } else {
        match caches[0] {
            Some(cache) => cached_ids(cache),
            None => availability(caches.skip(1)),
        }
    }
}

proof fn lemma_availability_at(caches: Seq<Option<PlanCacheFile>>, at: int)
    requires
        0 <= at <= caches.len(),
        forall|i: int| 0 <= i < at ==> #[trigger] caches[i] is None,
        at < caches.len() ==> caches[at] is Some,
    ensures
        availability(caches) == (if at < caches.len() {
            cached_ids(caches[at]->Some_0)
        } else {
            seq![]
        }),
    decreases caches.len(),
{
    if caches.len() > 0 && at > 0 {
        let rest = caches.skip(1);
        assert(caches[0] is None);
        assert forall|i: int| 0 <= i < at - 1 implies #[trigger] rest[i] is None by {
            assert(rest[i] == caches[i + 1]);
        }
        lemma_availability_at(rest, at - 1);
    }
}

/// The ids of the available plans. `caches` holds, for each directory of the configuration in
/// turn, the cache in it where it could be read and decoded.
pub fn read_plan_cache_availability(caches: &Vec<Option<PlanCacheFile>>) -> (ids: Vec<String>)
    ensures
        texts(ids@) == availability(caches@),
{
    let mut i: usize = 0;
    while i < caches.len()
        invariant
            i <= caches.len(),
            forall|j: int| 0 <= j < i ==> #[trigger] caches@[j] is None,
        decreases caches.len() - i,
    {
        if let Some(cache) = &caches[i] {
            proof {
                lemma_availability_at(caches@, i as int);
            }
            return cache.available_ids();
        }
        i = i + 1;
    }
    proof {
        lemma_availability_at(caches@, i as int);
    }
    let ids: Vec<String> = Vec::new();
    proof {
        assert(texts(ids@) =~= seq![]);
    }
    ids
}

/// The directories in which a configuration is looked for: the one that the environment names;
/// else two below the user's home.
pub open spec fn config_candidates(variables: Seq<(Seq<char>, Seq<char>)>) -> Seq<PathModel> {
    match lookup(variables, "CODEX_CREDITS_ZCODE_CONFIG_DIR"@) {
        Some(dir) => seq![at_base(dir)],
        None => match first_value(lookup(variables, "HOME"@), lookup(variables, "USERPROFILE"@)) {
            Some(home) => seq![
                below(below(at_base(home), ".zcode"@), "v2"@),
                below(at_base(home), ".zcode"@),
            ],
            None => seq![],
        },
    }
}

/// The directories in which a configuration is looked for, in their order.
pub fn zcode_config_candidates(environment: &Environment) -> (directories: Vec<FilePath>)
    ensures
        path_models(directories@) == config_candidates(environment@),
{
    if let Some(dir) = environment.get("CODEX_CREDITS_ZCODE_CONFIG_DIR") {
        let directories: Vec<FilePath> = vec![FilePath::new(dir.as_str())];
        proof {
            assert(path_models(directories@) =~= seq![at_base(dir@)]);
        }
        return directories;
    }
    match environment.get_either("HOME", "USERPROFILE") {
        Some(home) => {
            let current: FilePath = FilePath::new(home.as_str()).join(".zcode").join("v2");
            let plain: FilePath = FilePath::new(home.as_str()).join(".zcode");
            let directories: Vec<FilePath> = vec![current, plain];
            proof {
                assert(path_models(directories@) =~= seq![
                    below(below(at_base(home@), ".zcode"@), "v2"@),
                    below(at_base(home@), ".zcode"@),
                ]);
            }
            directories
        },
        None => {
            let directories: Vec<FilePath> = Vec::new();
            proof {
                assert(path_models(directories@) =~= seq![]);
            }
            directories
        },
    }
}

/// A request for the quota of a plan.
#[derive(Debug)]
pub struct QuotaRequest {
    pub kind: PlanKind,
    pub url: String,
    pub api_key: String,
}

/// The texts of a [`QuotaRequest`].
pub struct RequestModel {
    pub kind: PlanKind,
    pub url: Seq<char>,
    pub api_key: Seq<char>,
}

impl View for QuotaRequest {
    type V = RequestModel;

    open spec fn view(&self) -> RequestModel {
        RequestModel { kind: self.kind, url: self.url@, api_key: self.api_key@ }
    }
}

/// The endpoint of a plan: the one that its options give; else the one that follows from their
/// base URL.
pub open spec fn endpoint_of(
    kind: PlanKind,
    options: ZCodeProviderOptions,
    app_version: Seq<char>,
) -> Option<Seq<char>> {
    if trimmed(options.quota_url@).len() > 0 {
        Some(trimmed(options.quota_url@))
    } else {
        match kind {
            PlanKind::Coding => quota_url(options.base_url@),
            PlanKind::Start => balance_url(options.base_url@, app_version),
        }
    }
}

/// What is said of a provider whose endpoint cannot be told.
pub open spec fn endpoint_detail(id: Seq<char>, base_url: Seq<char>) -> Seq<char> {
    "provider "@ + id + " 的 baseURL 无法解析: "@ + base_url
}

/// The failure of a provider whose endpoint cannot be told.
pub open spec fn endpoint_report(id: Seq<char>, base_url: Seq<char>) -> Report {
    report("CRV-503"@, "ZCode 编程包配置不完整"@, endpoint_detail(id, base_url))
}

/// The endpoint at which the quota of a plan is asked for.
pub fn plan_request_url(
    kind: PlanKind,
    id: &str,
    options: &ZCodeProviderOptions,
    app_version: &str,
) -> (result: Result<String, Diagnostic>)
    ensures
        match endpoint_of(kind, *options, app_version@) {
            Some(url) => result is Ok && result->Ok_0@ == url,
            None => result is Err && result->Err_0@ == endpoint_report(id@, options.base_url@),
        },
{
    let explicit: &str = trim(options.quota_url.as_str());
    if !explicit.is_empty() {
        return Ok(explicit.to_owned());
    }
    let derived: Option<String> = match kind {
        PlanKind::Coding => quota_url_from_base_url(options.base_url.as_str()),
        PlanKind::Start => start_plan_balance_url(options.base_url.as_str(), app_version),
    };
    match derived {
        Some(url) => Ok(url),
        None => {
            let mut detail: String = concat("provider ", id);
            detail.append(" 的 baseURL 无法解析: ");
            detail.append(options.base_url.as_str());
            Err(Diagnostic::new("CRV-503", "ZCode 编程包配置不完整").with_detail(detail.as_str()))
        },
    }
}

/// A plan of a configuration that may be asked for its quota.
pub struct PlanModel {
    pub kind: PlanKind,
    pub id: Seq<char>,
    pub api_key: Seq<char>,
    /// The endpoint; or what is said where it cannot be told.
    pub endpoint: Result<Seq<char>, Seq<char>>,
}

/// Whether a provider is a plan of a kind that may be asked: it is not barred, and it is
/// enabled, or else a start plan that the cache calls available.
pub open spec fn usable(
    id: Seq<char>,
    entry: ZCodeProviderEntry,
    kind: PlanKind,
    cache: Seq<Seq<char>>,
) -> bool {
    &&& plan_of(id) == Some(kind)
    &&& entry.system_disabled_reason is None
    &&& entry.enabled || (kind == PlanKind::Start && cache.contains(id))
}

/// What a provider is as a plan.
pub open spec fn plan_at(
    id: Seq<char>,
    entry: ZCodeProviderEntry,
    kind: PlanKind,
    app_version: Seq<char>,
) -> PlanModel {
    PlanModel {
        kind,
        id,
        api_key: trimmed(entry.options.api_key@),
        endpoint: match endpoint_of(kind, entry.options, app_version) {
            Some(url) => Ok(url),
            None => Err(endpoint_detail(id, entry.options.base_url@)),
        },
    }
}

/// The plans of one kind that may be asked, in the order of their ids.
pub open spec fn plans_of(
    entries: Seq<(String, ZCodeProviderEntry)>,
    kind: PlanKind,
    cache: Seq<Seq<char>>,
    app_version: Seq<char>,
) -> Seq<PlanModel>
    decreases entries.len(),
{
    if entries.len() == 0 {
        seq![]
    } else {
        let rest = plans_of(entries.drop_last(), kind, cache, app_version);
        let (id, entry) = entries.last();
        if usable(id@, entry, kind, cache) {
            rest.push(plan_at(id@, entry, kind, app_version))
        } else {
            rest
        }
    }
}

/// The plans that may be asked: the start plans, unless they are not wanted, before the coding
/// plans.
pub open spec fn plans(
    entries: Seq<(String, ZCodeProviderEntry)>,
    prefer_start: bool,
    cache: Seq<Seq<char>>,
    app_version: Seq<char>,
) -> Seq<PlanModel> {
    if prefer_start {
        plans_of(entries, PlanKind::Start, cache, app_version) + plans_of(
            entries,
            PlanKind::Coding,
            cache,
            app_version,
        )
    } else {
        plans_of(entries, PlanKind::Coding, cache, app_version)
    }
}

/// Whether a plan has a key and an endpoint.
pub open spec fn complete(plan: PlanModel) -> bool {
    plan.api_key.len() > 0 && plan.endpoint is Ok
}

/// The first plan that has a key and an endpoint.
pub open spec fn first_complete(list: Seq<PlanModel>) -> Option<PlanModel>
    decreases list.len(),
{
    if list.len() == 0 {
        None
    } else if complete(list[0]) {
        Some(list[0])
    } else {
        first_complete(list.skip(1))
    }
}

/// What is said of the plans with a key whose endpoint cannot be told.
pub open spec fn endpoint_failures(list: Seq<PlanModel>) -> Seq<Seq<char>>
    decreases list.len(),
{
    if list.len() == 0 {
        seq![]
    } else {
        let rest = endpoint_failures(list.drop_last());
        match list.last().endpoint {
            Err(detail) => if list.last().api_key.len() > 0 {
                rest.push(detail)
            } else {
                rest
            },
            Ok(_) => rest,
        }
    }
}

/// The request that a list of plans gives: that of the first plan with a key and an endpoint.
pub open spec fn chosen(list: Seq<PlanModel>) -> Result<RequestModel, Report> {
    if list.len() == 0 {
        Err(
            report(
                "CRV-502"@,
                "ZCode 编程包未启用"@,
                "config.json 中没有可用的 coding-plan/start-plan provider，请在 ZCode 内订阅并启用编程包"@,
            ),
        )
    } else {
        match first_complete(list) {
            Some(plan) => Ok(
                RequestModel { kind: plan.kind, url: plan.endpoint->Ok_0, api_key: plan.api_key },
            ),
            None => if endpoint_failures(list).len() > 0 {
                Err(
                    report(
                        "CRV-503"@,
                        "ZCode 编程包配置不完整"@,
                        joined(endpoint_failures(list), "; "@),
                    ),
                )
            } else {
                Err(
                    report(
                        "CRV-503"@,
                        "ZCode 编程包未配置 API Key"@,
                        decimal(list.len()) + " 个启用的套餐 provider 均未携带 apiKey"@,
                    ),
                )
            },
        }
    }
}

/// A plan that may be asked for its quota.
#[derive(Debug)]
struct Plan {
    kind: PlanKind,
    id: String,
    api_key: String,
    endpoint: Result<String, String>,
}

impl View for Plan {
    type V = PlanModel;

    closed spec fn view(&self) -> PlanModel {
        PlanModel {
            kind: self.kind,
            id: self.id@,
            api_key: self.api_key@,
            endpoint: match self.endpoint {
                Ok(url) => Ok(url@),
                Err(detail) => Err(detail@),
            },
        }
    }
}

spec fn plan_models(list: Seq<Plan>) -> Seq<PlanModel> {
    Seq::new(list.len(), |i: int| list[i]@)
}

fn contains_id(ids: &Vec<String>, id: &str) -> (holds: bool)
    ensures
        holds == texts(ids@).contains(id@),
{
    let mut i: usize = 0;
    while i < ids.len()
        invariant
            i <= ids.len(),
            forall|j: int| 0 <= j < i ==> #[trigger] texts(ids@)[j] != id@,
        decreases ids.len() - i,
    {
        if same_text(ids[i].as_str(), id) {
            proof {
                assert(texts(ids@)[i as int] == id@);
            }
            return true;
        }
        i = i + 1;
    }
    false
}

fn is_usable(id: &str, entry: &ZCodeProviderEntry, kind: PlanKind, cache: &Vec<String>) -> (holds:
    bool)
    ensures
        holds == usable(id@, *entry, kind, texts(cache@)),
{
    let of_kind: bool = match plan_kind_from_id(id) {
        Some(found) => found == kind,
        None => false,
    };
    of_kind && entry.system_disabled_reason.is_none() && (entry.enabled || (kind == PlanKind::Start
        && contains_id(cache, id)))
}

fn make_plan(id: &str, entry: &ZCodeProviderEntry, kind: PlanKind, app_version: &str) -> (plan:
    Plan)
    ensures
        plan@ == plan_at(id@, *entry, kind, app_version@),
{
    let endpoint: Result<String, String> = match plan_request_url(
        kind,
        id,
        &entry.options,
        app_version,
    ) {
        Ok(url) => Ok(url),
        Err(diagnostic) => match diagnostic.detail {
            Some(detail) => Err(detail),
            None => Err("".to_owned()),
        },
    };
    Plan { kind, id: id.to_owned(), api_key: trim(entry.options.api_key.as_str()).to_owned(), endpoint }
}

/// Appends the plans of a kind that may be asked.
fn add_plans(
    list: &mut Vec<Plan>,
    config: &ZCodeConfigFile,
    kind: PlanKind,
    cache: &Vec<String>,
    app_version: &str,
)
    ensures
        plan_models(final(list)@) == plan_models(old(list)@) + plans_of(
            config.provider.entries(),
            kind,
            texts(cache@),
            app_version@,
        ),
{
    let ghost before = plan_models(list@);
    let ghost entries = config.provider.entries();
    let len: usize = config.provider.len();
    let mut i: usize = 0;
    proof {
        assert(entries.take(0) =~= seq![]);
        assert(before + seq![] =~= before);
    }
    while i < len
        invariant
            i <= len,
            len == entries.len(),
            entries == config.provider.entries(),
            plan_models(list@) == before + plans_of(
                entries.take(i as int),
                kind,
                texts(cache@),
                app_version@,
            ),
        decreases len - i,
    {
        proof {
            assert(entries.take(i + 1).drop_last() =~= entries.take(i as int));
            assert(entries.take(i + 1).last() == entries[i as int]);
        }
        let id: &str = config.provider.key(i).as_str();
        let entry: &ZCodeProviderEntry = config.provider.value(i);
        if is_usable(id, entry, kind, cache) {
            let ghost listed = plan_models(list@);
            let plan: Plan = make_plan(id, entry, kind, app_version);
            list.push(plan);
            proof {
                assert(plan_models(list@) =~= listed.push(plan@));
                let rest = plans_of(entries.take(i as int), kind, texts(cache@), app_version@);
                assert((before + rest).push(plan@) =~= before + rest.push(plan@));
            }
        }
        i = i + 1;
    }
    proof {
        assert(entries.take(i as int) =~= entries);
    }
}

proof fn lemma_first_complete_at(list: Seq<PlanModel>, at: int)
    requires
        0 <= at <= list.len(),
        forall|i: int| 0 <= i < at ==> !complete(#[trigger] list[i]),
        at < list.len() ==> complete(list[at]),
    ensures
        first_complete(list) == (if at < list.len() {
            Some(list[at])
        } else {
            None
        }),
    decreases list.len(),
{
    if list.len() > 0 && at > 0 {
        let rest = list.skip(1);
        assert(!complete(list[0]));
        assert forall|i: int| 0 <= i < at - 1 implies !complete(#[trigger] rest[i]) by {
            assert(rest[i] == list[i + 1]);
        }
        lemma_first_complete_at(rest, at - 1);
    }
}

fn choose_plan(list: &Vec<Plan>) -> (result: Result<QuotaRequest, Diagnostic>)
    ensures
        match chosen(plan_models(list@)) {
            Ok(request) => result is Ok && result->Ok_0@ == request,
            Err(failure) => result is Err && result->Err_0@ == failure,
        },
{
    let ghost models = plan_models(list@);
    if list.len() == 0 {
        return Err(
            Diagnostic::new("CRV-502", "ZCode 编程包未启用").with_detail(
                "config.json 中没有可用的 coding-plan/start-plan provider，请在 ZCode 内订阅并启用编程包",
            ),
        );
    }
    let mut failures: Vec<String> = Vec::new();
    let mut i: usize = 0;
    proof {
        assert(models.take(0) =~= seq![]);
        assert(texts(failures@) =~= seq![]);
    }
    while i < list.len()
        invariant
            i <= list.len(),
            list.len() > 0,
            models == plan_models(list@),
            forall|j: int| 0 <= j < i ==> !complete(#[trigger] models[j]),
            texts(failures@) == endpoint_failures(models.take(i as int)),
        decreases list.len() - i,
    {
        let plan: &Plan = &list[i];
        let ghost before = failures@;
        proof {
            assert(models[i as int] == plan@);
            assert(models.take(i + 1).drop_last() =~= models.take(i as int));
            assert(models.take(i + 1).last() == models[i as int]);
        }
        if !plan.api_key.as_str().is_empty() {
            match &plan.endpoint {
                Ok(url) => {
                    proof {
                        lemma_first_complete_at(models, i as int);
                    }
                    return Ok(
                        QuotaRequest {
                            kind: plan.kind,
                            url: url.clone(),
                            api_key: plan.api_key.clone(),
                        },
                    );
                },
                Err(detail) => {
                    failures.push(detail.clone());
                    proof {
                        assert(texts(failures@) =~= texts(before).push(detail@));
                    }
                },
            }
        }
        i = i + 1;
    }
    proof {
        lemma_first_complete_at(models, i as int);
        assert(models.take(i as int) =~= models);
        assert(texts(failures@).len() == failures@.len());
    }
    if failures.len() > 0 {
        let detail: String = join(&failures, "; ");
        return Err(
            Diagnostic::new("CRV-503", "ZCode 编程包配置不完整").with_detail(detail.as_str()),
        );
    }
    let count: String = to_decimal(list.len() as u64);
    let detail: String = concat(count.as_str(), " 个启用的套餐 provider 均未携带 apiKey");
    Err(Diagnostic::new("CRV-503", "ZCode 编程包未配置 API Key").with_detail(detail.as_str()))
}

/// What came of reading one configuration file.
#[derive(Debug)]
pub enum ConfigAttempt {
    /// It could not be read.
    Unreadable { path: String, error: String },
    /// It was read; the error tells why it could not be decoded.
    Read(Result<ZCodeConfigFile, String>),
}

/// The first configuration that could be read.
pub open spec fn first_read(attempts: Seq<ConfigAttempt>) -> Option<Result<ZCodeConfigFile, String>>
    decreases attempts.len(),
{
    if attempts.len() == 0 {
        None
    } else {
        match attempts[0] {
            ConfigAttempt::Read(decoded) => Some(decoded),
            ConfigAttempt::Unreadable { .. } => first_read(attempts.skip(1)),
        }
    }
}

/// What is said of an attempt that failed.
pub open spec fn attempt_line(attempt: ConfigAttempt) -> Seq<char> {
    match attempt {
        ConfigAttempt::Unreadable { path, error } => path@ + ": "@ + error@,
        ConfigAttempt::Read(_) => seq![],
    }
}

/// What is said of attempts that failed.
pub open spec fn attempt_lines(attempts: Seq<ConfigAttempt>) -> Seq<Seq<char>> {
    Seq::new(attempts.len(), |i: int| attempt_line(attempts[i]))
}

/// The request that a configuration gives, from the attempts to read it.
pub open spec fn config_request(
    attempts: Seq<ConfigAttempt>,
    prefer_start: bool,
    cache: Seq<Seq<char>>,
    app_version: Seq<char>,
) -> Result<RequestModel, Report> {
    match first_read(attempts) {
        None => Err(
            report(
                "CRV-501"@,
                "未检测到 ZCode 配置"@,
                if attempts.len() == 0 {
                    "无法定位用户目录"@
                } else {
                    "尝试读取失败: "@ + joined(attempt_lines(attempts), "; "@)
                },
            ),
        ),
        Some(Err(message)) => Err(report("CRV-501"@, "ZCode 配置无法解析"@, message@)),
        Some(Ok(config)) => chosen(
            plans(config.provider.entries(), prefer_start, cache, app_version),
        ),
    }
}

proof fn lemma_first_read_at(attempts: Seq<ConfigAttempt>, at: int)
    requires
        0 <= at <= attempts.len(),
        forall|i: int| 0 <= i < at ==> #[trigger] attempts[i] is Unreadable,
        at < attempts.len() ==> attempts[at] is Read,
    ensures
        first_read(attempts) == (if at < attempts.len() {
            Some(attempts[at]->Read_0)
        } else {
            None
        }),
    decreases attempts.len(),
{
    if attempts.len() > 0 && at > 0 {
        let rest = attempts.skip(1);
        assert(attempts[0] is Unreadable);
        assert forall|i: int| 0 <= i < at - 1 implies #[trigger] rest[i] is Unreadable by {
            assert(rest[i] == attempts[i + 1]);
        }
        lemma_first_read_at(rest, at - 1);
    }
}

/// The request that a configuration gives. `attempts` holds what came of reading the
/// configuration in each directory in turn, up to the first that could be read at least; `cache`
/// the ids of the plans that are available. Without `prefer_start` only coding plans are asked.
pub fn read_config_request(
    attempts: &Vec<ConfigAttempt>,
    prefer_start: bool,
    cache: &Vec<String>,
    app_version: &str,
) -> (result: Result<QuotaRequest, Diagnostic>)
    ensures
        match config_request(attempts@, prefer_start, texts(cache@), app_version@) {
            Ok(request) => result is Ok && result->Ok_0@ == request,
            Err(failure) => result is Err && result->Err_0@ == failure,
        },
{
    let mut tried: Vec<String> = Vec::new();
    let mut i: usize = 0;
    proof {
        assert(texts(tried@) =~= attempt_lines(attempts@.take(0)));
    }
    while i < attempts.len()
        invariant
            i <= attempts.len(),
            forall|j: int| 0 <= j < i ==> #[trigger] attempts@[j] is Unreadable,
            texts(tried@) == attempt_lines(attempts@.take(i as int)),
        decreases attempts.len() - i,
    {
        match &attempts[i] {
            ConfigAttempt::Unreadable { path, error } => {
                let ghost before = tried@;
                let mut line: String = concat(path.as_str(), ": ");
                line.append(error.as_str());
                proof {
                    assert(line@ == attempt_line(attempts@[i as int]));
                }
                tried.push(line);
                proof {
                    assert(texts(tried@) =~= texts(before).push(attempt_line(attempts@[i as int])));
                    assert(attempt_lines(attempts@.take(i + 1)) =~= attempt_lines(
                        attempts@.take(i as int),
                    ).push(attempt_line(attempts@[i as int])));
                }
            },
            ConfigAttempt::Read(decoded) => {
                proof {
                    lemma_first_read_at(attempts@, i as int);
                }
                return match decoded {
                    Ok(config) => request_of(config, prefer_start, cache, app_version),
                    Err(message) => Err(
                        Diagnostic::new("CRV-501", "ZCode 配置无法解析").with_detail(
                            message.as_str(),
                        ),
                    ),
                };
            },
        }
        i = i + 1;
    }
    proof {
        lemma_first_read_at(attempts@, i as int);
        assert(attempts@.take(i as int) =~= attempts@);
        assert(texts(tried@).len() == tried@.len());
    }
    let detail: String = if tried.len() == 0 {
        "无法定位用户目录".to_owned()
    } else {
        let list: String = join(&tried, "; ");
        concat("尝试读取失败: ", list.as_str())
    };
    Err(Diagnostic::new("CRV-501", "未检测到 ZCode 配置").with_detail(detail.as_str()))
}

fn request_of(
    config: &ZCodeConfigFile,
    prefer_start: bool,
    cache: &Vec<String>,
    app_version: &str,
) -> (result: Result<QuotaRequest, Diagnostic>)
    ensures
        match chosen(plans(config.provider.entries(), prefer_start, texts(cache@), app_version@)) {
            Ok(request) => result is Ok && result->Ok_0@ == request,
            Err(failure) => result is Err && result->Err_0@ == failure,
        },
{
    let mut list: Vec<Plan> = Vec::new();
    let ghost start = plans_of(
        config.provider.entries(),
        PlanKind::Start,
        texts(cache@),
        app_version@,
    );
    let ghost coding = plans_of(
        config.provider.entries(),
        PlanKind::Coding,
        texts(cache@),
        app_version@,
    );
    proof {
        assert(plan_models(list@) =~= seq![]);
        assert(Seq::<PlanModel>::empty() + start =~= start);
        assert(Seq::<PlanModel>::empty() + coding =~= coding);
    }
    if prefer_start {
        add_plans(&mut list, config, PlanKind::Start, cache, app_version);
    }
    add_plans(&mut list, config, PlanKind::Coding, cache, app_version);
    choose_plan(&list)
}

/// The key or URL of a configuration, where it is not empty.
pub open spec fn given(text: Seq<char>) -> Option<Seq<char>> {
    if text.len() > 0 {
        Some(text)
    } else {
        None
    }
}

/// Whether a key cannot be handed to curl: it would end the quoted text that it stands in.
pub open spec fn unsafe_key(api_key: Seq<char>) -> bool {
    api_key.contains('"') || api_key.contains('\n')
}

/// The key that the environment sets.
pub open spec fn set_key(variables: Seq<(Seq<char>, Seq<char>)>) -> Option<Seq<char>> {
    first_value(
        lookup(variables, "ZCODE_BIGMODEL_USAGE_API_KEY"@),
        lookup(variables, "BIGMODEL_USAGE_API_KEY"@),
    )
}

/// The URL that the environment sets.
pub open spec fn set_url(variables: Seq<(Seq<char>, Seq<char>)>) -> Option<Seq<char>> {
    first_value(
        lookup(variables, "ZCODE_BIGMODEL_USAGE_QUOTA_URL"@),
        lookup(variables, "BIGMODEL_USAGE_QUOTA_URL"@),
    )
}

/// The request to send: what the environment sets goes before what the configuration gives. A
/// request for which the environment sets anything is one for a coding plan.
pub open spec fn resolved_request(
    variables: Seq<(Seq<char>, Seq<char>)>,
    config: Result<RequestModel, Report>,
) -> Result<RequestModel, Report> {
    let key = first_value(
        set_key(variables),
        match config {
            Ok(request) => given(request.api_key),
            Err(_) => None,
        },
    );
    let url = first_value(
        set_url(variables),
        match config {
            Ok(request) => given(request.url),
            Err(_) => None,
        },
    );
    match (key, url, config) {
        (Some(api_key), Some(url), _) => if unsafe_key(api_key) {
            Err(plain_report("CRV-503"@, "ZCode API Key 含有无法安全传递的字符"@))
        } else {
            let kind = if set_key(variables) is Some || set_url(variables) is Some {
                PlanKind::Coding
            } else {
                config->Ok_0.kind
            };
            Ok(RequestModel { kind, url, api_key })
        },
        (_, _, Err(failure)) => Err(failure),
        (None, _, Ok(_)) => Err(plain_report("CRV-503"@, "ZCode 编程包未配置 API Key"@)),
        (Some(_), None, Ok(_)) => Err(
            report(
                "CRV-501"@,
                "未检测到 ZCode 配额端点"@,
                "缺少 BIGMODEL_USAGE_QUOTA_URL 环境变量或可用的 ZCode 配置"@,
            ),
        ),
    }
}

/// The request that a configuration gave, or why it gave none.
pub open spec fn outcome_of(config: Result<QuotaRequest, Diagnostic>) -> Result<
    RequestModel,
    Report,
> {
    match config {
        Ok(request) => Ok(request@),
        Err(diagnostic) => Err(diagnostic@),
    }
}

fn given_text(text: &String) -> (result: Option<String>)
    ensures
        opt_text(result) == given(text@),
{
    if text.as_str().is_empty() {
        None
    } else {
        Some(text.clone())
    }
}

fn is_unsafe_key(api_key: &str) -> (holds: bool)
    ensures
        holds == unsafe_key(api_key@),
{
    let barred: Vec<char> = vec!['"', '\n'];
    let at: usize = find_any(api_key, &barred);
    let ghost class = one_of(barred@);
    proof {
        lemma_first_of(api_key@, class);
        assert(barred@[0] == '"' && barred@[1] == '\n');
        if at < api_key@.len() {
            assert(class(api_key@[at as int]));
            assert(barred@.contains(api_key@[at as int]));
        } else {
            assert forall|i: int| 0 <= i < api_key@.len() implies api_key@[i] != '"'
                && api_key@[i] != '\n' by {
                assert(!class(api_key@[i]));
            }
        }
    }
    at < api_key.unicode_len()
}

/// The request to send. `config` is what the configuration gives, or why it gives nothing.
pub fn resolve_quota_request(
    environment: &Environment,
    config: Result<QuotaRequest, Diagnostic>,
) -> (result: Result<QuotaRequest, Diagnostic>)
    ensures
        outcome_of(result) == resolved_request(environment@, outcome_of(config)),
{
    let env_key: Option<String> = environment.get_either(
        "ZCODE_BIGMODEL_USAGE_API_KEY",
        "BIGMODEL_USAGE_API_KEY",
    );
    let env_url: Option<String> = environment.get_either(
        "ZCODE_BIGMODEL_USAGE_QUOTA_URL",
        "BIGMODEL_USAGE_QUOTA_URL",
    );
    let overridden: bool = env_key.is_some() || env_url.is_some();
    let api_key: Option<String> = match env_key {
        Some(key) => Some(key),
        None => match &config {
            Ok(request) => given_text(&request.api_key),
            Err(_) => None,
        },
    };
    let url: Option<String> = match env_url {
        Some(url) => Some(url),
        None => match &config {
            Ok(request) => given_text(&request.url),
            Err(_) => None,
        },
    };
    match (api_key, url) {
        (Some(api_key), Some(url)) => {
            if is_unsafe_key(api_key.as_str()) {
                return Err(Diagnostic::new("CRV-503", "ZCode API Key 含有无法安全传递的字符"));
            }
            let kind: PlanKind = match (overridden, &config) {
                (false, Ok(request)) => request.kind,
                _ => PlanKind::Coding,
            };
            Ok(QuotaRequest { kind, url, api_key })
        },
        (api_key, _) => match config {
            Err(diagnostic) => Err(diagnostic),
            Ok(_) => if api_key.is_none() {
                Err(Diagnostic::new("CRV-503", "ZCode 编程包未配置 API Key"))
            } else {
                Err(
                    Diagnostic::new("CRV-501", "未检测到 ZCode 配额端点").with_detail(
                        "缺少 BIGMODEL_USAGE_QUOTA_URL 环境变量或可用的 ZCode 配置",
                    ),
                )
            },
        },
    }
}

/// Every plan of a kind comes from a provider of that kind that may be asked.
proof fn lemma_plans_of(
    entries: Seq<(String, ZCodeProviderEntry)>,
    kind: PlanKind,
    cache: Seq<Seq<char>>,
    app_version: Seq<char>,
    at: int,
)
    requires
        0 <= at < plans_of(entries, kind, cache, app_version).len(),
    ensures
        plans_of(entries, kind, cache, app_version)[at].kind == kind,
        exists|i: int|
            0 <= i < entries.len() && usable((#[trigger] entries[i]).0@, entries[i].1, kind, cache)
                && plans_of(entries, kind, cache, app_version)[at] == plan_at(
                entries[i].0@,
                entries[i].1,
                kind,
                app_version,
            ),
    decreases entries.len(),
{
    let rest = plans_of(entries.drop_last(), kind, cache, app_version);
    if at < rest.len() {
        lemma_plans_of(entries.drop_last(), kind, cache, app_version, at);
        let shorter = entries.drop_last();
        let i = choose|i: int|
            0 <= i < shorter.len() && usable((#[trigger] shorter[i]).0@, shorter[i].1, kind, cache)
                && rest[at] == plan_at(shorter[i].0@, shorter[i].1, kind, app_version);
        assert(entries[i] == shorter[i]);
    } else {
        assert(entries[entries.len() - 1] == entries.last());
    }
}

/// A provider that may be asked is among the plans of its kind.
proof fn lemma_listed(
    entries: Seq<(String, ZCodeProviderEntry)>,
    kind: PlanKind,
    cache: Seq<Seq<char>>,
    app_version: Seq<char>,
    at: int,
)
    requires
        0 <= at < entries.len(),
        usable(entries[at].0@, entries[at].1, kind, cache),
    ensures
        plans_of(entries, kind, cache, app_version).contains(
            plan_at(entries[at].0@, entries[at].1, kind, app_version),
        ),
    decreases entries.len(),
{
    let plan = plan_at(entries[at].0@, entries[at].1, kind, app_version);
    let rest = plans_of(entries.drop_last(), kind, cache, app_version);
    let list = plans_of(entries, kind, cache, app_version);
    if at == entries.len() - 1 {
        assert(list[list.len() - 1] == plan);
    } else {
        assert(entries.drop_last()[at] == entries[at]);
        lemma_listed(entries.drop_last(), kind, cache, app_version, at);
        let k = choose|k: int| 0 <= k < rest.len() && rest[k] == plan;
        assert(list[k] == plan);
    }
}

/// The first complete plan of a list is one of it, complete, and none before it is complete.
proof fn lemma_first_complete(list: Seq<PlanModel>) -> (at: int)
    requires
        first_complete(list) is Some,
    ensures
        0 <= at < list.len(),
        list[at] == first_complete(list)->Some_0,
        complete(list[at]),
        forall|i: int| 0 <= i < at ==> !complete(#[trigger] list[i]),
    decreases list.len(),
{
    if complete(list[0]) {
        0
    } else {
        let rest = list.skip(1);
        let k = lemma_first_complete(rest);
        assert forall|i: int| 0 <= i < k + 1 implies !complete(#[trigger] list[i]) by {
            if i > 0 {
                assert(rest[i - 1] == list[i]);
            }
        }
        k + 1
    }
}

/// Where some plan of a list is complete, there is a first one.
proof fn lemma_some_complete(list: Seq<PlanModel>, at: int)
    requires
        0 <= at < list.len(),
        complete(list[at]),
    ensures
        first_complete(list) is Some,
    decreases list.len(),
{
    if !complete(list[0]) {
        assert(list.skip(1)[at - 1] == list[at]);
        lemma_some_complete(list.skip(1), at - 1);
    }
}

/// The plans go by the rank of their kinds.
pub proof fn law_plans_go_by_rank(
    entries: Seq<(String, ZCodeProviderEntry)>,
    prefer_start: bool,
    cache: Seq<Seq<char>>,
    app_version: Seq<char>,
    i: int,
    j: int,
)
    requires
        0 <= i <= j < plans(entries, prefer_start, cache, app_version).len(),
    ensures
        rank(plans(entries, prefer_start, cache, app_version)[i].kind) <= rank(
            plans(entries, prefer_start, cache, app_version)[j].kind,
        ),
{
    let start = plans_of(entries, PlanKind::Start, cache, app_version);
    if prefer_start {
        if i < start.len() {
            lemma_plans_of(entries, PlanKind::Start, cache, app_version, i);
        } else {
            lemma_plans_of(entries, PlanKind::Coding, cache, app_version, i - start.len());
            lemma_plans_of(entries, PlanKind::Coding, cache, app_version, j - start.len());
        }
    } else {
        lemma_plans_of(entries, PlanKind::Coding, cache, app_version, i);
        lemma_plans_of(entries, PlanKind::Coding, cache, app_version, j);
    }
}

/// A start plan that may be asked and has a key and an endpoint is chosen over every coding
/// plan.
pub proof fn law_a_complete_start_plan_is_preferred(
    entries: Seq<(String, ZCodeProviderEntry)>,
    cache: Seq<Seq<char>>,
    app_version: Seq<char>,
    at: int,
)
    requires
        0 <= at < entries.len(),
        usable(entries[at].0@, entries[at].1, PlanKind::Start, cache),
        complete(plan_at(entries[at].0@, entries[at].1, PlanKind::Start, app_version)),
    ensures
        chosen(plans(entries, true, cache, app_version)) matches Ok(request) && request.kind
            == PlanKind::Start,
{
    let list = plans(entries, true, cache, app_version);
    let start = plans_of(entries, PlanKind::Start, cache, app_version);
    let plan = plan_at(entries[at].0@, entries[at].1, PlanKind::Start, app_version);
    lemma_listed(entries, PlanKind::Start, cache, app_version, at);
    let k = choose|k: int| 0 <= k < start.len() && start[k] == plan;
    assert(list[k] == plan);
    lemma_some_complete(list, k);
    let first = lemma_first_complete(list);
    assert(first <= k);
    assert(list[first] == start[first]);
    lemma_plans_of(entries, PlanKind::Start, cache, app_version, first);
}

/// Where start plans are not wanted, a coding plan is asked or none.
pub proof fn law_unwanted_start_plans_are_never_chosen(
    entries: Seq<(String, ZCodeProviderEntry)>,
    cache: Seq<Seq<char>>,
    app_version: Seq<char>,
)
    ensures
        chosen(plans(entries, false, cache, app_version)) matches Ok(request) ==> request.kind
            == PlanKind::Coding,
{
    let list = plans(entries, false, cache, app_version);
    if first_complete(list) is Some {
        let first = lemma_first_complete(list);
        lemma_plans_of(entries, PlanKind::Coding, cache, app_version, first);
    }
}

/// A request goes to a provider that may be asked, with the key and the endpoint of that
/// provider: one that is barred is never asked, nor a coding plan that is not enabled.
pub proof fn law_only_usable_plans_are_chosen(
    entries: Seq<(String, ZCodeProviderEntry)>,
    prefer_start: bool,
    cache: Seq<Seq<char>>,
    app_version: Seq<char>,
)
    requires
        chosen(plans(entries, prefer_start, cache, app_version)) is Ok,
    ensures
        exists|i: int|
            0 <= i < entries.len() && usable(
                (#[trigger] entries[i]).0@,
                entries[i].1,
                chosen(plans(entries, prefer_start, cache, app_version))->Ok_0.kind,
                cache,
            ) && chosen(plans(entries, prefer_start, cache, app_version))->Ok_0.api_key == trimmed(
                entries[i].1.options.api_key@,
            ) && Some(chosen(plans(entries, prefer_start, cache, app_version))->Ok_0.url)
                == endpoint_of(
                chosen(plans(entries, prefer_start, cache, app_version))->Ok_0.kind,
                entries[i].1.options,
                app_version,
            ),
{
    let list = plans(entries, prefer_start, cache, app_version);
    let start = plans_of(entries, PlanKind::Start, cache, app_version);
    let coding = plans_of(entries, PlanKind::Coding, cache, app_version);
    let first = lemma_first_complete(list);
    if prefer_start && first < start.len() {
        assert(list[first] == start[first]);
        lemma_plans_of(entries, PlanKind::Start, cache, app_version, first);
    } else if prefer_start {
        assert(list[first] == coding[first - start.len()]);
        lemma_plans_of(entries, PlanKind::Coding, cache, app_version, first - start.len());
    } else {
        lemma_plans_of(entries, PlanKind::Coding, cache, app_version, first);
    }
}

/// What the environment sets is what is sent, and then as the request of a coding plan.
pub proof fn law_the_environment_goes_first(
    variables: Seq<(Seq<char>, Seq<char>)>,
    config: Result<RequestModel, Report>,
)
    ensures
        resolved_request(variables, config) matches Ok(request) ==> {
            &&& set_key(variables) is Some ==> Some(request.api_key) == set_key(variables)
            &&& set_url(variables) is Some ==> Some(request.url) == set_url(variables)
            &&& set_key(variables) is Some || set_url(variables) is Some ==> request.kind
                == PlanKind::Coding
            &&& set_key(variables) is None && set_url(variables) is None ==> config == Ok::<
                RequestModel,
                Report,
            >(request)
        },
{
}

/// No request carries a key that would break out of the quoted text that it is handed over in.
pub proof fn law_requests_carry_safe_keys(
    variables: Seq<(Seq<char>, Seq<char>)>,
    config: Result<RequestModel, Report>,
)
    ensures
        resolved_request(variables, config) matches Ok(request) ==> !unsafe_key(request.api_key),
{
}

/// The kind of a provider's plan is told by the ending of its id, and by nothing else.
pub proof fn law_kinds_are_told_by_endings(id: &str, kind: Option<PlanKind>)
    requires
        call_ensures(plan_kind_from_id, (id,), kind),
    ensures
        kind == Some(PlanKind::Start) <==> exists|stem: Seq<char>|
            id@ == #[trigger] (stem + "-start-plan"@),
        kind == Some(PlanKind::Coding) <==> exists|stem: Seq<char>|
            id@ == #[trigger] (stem + "-coding-plan"@),
{
    lemma_kind(id@);
}

proof fn lemma_kind(id: Seq<char>)
    ensures
        plan_of(id) == Some(PlanKind::Start) <==> exists|stem: Seq<char>|
            id == #[trigger] (stem + "-start-plan"@),
        plan_of(id) == Some(PlanKind::Coding) <==> exists|stem: Seq<char>|
            id == #[trigger] (stem + "-coding-plan"@),
{
    lemma_ending(id, "-start-plan"@);
    lemma_ending(id, "-coding-plan"@);
    reveal_strlit("-start-plan");
    reveal_strlit("-coding-plan");
    if finishes_with(id, "-start-plan"@) && finishes_with(id, "-coding-plan"@) {
        let n = id.len() as int;
        assert(id.subrange(n - 11, n)[0] == '-');
        assert(id.subrange(n - 12, n)[1] == 'c');
        assert(id[n - 11] == '-' && id[n - 11] == 'c');
    }
}

/// A base URL, without white space around it, is a scheme, `://`, an authority and the rest, at the
/// first place where it can be parted so: neither the scheme nor the authority is empty, and the
/// rest begins with the first slash, question mark or hash after the scheme.
pub open spec fn at_origin(
    base_url: Seq<char>,
    scheme: Seq<char>,
    authority: Seq<char>,
    rest: Seq<char>,
) -> bool {
    &&& trimmed(base_url) == scheme + "://"@ + (authority + rest)
    &&& scheme.len() > 0
    &&& forall|at: int|
        0 <= at < scheme.len() ==> #[trigger] trimmed(base_url).subrange(at, at + 3) != "://"@
    &&& authority.len() > 0
    &&& forall|i: int|
        0 <= i < authority.len() ==> (#[trigger] authority[i]) != '/' && authority[i] != '?'
            && authority[i] != '#'
    &&& rest.len() > 0 ==> rest[0] == '/' || rest[0] == '?' || rest[0] == '#'
}

/// The parts of a base URL are those at its origin, and there are no others.
proof fn lemma_origin(base_url: Seq<char>)
    ensures
        url_parts(base_url) matches Some((scheme, authority, rest)) ==> at_origin(
            base_url,
            scheme,
            authority,
            rest,
        ),
        forall|scheme: Seq<char>, authority: Seq<char>, rest: Seq<char>| #[trigger]
            at_origin(base_url, scheme, authority, rest) ==> url_parts(base_url) == Some(
                (scheme, authority, rest),
            ),
{
    let inner = trimmed(base_url);
    let class = one_of(authority_ends());
    let ends = authority_ends();
    reveal_strlit("://");
    assert(ends[0] == '/' && ends[1] == '?' && ends[2] == '#');
    assert forall|c: char| #[trigger] class(c) == (c == '/' || c == '?' || c == '#') by {
        if ends.contains(c) {
            let k = choose|k: int| 0 <= k < ends.len() && ends[k] == c;
        }
    }
    lemma_parts_at_the_first(inner, "://"@);
    if let Some((scheme, authority, rest)) = url_parts(base_url) {
        let after = split_at_first(inner, "://"@)->Some_0.1;
        lemma_first_of(after, class);
        assert(after =~= authority + rest);
        assert forall|i: int| 0 <= i < authority.len() implies (#[trigger] authority[i]) != '/'
            && authority[i] != '?' && authority[i] != '#' by {
            assert(!class(after[i]));
        }
        if rest.len() > 0 {
            assert(class(rest[0]));
        }
        assert forall|at: int| 0 <= at < scheme.len() implies #[trigger] inner.subrange(at, at + 3)
            != "://"@ by {
            assert(inner.subrange(at, at + "://"@.len()) != "://"@);
        }
    }
    assert forall|scheme: Seq<char>, authority: Seq<char>, rest: Seq<char>| #[trigger]
        at_origin(base_url, scheme, authority, rest) implies url_parts(base_url) == Some(
        (scheme, authority, rest),
    ) by {
        let after = authority + rest;
        assert forall|at: int| 0 <= at < scheme.len() implies #[trigger] (scheme + "://"@
            + after).subrange(at, at + "://"@.len()) != "://"@ by {
            assert(inner.subrange(at, at + 3) != "://"@);
        }
        law_parts_at_the_first(scheme, "://"@, after);
        let end = authority.len() as int;
        assert forall|i: int| 0 <= i < end implies !class(#[trigger] after[i]) by {
            assert(after[i] == authority[i]);
        }
        if end < after.len() {
            assert(after[end] == rest[0]);
            assert(class(after[end]));
        }
        lemma_first_of_is(after, class, end);
        assert(after.take(end) =~= authority);
        assert(after.skip(end) =~= rest);
    }
}

/// The quota of a coding plan is asked for at the origin of its base URL, whatever path that has.
pub proof fn law_coding_plans_are_asked_at_the_origin(base_url: &str, url: Option<String>)
    requires
        call_ensures(quota_url_from_base_url, (base_url,), url),
    ensures
        url is None <==> !exists|scheme: Seq<char>, authority: Seq<char>, rest: Seq<char>|
            at_origin(base_url@, scheme, authority, rest),
        forall|scheme: Seq<char>, authority: Seq<char>, rest: Seq<char>| #[trigger]
            at_origin(base_url@, scheme, authority, rest) ==> (url matches Some(shown) && shown@
                == scheme + "://"@ + authority + "/api/monitor/usage/quota/limit"@),
{
    lemma_origin(base_url@);
}

/// A path without the slashes at its end is that of a gateway with this root: it is the root with
/// the part that serves the Anthropic interface, or the gateway of ZCode itself.
pub open spec fn at_gateway(path: Seq<char>, gateway: Seq<char>) -> bool {
    exists|inner: Seq<char>, slashes: Seq<char>|
        path == #[trigger] (inner + slashes) && (forall|i: int|
            0 <= i < slashes.len() ==> #[trigger] slashes[i] == '/') && (inner.len() > 0
            ==> inner.last() != '/') && (inner == gateway + "/anthropic"@ || (inner
            == "/api/v1/zcode-plan"@ && gateway == inner))
}

/// A path leads to at most one gateway, the one that is asked.
proof fn lemma_gateway(path: Seq<char>)
    ensures
        forall|gateway: Seq<char>| #[trigger]
            at_gateway(path, gateway) <==> gateway_path(without_trailing(path, one_of(seq!['/'])))
                == Some(gateway),
{
    let class = one_of(seq!['/']);
    let inner = without_trailing(path, class);
    reveal_strlit("/anthropic");
    reveal_strlit("/api/v1/zcode-plan");
    assert forall|c: char| #[trigger] class(c) == (c == '/') by {
        assert(seq!['/'][0] == '/');
    }
    lemma_without_trailing(path, class);
    let cut = inner.len() as int;
    let tail = path.skip(cut);
    assert(path =~= inner + tail);
    assert forall|i: int| 0 <= i < tail.len() implies #[trigger] tail[i] == '/' by {
        assert(class(path[cut + i]));
    }
    assert forall|gateway: Seq<char>| #[trigger]
        at_gateway(path, gateway) <==> gateway_path(inner) == Some(gateway) by {
        if gateway_path(inner) == Some(gateway) {
            if finishes_with(inner, "/anthropic"@) {
                assert(inner =~= gateway + "/anthropic"@);
            }
            assert(path == inner + tail);
            if inner.len() > 0 {
                assert(!class(inner.last()));
            }
        }
        if at_gateway(path, gateway) {
            let (core, slashes) = choose|core: Seq<char>, slashes: Seq<char>|
                path == #[trigger] (core + slashes) && (forall|i: int|
                    0 <= i < slashes.len() ==> #[trigger] slashes[i] == '/') && (core.len() > 0
                    ==> core.last() != '/') && (core == gateway + "/anthropic"@ || (core
                    == "/api/v1/zcode-plan"@ && gateway == core));
            let to = core.len() as int;
            assert forall|i: int| to <= i < path.len() implies class(#[trigger] path[i]) by {
                assert(path[i] == slashes[i - to]);
            }
            if to > 0 {
                assert(path[to - 1] == core.last());
            }
            lemma_without_trailing_is(path, class, to);
            assert(path.take(to) =~= core);
            assert(inner == core);
            if core == gateway + "/anthropic"@ {
                lemma_ending(core, "/anthropic"@);
                assert(core.take(core.len() - "/anthropic"@.len()) =~= gateway);
            } else {
                assert(core.last() == 'n');
                assert(!finishes_with(core, "/anthropic"@)) by {
                    if finishes_with(core, "/anthropic"@) {
                        let at = core.len() - "/anthropic"@.len();
                        assert(core.subrange(at, core.len() as int).last() == core.last());
                        assert("/anthropic"@.last() == 'c');
                    }
                }
            }
        }
    }
}

/// The balance of a start plan is asked for below the root of the gateway that its base URL leads
/// to, with the version of the program; a base URL that leads to no gateway has no such place.
pub proof fn law_start_plans_are_asked_at_the_gateway(
    base_url: &str,
    app_version: &str,
    url: Option<String>,
)
    requires
        call_ensures(start_plan_balance_url, (base_url, app_version), url),
    ensures
        url is Some ==> exists|
            scheme: Seq<char>,
            authority: Seq<char>,
            rest: Seq<char>,
            gateway: Seq<char>,
        |
            #[trigger] at_origin(base_url@, scheme, authority, rest) && #[trigger] at_gateway(
                rest,
                gateway,
            ),
        forall|scheme: Seq<char>, authority: Seq<char>, rest: Seq<char>, gateway: Seq<char>|
            #[trigger] at_origin(base_url@, scheme, authority, rest) && #[trigger] at_gateway(
                rest,
                gateway,
            ) ==> (url matches Some(shown) && shown@ == scheme + "://"@ + authority + gateway
                + "/billing/balance"@ + "?app_version="@ + app_version@),
{
    lemma_origin(base_url@);
    if let Some((scheme, authority, rest)) = url_parts(base_url@) {
        lemma_gateway(rest);
        if url is Some {
            let gateway = gateway_path(without_trailing(rest, one_of(seq!['/'])))->Some_0;
            assert(at_origin(base_url@, scheme, authority, rest) && at_gateway(rest, gateway));
        }
    }
}

/// The place at which a coding plan is asked.
pub open spec fn coding_place(base_url: Seq<char>, url: Seq<char>) -> bool {
    exists|scheme: Seq<char>, authority: Seq<char>, rest: Seq<char>|
        #[trigger] at_origin(base_url, scheme, authority, rest) && url == scheme + "://"@ + authority
            + "/api/monitor/usage/quota/limit"@
}

/// The place at which a start plan is asked.
pub open spec fn start_place(
    base_url: Seq<char>,
    app_version: Seq<char>,
    url: Seq<char>,
) -> bool {
    exists|scheme: Seq<char>, authority: Seq<char>, rest: Seq<char>, gateway: Seq<char>|
        #[trigger] at_origin(base_url, scheme, authority, rest) && #[trigger] at_gateway(
            rest,
            gateway,
        ) && url == scheme + "://"@ + authority + gateway + "/billing/balance"@ + "?app_version="@
            + app_version
}

/// The place at which a plan is asked: the URL that its options give, else the one that follows
/// from their base URL by the kind of the plan.
pub open spec fn asked_at(
    kind: PlanKind,
    options: ZCodeProviderOptions,
    app_version: Seq<char>,
    url: Seq<char>,
) -> bool {
    if trimmed(options.quota_url@).len() > 0 {
        url == trimmed(options.quota_url@)
    } else {
        match kind {
            PlanKind::Coding => coding_place(options.base_url@, url),
            PlanKind::Start => start_place(options.base_url@, app_version, url),
        }
    }
}

/// The endpoint of a plan is the place at which it is asked.
proof fn lemma_endpoint(kind: PlanKind, options: ZCodeProviderOptions, app_version: Seq<char>)
    ensures
        endpoint_of(kind, options, app_version) matches Some(url) ==> asked_at(
            kind,
            options,
            app_version,
            url,
        ),
        forall|url: Seq<char>| #[trigger]
            asked_at(kind, options, app_version, url) ==> endpoint_of(kind, options, app_version)
                == Some(url),
{
    let base_url = options.base_url@;
    lemma_origin(base_url);
    if let Some((scheme, authority, rest)) = url_parts(base_url) {
        lemma_gateway(rest);
        assert(at_origin(base_url, scheme, authority, rest));
        if let Some(gateway) = gateway_path(without_trailing(rest, one_of(seq!['/']))) {
            assert(at_gateway(rest, gateway));
        }
    }
}

/// A URL that a provider gives for its quota is asked as it is, without the white space around it;
/// without one the URL follows from the base URL by the kind of the plan, and a base URL from
/// which none follows is a failure that names the provider.
pub proof fn law_a_given_url_is_asked(
    kind: PlanKind,
    id: &str,
    options: ZCodeProviderOptions,
    app_version: &str,
    result: Result<String, Diagnostic>,
)
    requires
        call_ensures(plan_request_url, (kind, id, &options, app_version), result),
    ensures
        trimmed(options.quota_url@).len() > 0 ==> (result matches Ok(url) && url@ == trimmed(
            options.quota_url@,
        )),
        forall|url: Seq<char>| #[trigger]
            asked_at(kind, options, app_version@, url) <==> (result matches Ok(shown) && shown@
                == url),
        result matches Err(diagnostic) ==> diagnostic.code@ == "CRV-503"@ && (
        diagnostic.detail matches Some(detail) && exists|before: Seq<char>, after: Seq<char>|
            detail@ == #[trigger] (before + id@ + after)),
{
    lemma_endpoint(kind, options, app_version@);
    if let Err(diagnostic) = result {
        assert(diagnostic@.detail == opt_text(diagnostic.detail));
        let detail = diagnostic.detail->Some_0@;
        assert(detail =~= "provider "@ + id@ + (" 的 baseURL 无法解析: "@ + options.base_url@));
    }
}

/// A provider may be asked as a plan of a kind: nothing bars it, its id has the ending of the kind,
/// and it is enabled; for a start plan it is enough that the cache calls it available.
pub open spec fn askable(
    id: Seq<char>,
    entry: ZCodeProviderEntry,
    kind: PlanKind,
    cache: Seq<Seq<char>>,
) -> bool {
    &&& entry.system_disabled_reason is None
    &&& match kind {
        PlanKind::Start => (exists|stem: Seq<char>| id == #[trigger] (stem + "-start-plan"@)) && (
        entry.enabled || cache.contains(id)),
        PlanKind::Coding => (exists|stem: Seq<char>| id == #[trigger] (stem + "-coding-plan"@))
            && entry.enabled,
    }
}

/// A provider that may be asked has a key and a place at which it is asked.
pub open spec fn ready(
    id: Seq<char>,
    entry: ZCodeProviderEntry,
    kind: PlanKind,
    cache: Seq<Seq<char>>,
    app_version: Seq<char>,
) -> bool {
    &&& askable(id, entry, kind, cache)
    &&& trimmed(entry.options.api_key@).len() > 0
    &&& exists|url: Seq<char>| asked_at(kind, entry.options, app_version, url)
}

/// A provider is ready where it is a usable plan that is complete.
proof fn lemma_ready(
    id: Seq<char>,
    entry: ZCodeProviderEntry,
    kind: PlanKind,
    cache: Seq<Seq<char>>,
    app_version: Seq<char>,
)
    ensures
        usable(id, entry, kind, cache) <==> askable(id, entry, kind, cache),
        usable(id, entry, kind, cache) && complete(plan_at(id, entry, kind, app_version)) <==> ready(
            id,
            entry,
            kind,
            cache,
            app_version,
        ),
{
    lemma_kind(id);
    lemma_endpoint(kind, entry.options, app_version);
}

/// The provider of a plan; those before it that may be asked stand before it among the plans.
proof fn lemma_plan_position(
    entries: Seq<(String, ZCodeProviderEntry)>,
    kind: PlanKind,
    cache: Seq<Seq<char>>,
    app_version: Seq<char>,
    at: int,
) -> (i: int)
    requires
        0 <= at < plans_of(entries, kind, cache, app_version).len(),
    ensures
        0 <= i < entries.len(),
        usable(entries[i].0@, entries[i].1, kind, cache),
        plans_of(entries, kind, cache, app_version)[at] == plan_at(
            entries[i].0@,
            entries[i].1,
            kind,
            app_version,
        ),
        forall|j: int|
            0 <= j < i && usable((#[trigger] entries[j]).0@, entries[j].1, kind, cache)
                ==> plans_of(entries, kind, cache, app_version).take(at).contains(
                plan_at(entries[j].0@, entries[j].1, kind, app_version),
            ),
    decreases entries.len(),
{
    let shorter = entries.drop_last();
    let rest = plans_of(shorter, kind, cache, app_version);
    let list = plans_of(entries, kind, cache, app_version);
    if at < rest.len() {
        let i = lemma_plan_position(shorter, kind, cache, app_version, at);
        assert(list.take(at) =~= rest.take(at));
        assert forall|j: int|
            0 <= j < i && usable((#[trigger] entries[j]).0@, entries[j].1, kind, cache) implies list.take(
            at,
        ).contains(plan_at(entries[j].0@, entries[j].1, kind, app_version)) by {
            assert(shorter[j] == entries[j]);
        }
        i
    } else {
        let i = entries.len() - 1;
        assert(list.take(at) =~= rest);
        assert forall|j: int|
            0 <= j < i && usable((#[trigger] entries[j]).0@, entries[j].1, kind, cache) implies list.take(
            at,
        ).contains(plan_at(entries[j].0@, entries[j].1, kind, app_version)) by {
            assert(shorter[j] == entries[j]);
            lemma_listed(shorter, kind, cache, app_version, j);
        }
        i
    }
}

/// The first plan of a kind that is ready.
proof fn lemma_first_ready(
    entries: Seq<(String, ZCodeProviderEntry)>,
    kind: PlanKind,
    cache: Seq<Seq<char>>,
    app_version: Seq<char>,
) -> (i: int)
    ensures
        first_complete(plans_of(entries, kind, cache, app_version)) is None ==> forall|j: int|
            0 <= j < entries.len() ==> !ready(
                (#[trigger] entries[j]).0@,
                entries[j].1,
                kind,
                cache,
                app_version,
            ),
        first_complete(plans_of(entries, kind, cache, app_version)) matches Some(plan) ==> {
            &&& 0 <= i < entries.len()
            &&& ready(entries[i].0@, entries[i].1, kind, cache, app_version)
            &&& plan == plan_at(entries[i].0@, entries[i].1, kind, app_version)
            &&& forall|j: int|
                0 <= j < i ==> !ready(
                    (#[trigger] entries[j]).0@,
                    entries[j].1,
                    kind,
                    cache,
                    app_version,
                )
        },
{
    let list = plans_of(entries, kind, cache, app_version);
    if first_complete(list) is None {
        assert forall|j: int| 0 <= j < entries.len() implies !ready(
            (#[trigger] entries[j]).0@,
            entries[j].1,
            kind,
            cache,
            app_version,
        ) by {
            lemma_ready(entries[j].0@, entries[j].1, kind, cache, app_version);
            if ready(entries[j].0@, entries[j].1, kind, cache, app_version) {
                lemma_listed(entries, kind, cache, app_version, j);
                let plan = plan_at(entries[j].0@, entries[j].1, kind, app_version);
                let k = choose|k: int| 0 <= k < list.len() && list[k] == plan;
                lemma_some_complete(list, k);
            }
        }
        0
    } else {
        let at = lemma_first_complete(list);
        let i = lemma_plan_position(entries, kind, cache, app_version, at);
        lemma_ready(entries[i].0@, entries[i].1, kind, cache, app_version);
        assert forall|j: int| 0 <= j < i implies !ready(
            (#[trigger] entries[j]).0@,
            entries[j].1,
            kind,
            cache,
            app_version,
        ) by {
            lemma_ready(entries[j].0@, entries[j].1, kind, cache, app_version);
            if ready(entries[j].0@, entries[j].1, kind, cache, app_version) {
                let plan = plan_at(entries[j].0@, entries[j].1, kind, app_version);
                let head = list.take(at);
                assert(head.contains(plan));
                let k = choose|k: int| 0 <= k < head.len() && head[k] == plan;
                assert(list[k] == plan);
            }
        }
        i
    }
}

/// The first complete plan of two lists, one after the other.
proof fn lemma_first_complete_of_both(first: Seq<PlanModel>, second: Seq<PlanModel>)
    ensures
        first_complete(first + second) == (if first_complete(first) is Some {
            first_complete(first)
        } else {
            first_complete(second)
        }),
    decreases first.len(),
{
    let both = first + second;
    if first.len() == 0 {
        assert(both =~= second);
    } else {
        assert(both[0] == first[0]);
        assert(both.skip(1) =~= first.skip(1) + second);
        lemma_first_complete_of_both(first.skip(1), second);
    }
}

/// The configuration that is read is the first that can be.
proof fn lemma_first_read(attempts: Seq<ConfigAttempt>, at: int)
    requires
        0 <= at < attempts.len(),
        forall|j: int| 0 <= j < at ==> #[trigger] attempts[j] is Unreadable,
        attempts[at] is Read,
    ensures
        first_read(attempts) == Some(attempts[at]->Read_0),
{
    lemma_first_read_at(attempts, at);
}

/// Whom a request asks: a provider of the first configuration that could be read, which nothing
/// bars. A start plan is wanted, has the ending of one, and is enabled or called available by the
/// cache; a coding plan has its ending and is enabled. The key is that of the provider and not
/// empty, and the place is that of its plan. Of its kind it is the first that is ready; and a
/// coding plan is asked only where no start plan is wanted and ready.
pub proof fn law_requests_ask_providers_that_nothing_bars(
    attempts: Vec<ConfigAttempt>,
    prefer_start: bool,
    cache: Vec<String>,
    app_version: &str,
    result: Result<QuotaRequest, Diagnostic>,
    config: ZCodeConfigFile,
    at: int,
) -> (i: int)
    requires
        call_ensures(read_config_request, (&attempts, prefer_start, &cache, app_version), result),
        0 <= at < attempts@.len(),
        forall|j: int| 0 <= j < at ==> #[trigger] attempts@[j] is Unreadable,
        attempts@[at] == ConfigAttempt::Read(Ok(config)),
        result is Ok,
    ensures
        0 <= i < config.provider.entries().len(),
        ({
            let request = result->Ok_0;
            let entries = config.provider.entries();
            let (id, entry) = entries[i];
            &&& entry.system_disabled_reason is None
            &&& request.kind == PlanKind::Start ==> prefer_start && (exists|stem: Seq<char>|
                id@ == #[trigger] (stem + "-start-plan"@)) && (entry.enabled || exists|k: int|
                0 <= k < cache@.len() && (#[trigger] cache@[k])@ == id@)
            &&& request.kind == PlanKind::Coding ==> (exists|stem: Seq<char>|
                id@ == #[trigger] (stem + "-coding-plan"@)) && entry.enabled
            &&& request.api_key@ == trimmed(entry.options.api_key@)
            &&& request.api_key@.len() > 0
            &&& asked_at(request.kind, entry.options, app_version@, request.url@)
            &&& forall|j: int|
                0 <= j < i ==> !ready(
                    (#[trigger] entries[j]).0@,
                    entries[j].1,
                    request.kind,
                    texts(cache@),
                    app_version@,
                )
            &&& request.kind == PlanKind::Coding && prefer_start ==> forall|j: int|
                0 <= j < entries.len() ==> !ready(
                    (#[trigger] entries[j]).0@,
                    entries[j].1,
                    PlanKind::Start,
                    texts(cache@),
                    app_version@,
                )
        }),
{
    lemma_first_read(attempts@, at);
    let entries = config.provider.entries();
    let ids = texts(cache@);
    let start = plans_of(entries, PlanKind::Start, ids, app_version@);
    let coding = plans_of(entries, PlanKind::Coding, ids, app_version@);
    let s = lemma_first_ready(entries, PlanKind::Start, ids, app_version@);
    let c = lemma_first_ready(entries, PlanKind::Coding, ids, app_version@);
    lemma_first_complete_of_both(start, coding);
    let i = if prefer_start && first_complete(start) is Some {
        s
    } else {
        c
    };
    let kind = if prefer_start && first_complete(start) is Some {
        PlanKind::Start
    } else {
        PlanKind::Coding
    };
    let (id, entry) = entries[i];
    assert(result->Ok_0@.kind == kind);
    assert(result->Ok_0@.api_key == result->Ok_0.api_key@);
    assert(result->Ok_0@.url == result->Ok_0.url@);
    lemma_endpoint(kind, entry.options, app_version@);
    if ids.contains(id@) {
        let k = choose|k: int| 0 <= k < ids.len() && ids[k] == id@;
        assert(cache@[k]@ == id@);
    }
    i
}

/// A request is owed wherever a provider of the first configuration that could be read is ready: a
/// start plan where such are wanted, which is then what is asked, or a coding plan. Without one
/// the failure tells whether any provider may be asked at all.
pub proof fn law_ready_providers_are_asked(
    attempts: Vec<ConfigAttempt>,
    prefer_start: bool,
    cache: Vec<String>,
    app_version: &str,
    result: Result<QuotaRequest, Diagnostic>,
    config: ZCodeConfigFile,
    at: int,
)
    requires
        call_ensures(read_config_request, (&attempts, prefer_start, &cache, app_version), result),
        0 <= at < attempts@.len(),
        forall|j: int| 0 <= j < at ==> #[trigger] attempts@[j] is Unreadable,
        attempts@[at] == ConfigAttempt::Read(Ok(config)),
    ensures
        forall|j: int|
            0 <= j < config.provider.entries().len() && prefer_start && ready(
                (#[trigger] config.provider.entries()[j]).0@,
                config.provider.entries()[j].1,
                PlanKind::Start,
                texts(cache@),
                app_version@,
            ) ==> (result matches Ok(request) && request.kind == PlanKind::Start),
        forall|j: int|
            0 <= j < config.provider.entries().len() && ready(
                (#[trigger] config.provider.entries()[j]).0@,
                config.provider.entries()[j].1,
                PlanKind::Coding,
                texts(cache@),
                app_version@,
            ) ==> result is Ok,
        result matches Err(diagnostic) ==> {
            let some = exists|j: int|
                0 <= j < config.provider.entries().len() && ((prefer_start && askable(
                    (#[trigger] config.provider.entries()[j]).0@,
                    config.provider.entries()[j].1,
                    PlanKind::Start,
                    texts(cache@),
                )) || askable(
                    config.provider.entries()[j].0@,
                    config.provider.entries()[j].1,
                    PlanKind::Coding,
                    texts(cache@),
                ));
            diagnostic.code@ == if some {
                "CRV-503"@
            } else {
                "CRV-502"@
            }
        },
{
    lemma_first_read(attempts@, at);
    let entries = config.provider.entries();
    let ids = texts(cache@);
    let start = plans_of(entries, PlanKind::Start, ids, app_version@);
    let coding = plans_of(entries, PlanKind::Coding, ids, app_version@);
    let s = lemma_first_ready(entries, PlanKind::Start, ids, app_version@);
    let c = lemma_first_ready(entries, PlanKind::Coding, ids, app_version@);
    lemma_first_complete_of_both(start, coding);
    if let Ok(request) = result {
        assert(request@.kind == request.kind);
    }
    if let Err(diagnostic) = result {
        assert(diagnostic@.code == diagnostic.code@);
        let list = plans(entries, prefer_start, ids, app_version@);
        if list.len() > 0 {
            let kind = if prefer_start && start.len() > 0 {
                PlanKind::Start
            } else {
                PlanKind::Coding
            };
            let i = lemma_plan_position(entries, kind, ids, app_version@, 0);
            lemma_ready(entries[i].0@, entries[i].1, kind, ids, app_version@);
            assert(askable(entries[i].0@, entries[i].1, kind, ids));
        } else {
            assert forall|j: int| 0 <= j < entries.len() implies !((prefer_start && askable(
                (#[trigger] entries[j]).0@,
                entries[j].1,
                PlanKind::Start,
                ids,
            )) || askable(entries[j].0@, entries[j].1, PlanKind::Coding, ids)) by {
                lemma_ready(entries[j].0@, entries[j].1, PlanKind::Start, ids, app_version@);
                lemma_ready(entries[j].0@, entries[j].1, PlanKind::Coding, ids, app_version@);
                if usable(entries[j].0@, entries[j].1, PlanKind::Start, ids) {
                    lemma_listed(entries, PlanKind::Start, ids, app_version@, j);
                }
                if usable(entries[j].0@, entries[j].1, PlanKind::Coding, ids) {
                    lemma_listed(entries, PlanKind::Coding, ids, app_version@, j);
                }
            }
        }
    }
}

/// Without a configuration that can be read, or with one that cannot be decoded, there is no
/// request; the latter fails with the words of the decoder.
pub proof fn law_configurations_must_be_readable(
    attempts: Vec<ConfigAttempt>,
    prefer_start: bool,
    cache: Vec<String>,
    app_version: &str,
    result: Result<QuotaRequest, Diagnostic>,
    at: int,
)
    requires
        call_ensures(read_config_request, (&attempts, prefer_start, &cache, app_version), result),
        0 <= at <= attempts@.len(),
        forall|j: int| 0 <= j < at ==> #[trigger] attempts@[j] is Unreadable,
    ensures
        at == attempts@.len() ==> (result matches Err(diagnostic) && diagnostic.code@
            == "CRV-501"@),
        at < attempts@.len() ==> (attempts@[at] matches ConfigAttempt::Read(Err(message)) ==> (
        result matches Err(diagnostic) && diagnostic.code@ == "CRV-501"@ && opt_text(
            diagnostic.detail,
        ) == Some(message@))),
{
    if at == attempts@.len() {
        lemma_first_read_at(attempts@, at);
    } else if attempts@[at] is Read {
        lemma_first_read(attempts@, at);
    }
    if let Err(diagnostic) = result {
        assert(diagnostic@.code == diagnostic.code@);
        assert(diagnostic@.detail == opt_text(diagnostic.detail));
    }
}

/// The available ids are those of the items whose status is `available`.
proof fn lemma_available(items: Seq<(String, PlanCacheItem)>, id: Seq<char>)
    ensures
        available(items).contains(id) <==> exists|k: int|
            0 <= k < items.len() && (#[trigger] items[k]).0@ == id && (
            items[k].1.status matches Some(status) && trimmed(status@) == "available"@),
    decreases items.len(),
{
    let list = available(items);
    if items.len() > 0 {
        let shorter = items.drop_last();
        let rest = available(shorter);
        let n = items.len() - 1;
        lemma_available(shorter, id);
        if list.contains(id) {
            let at = choose|at: int| 0 <= at < list.len() && list[at] == id;
            if at < rest.len() {
                assert(rest[at] == id);
                let k = choose|k: int|
                    0 <= k < shorter.len() && (#[trigger] shorter[k]).0@ == id && (
                    shorter[k].1.status matches Some(status) && trimmed(status@) == "available"@);
                assert(items[k].0@ == id);
            } else {
                assert(items[n].0@ == id);
            }
        }
        if exists|k: int|
            0 <= k < items.len() && (#[trigger] items[k]).0@ == id && (
            items[k].1.status matches Some(status) && trimmed(status@) == "available"@) {
            let k = choose|k: int|
                0 <= k < items.len() && (#[trigger] items[k]).0@ == id && (
                items[k].1.status matches Some(status) && trimmed(status@) == "available"@);
            if k < n {
                assert(shorter[k].0@ == id);
                let at = choose|at: int| 0 <= at < rest.len() && rest[at] == id;
                assert(list[at] == id);
            } else {
                assert(list[list.len() - 1] == id);
            }
        }
    }
}

/// A cache calls a plan available by the status `available`, white space around it aside; a cache
/// that tells no status calls none so.
pub proof fn law_a_status_makes_available(cache: PlanCacheFile, ids: Vec<String>, id: Seq<char>)
    requires
        call_ensures(PlanCacheFile::available_ids, (&cache,), ids),
    ensures
        texts(ids@).contains(id) <==> (cache.entry_status matches Some(entry) && exists|k: int|
            0 <= k < entry.items.entries().len() && (#[trigger] entry.items.entries()[k]).0@ == id
                && (entry.items.entries()[k].1.status matches Some(status) && trimmed(status@)
                == "available"@)),
{
    if let Some(entry) = cache.entry_status {
        lemma_available(entry.items.entries(), id);
    }
}

/// The first cache that could be read decides alone which plans are available.
pub proof fn law_the_first_cache_decides(
    caches: Vec<Option<PlanCacheFile>>,
    ids: Vec<String>,
    at: int,
    own: Vec<String>,
)
    requires
        call_ensures(read_plan_cache_availability, (&caches,), ids),
        0 <= at <= caches@.len(),
        forall|i: int| 0 <= i < at ==> #[trigger] caches@[i] is None,
        at < caches@.len() ==> caches@[at] is Some && call_ensures(
            PlanCacheFile::available_ids,
            (&caches@[at]->Some_0,),
            own,
        ),
    ensures
        at == caches@.len() ==> ids@.len() == 0,
        at < caches@.len() ==> texts(ids@) == texts(own@),
{
    lemma_availability_at(caches@, at);
    assert(texts(ids@).len() == ids@.len());
}

/// Where a configuration is looked for: in the directory that the environment names, and in no
/// other; else in `.zcode/v2` and then in `.zcode` of the user's home; without a home nowhere.
pub proof fn law_where_a_configuration_is_looked_for(
    environment: Environment,
    directories: Vec<FilePath>,
)
    requires
        call_ensures(zcode_config_candidates, (&environment,), directories),
    ensures
        lookup(environment@, "CODEX_CREDITS_ZCODE_CONFIG_DIR"@) matches Some(dir)
            ==> directories@.len() == 1 && directories@[0]@.base == dir
            && directories@[0]@.parts.len() == 0,
        lookup(environment@, "CODEX_CREDITS_ZCODE_CONFIG_DIR"@) is None ==> {
            let home = match lookup(environment@, "HOME"@) {
                Some(home) => Some(home),
                None => lookup(environment@, "USERPROFILE"@),
            };
            &&& home is None ==> directories@.len() == 0
            &&& home matches Some(home) ==> directories@.len() == 2 && directories@[0]@.base == home
                && directories@[0]@.parts == seq![".zcode"@, "v2"@] && directories@[1]@.base
                == home && directories@[1]@.parts == seq![".zcode"@]
        },
{
    let models = path_models(directories@);
    assert(models.len() == directories@.len());
    if directories@.len() > 0 {
        assert(models[0] == directories@[0]@);
    }
    if directories@.len() > 1 {
        assert(models[1] == directories@[1]@);
        assert(models[0].parts =~= seq![".zcode"@, "v2"@]);
        assert(models[1].parts =~= seq![".zcode"@]);
    }
}

/// What the environment sets is what is sent, the names of ZCode before the others, and what it
/// does not set is that of the configuration. A request for which it sets anything is one for a
/// coding plan. The key of a request holds neither a quotation mark nor a line feed.
pub proof fn law_what_the_environment_sets_is_sent(
    environment: Environment,
    config: Result<QuotaRequest, Diagnostic>,
    result: Result<QuotaRequest, Diagnostic>,
)
    requires
        call_ensures(resolve_quota_request, (&environment, config), result),
        result is Ok,
    ensures
        ({
            let request = result->Ok_0;
            let key = lookup(environment@, "ZCODE_BIGMODEL_USAGE_API_KEY"@);
            let other_key = lookup(environment@, "BIGMODEL_USAGE_API_KEY"@);
            let url = lookup(environment@, "ZCODE_BIGMODEL_USAGE_QUOTA_URL"@);
            let other_url = lookup(environment@, "BIGMODEL_USAGE_QUOTA_URL"@);
            &&& key matches Some(set) ==> request.api_key@ == set
            &&& key is None ==> (other_key matches Some(set) ==> request.api_key@ == set)
            &&& key is None && other_key is None ==> (config matches Ok(given) && request.api_key@
                == given.api_key@ && given.api_key@.len() > 0)
            &&& url matches Some(set) ==> request.url@ == set
            &&& url is None ==> (other_url matches Some(set) ==> request.url@ == set)
            &&& url is None && other_url is None ==> (config matches Ok(given) && request.url@
                == given.url@ && given.url@.len() > 0)
            &&& key is Some || other_key is Some || url is Some || other_url is Some
                ==> request.kind == PlanKind::Coding
            &&& key is None && other_key is None && url is None && other_url is None ==> (
            config matches Ok(given) && request.kind == given.kind)
            &&& forall|i: int|
                0 <= i < request.api_key@.len() ==> (#[trigger] request.api_key@[i]) != '"'
                    && request.api_key@[i] != '\n'
        }),
{
    let request = result->Ok_0;
    assert(outcome_of(result) == Ok::<RequestModel, Report>(request@));
    assert(request@.api_key == request.api_key@ && request@.url == request.url@ && request@.kind
        == request.kind);
    assert forall|i: int| 0 <= i < request.api_key@.len() implies (#[trigger] request.api_key@[i])
        != '"' && request.api_key@[i] != '\n' by {
        assert(!request.api_key@.contains('"') && !request.api_key@.contains('\n'));
    }
}

/// A request is owed wherever the environment or the configuration gives a key and a URL, and the
/// key holds neither a quotation mark nor a line feed. Else the failure is that of the
/// configuration where it failed, and otherwise tells what is missing.
pub proof fn law_a_key_and_a_url_make_a_request(
    environment: Environment,
    config: Result<QuotaRequest, Diagnostic>,
    result: Result<QuotaRequest, Diagnostic>,
)
    requires
        call_ensures(resolve_quota_request, (&environment, config), result),
    ensures
        ({
            let key = match (
                lookup(environment@, "ZCODE_BIGMODEL_USAGE_API_KEY"@),
                lookup(environment@, "BIGMODEL_USAGE_API_KEY"@),
                config,
            ) {
                (Some(set), _, _) => Some(set),
                (None, Some(set), _) => Some(set),
                (None, None, Ok(given)) => if given.api_key@.len() > 0 {
                    Some(given.api_key@)
                } else {
                    None
                },
                (None, None, Err(_)) => None,
            };
            let url = match (
                lookup(environment@, "ZCODE_BIGMODEL_USAGE_QUOTA_URL"@),
                lookup(environment@, "BIGMODEL_USAGE_QUOTA_URL"@),
                config,
            ) {
                (Some(set), _, _) => Some(set),
                (None, Some(set), _) => Some(set),
                (None, None, Ok(given)) => if given.url@.len() > 0 {
                    Some(given.url@)
                } else {
                    None
                },
                (None, None, Err(_)) => None,
            };
            &&& result is Ok <==> (key matches Some(text) && !text.contains('"') && !text.contains(
                '\n',
            )) && url is Some
            &&& result matches Err(diagnostic) ==> {
                &&& key is Some && url is Some ==> diagnostic.code@ == "CRV-503"@
                    && diagnostic.detail is None
                &&& key is None || url is None ==> (config matches Err(failure) ==> diagnostic.code@
                    == failure.code@ && diagnostic.message@ == failure.message@ && opt_text(
                    diagnostic.detail,
                ) == opt_text(failure.detail))
                &&& key is None && config is Ok ==> diagnostic.code@ == "CRV-503"@
                &&& key is Some && url is None && config is Ok ==> diagnostic.code@ == "CRV-501"@
            }
        }),
{
    if let Err(diagnostic) = result {
        assert(diagnostic@.code == diagnostic.code@);
        assert(diagnostic@.message == diagnostic.message@);
        assert(diagnostic@.detail == opt_text(diagnostic.detail));
        assert(outcome_of(result) == Err::<RequestModel, Report>(diagnostic@));
    } else {
        assert(outcome_of(result) is Ok);
    }
    if let Err(failure) = config {
        assert(failure@.code == failure.code@);
        assert(failure@.message == failure.message@);
        assert(failure@.detail == opt_text(failure.detail));
    }
}

/// A plan with a key whose endpoint cannot be told is among those that are told.
proof fn lemma_endpoint_failures(list: Seq<PlanModel>, k: int) -> (at: int)
    requires
        0 <= k < list.len(),
        list[k].endpoint is Err,
        list[k].api_key.len() > 0,
    ensures
        0 <= at < endpoint_failures(list).len(),
        endpoint_failures(list)[at] == list[k].endpoint->Err_0,
    decreases list.len(),
{
    let rest = endpoint_failures(list.drop_last());
    if k == list.len() - 1 {
        rest.len() as int
    } else {
        lemma_endpoint_failures(list.drop_last(), k)
    }
}

/// Where no provider is ready, the failure names every provider that may be asked and has a key,
/// but no place at which to ask it, with the base URL that leads to none.
pub proof fn law_failures_name_the_providers(
    attempts: Vec<ConfigAttempt>,
    prefer_start: bool,
    cache: Vec<String>,
    app_version: &str,
    result: Result<QuotaRequest, Diagnostic>,
    config: ZCodeConfigFile,
    at: int,
    j: int,
    kind: PlanKind,
)
    requires
        call_ensures(read_config_request, (&attempts, prefer_start, &cache, app_version), result),
        0 <= at < attempts@.len(),
        forall|k: int| 0 <= k < at ==> #[trigger] attempts@[k] is Unreadable,
        attempts@[at] == ConfigAttempt::Read(Ok(config)),
        result is Err,
        0 <= j < config.provider.entries().len(),
        kind == PlanKind::Start ==> prefer_start,
        askable(
            config.provider.entries()[j].0@,
            config.provider.entries()[j].1,
            kind,
            texts(cache@),
        ),
        trimmed(config.provider.entries()[j].1.options.api_key@).len() > 0,
    ensures
        result matches Err(diagnostic) && (diagnostic.detail matches Some(detail) && exists|
            before: Seq<char>,
            between: Seq<char>,
            after: Seq<char>,
        |
            detail@ == #[trigger] (before + config.provider.entries()[j].0@ + between
                + config.provider.entries()[j].1.options.base_url@ + after)),
{
    lemma_first_read(attempts@, at);
    let entries = config.provider.entries();
    let ids = texts(cache@);
    let (id, entry) = entries[j];
    let start = plans_of(entries, PlanKind::Start, ids, app_version@);
    let list = plans(entries, prefer_start, ids, app_version@);
    let own = plans_of(entries, kind, ids, app_version@);
    let plan = plan_at(id@, entry, kind, app_version@);
    lemma_ready(id@, entry, kind, ids, app_version@);
    lemma_listed(entries, kind, ids, app_version@, j);
    let i = choose|i: int| 0 <= i < own.len() && own[i] == plan;
    let k = if prefer_start && kind == PlanKind::Coding {
        start.len() + i
    } else {
        i
    };
    assert(list[k] == plan);
    if complete(plan) {
        lemma_some_complete(list, k);
    }
    let n = lemma_endpoint_failures(list, k);
    let told = endpoint_failures(list);
    let (first, last) = lemma_joined_holds(told, "; "@, n);
    let diagnostic = result->Err_0;
    assert(diagnostic@.detail == opt_text(diagnostic.detail));
    let detail = diagnostic.detail->Some_0@;
    assert(detail == joined(told, "; "@));
    assert(detail =~= (first + "provider "@) + id@ + " 的 baseURL 无法解析: "@
        + entry.options.base_url@ + last);
}

/// Where no configuration can be read, the failure tells each attempt: its path and its error.
pub proof fn law_failures_tell_the_attempts(
    attempts: Vec<ConfigAttempt>,
    prefer_start: bool,
    cache: Vec<String>,
    app_version: &str,
    result: Result<QuotaRequest, Diagnostic>,
    k: int,
    path: String,
    error: String,
)
    requires
        call_ensures(read_config_request, (&attempts, prefer_start, &cache, app_version), result),
        forall|i: int| 0 <= i < attempts@.len() ==> #[trigger] attempts@[i] is Unreadable,
        0 <= k < attempts@.len(),
        attempts@[k] == (ConfigAttempt::Unreadable { path, error }),
    ensures
        result matches Err(diagnostic) && (diagnostic.detail matches Some(detail) && exists|
            before: Seq<char>,
            after: Seq<char>,
        |
            detail@ == #[trigger] (before + path@ + ": "@ + error@ + after)),
{
    lemma_first_read_at(attempts@, attempts@.len() as int);
    let told = attempt_lines(attempts@);
    let (first, last) = lemma_joined_holds(told, "; "@, k);
    let diagnostic = result->Err_0;
    assert(diagnostic@.detail == opt_text(diagnostic.detail));
    assert(told[k] == path@ + ": "@ + error@);
    let detail = diagnostic.detail->Some_0@;
    assert(detail =~= ("尝试读取失败: "@ + first) + path@ + ": "@ + error@ + last);
}

} // verus!
