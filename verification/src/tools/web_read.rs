//! Fetching the text of a web page, with one backend after the other.

use crate::assoc;
use crate::assoc::Table;
use crate::channel;
use crate::json;
use crate::json::{Json, JsonView};
use crate::text;
use crate::tools::accounts;
use crate::tools::accounts::{ApiKeyProviderConfig, Environment};
use crate::tools::net;
use crate::tools::net::{IpAddress, Network};
use crate::tools::read_laws;
use crate::tools::requests;
use crate::tools::requests::{CallView, HttpCall};
use crate::tools::web_cn_search;
use crate::web_url;
use vstd::prelude::*;

verus! {

/// The settings of the Crawl4AI backend.
#[derive(Debug)]
pub struct Crawl4aiConfig {
    pub endpoint: String,
    pub api_token: String,
    pub timeout_seconds: u64,
}

/// The settings of the Pinchtab backend.
#[derive(Debug)]
pub struct PinchtabConfig {
    pub endpoint: String,
    pub token: String,
    pub timeout_seconds: u64,
}

/// The settings of the tool.
#[derive(Debug)]
pub struct WebReadConfig {
    pub enabled: bool,
    pub jina: ApiKeyProviderConfig,
    pub metaso: ApiKeyProviderConfig,
    pub crawl4ai: Crawl4aiConfig,
    pub pinchtab: PinchtabConfig,
    pub min_chars: usize,
    pub cache_ttl_minutes: u64,
    pub ssrf_allowlist: Vec<String>,
}

impl Default for WebReadConfig {
    /// Everything off.
    fn default() -> (r: Self)
        ensures
            !r.enabled,
            !r.jina.enabled && r.jina.accounts@.len() == 0,
            !r.metaso.enabled && r.metaso.accounts@.len() == 0,
            r.crawl4ai.endpoint@.len() == 0 && r.crawl4ai.api_token@.len() == 0
                && r.crawl4ai.timeout_seconds == 0,
            r.pinchtab.endpoint@.len() == 0 && r.pinchtab.token@.len() == 0
                && r.pinchtab.timeout_seconds == 0,
            r.min_chars == 0,
            r.cache_ttl_minutes == 0,
            r.ssrf_allowlist@.len() == 0,
    {
        WebReadConfig {
            enabled: false,
            jina: ApiKeyProviderConfig::default(),
            metaso: ApiKeyProviderConfig::default(),
            crawl4ai: Crawl4aiConfig {
                endpoint: String::new(),
                api_token: String::new(),
                timeout_seconds: 0,
            },
            pinchtab: PinchtabConfig {
                endpoint: String::new(),
                token: String::new(),
                timeout_seconds: 0,
            },
            min_chars: 0,
            cache_ttl_minutes: 0,
            ssrf_allowlist: Vec::new(),
        }
    }
}

// ---- pages that were fetched before ----

/// A page that was fetched and the time, in nanoseconds on the monotonic clock, until which it is
/// handed out again.
#[derive(Debug)]
pub struct CacheEntry {
    pub value: Json,
    pub expires_at: u128,
}

/// The pages that were fetched, by what was asked for.
pub struct ReadCache {
    entries: Table<CacheEntry>,
    ttl: u128,
}

/// The nanoseconds of a minute.
pub const MINUTE_NANOS: u128 = 60_000_000_000;

/// What is kept of the pages whose time is not over.
pub open spec fn alive(m: Map<Seq<char>, (JsonView, u128)>, now: u128) -> Map<
    Seq<char>,
    (JsonView, u128),
> {
    Map::new(
        |k: Seq<char>| m.dom().contains(k) && m[k].1 > now,
        |k: Seq<char>| m[k],
    )
}

/// The point `ttl` after `now`, as far as the clock goes.
pub open spec fn later(now: u128, ttl: u128) -> u128 {
    if now + ttl > u128::MAX {
        u128::MAX
    } else {
        (now + ttl) as u128
    }
}

/// The pages after one more was fetched at `now`. Nothing is kept without a time to live. Where
/// there are more than a hundred pages, those whose time is over go.
pub open spec fn stored(
    m: Map<Seq<char>, (JsonView, u128)>,
    ttl: u128,
    key: Seq<char>,
    value: JsonView,
    now: u128,
) -> Map<Seq<char>, (JsonView, u128)> {
    if ttl == 0 {
        m
    } else {
        let kept = if m.dom().len() > 100 {
            alive(m, now)
        } else {
            m
        };
        kept.insert(key, (value, later(now, ttl)))
    }
}

/// The page that is handed out again at `now`.
pub open spec fn cached(m: Map<Seq<char>, (JsonView, u128)>, key: Seq<char>, now: u128) -> Option<
    JsonView,
> {
    if m.dom().contains(key) && now < m[key].1 {
        Some(m[key].0)
    } else {
        None
    }
}

spec fn entry_views(m: Map<Seq<char>, CacheEntry>) -> Map<Seq<char>, (JsonView, u128)> {
    m.map_values(|e: CacheEntry| (e.value@, e.expires_at))
}

impl View for ReadCache {
    type V = Map<Seq<char>, (JsonView, u128)>;

    closed spec fn view(&self) -> Map<Seq<char>, (JsonView, u128)> {
        entry_views(self.entries@)
    }
}

impl ReadCache {
    /// How long a page is handed out again, in nanoseconds.
    pub closed spec fn ttl(self) -> u128 {
        self.ttl
    }

    /// Every page has one entry.
    pub closed spec fn wf(self) -> bool {
        self.entries.wf()
    }

    /// No pages yet.
    pub fn new(ttl_minutes: u64) -> (r: Self)
        ensures
            r.wf(),
            r@ == Map::<Seq<char>, (JsonView, u128)>::empty(),
            r.ttl() == ttl_minutes * MINUTE_NANOS,
    {
        assert(ttl_minutes * 60_000_000_000 <= u64::MAX * 60_000_000_000) by (nonlinear_arith)
            requires
                ttl_minutes <= u64::MAX,
        ;
        let r = ReadCache { entries: Table::new(), ttl: ttl_minutes as u128 * MINUTE_NANOS };
        assert(r@ =~= Map::<Seq<char>, (JsonView, u128)>::empty());
        r
    }

    /// The page that is handed out again at `now`.
    pub fn get(&self, key: &str, now: u128) -> (r: Option<Json>)
        ensures
            web_cn_search::value_view(r) == cached(self@, key@, now),
    {
        match self.entries.get(key) {
            Some(e) => {
                if now < e.expires_at {
                    Some(e.value.copy())
                } else {
                    None
                }
            },
            None => None,
        }
    }

    fn prune(&mut self, now: u128)
        requires
            old(self).wf(),
        ensures
            final(self).wf(),
            final(self)@ == alive(old(self)@, now),
            final(self).ttl() == old(self).ttl(),
    {
        let keys = self.entries.keys();
        let ghost names = text::views(keys@);
        let ghost before = self.entries@;
        let mut i: usize = 0;
        while i < keys.len()
            invariant
                i <= keys@.len(),
                names == text::views(keys@),
                names.no_duplicates(),
                self.wf(),
                self.ttl == old(self).ttl,
                before == old(self).entries@,
                forall|k: Seq<char>|
                    #[trigger] self.entries@.dom().contains(k) <==> before.dom().contains(k) && (
                    before[k].expires_at > now || !names.take(i as int).contains(k)),
                forall|k: Seq<char>| #[trigger]
                    self.entries@.dom().contains(k) ==> self.entries@[k] == before[k],
            decreases keys@.len() - i,
        {
            let ghost prior = self.entries@;
            let name = keys[i].as_str();
            assert(names[i as int] == name@);
            assert(names.take(i + 1) =~= names.take(i as int).push(name@));
            assert(!names.take(i as int).contains(name@)) by {
                if names.take(i as int).contains(name@) {
                    let j = choose|j: int| 0 <= j < i && names.take(i as int)[j] == name@;
                    assert(names[j] == names[i as int]);
                }
            }
            let gone = match self.entries.get(name) {
                Some(e) => e.expires_at <= now,
                None => false,
            };
            if gone {
                let _entry = self.entries.remove(name);
            }
            proof {
                assert forall|k: Seq<char>| #[trigger]
                    self.entries@.dom().contains(k) <==> before.dom().contains(k) && (
                    before[k].expires_at > now || !names.take(i + 1).contains(k)) by {
                    assert(prior.dom().contains(k) <==> before.dom().contains(k) && (
                    before[k].expires_at > now || !names.take(i as int).contains(k)));
                    let t = names.take(i as int);
                    let u = names.take(i + 1);
                    assert(u.contains(k) <==> t.contains(k) || k == name@) by {
                        if t.contains(k) {
                            let j = choose|j: int| 0 <= j < t.len() && t[j] == k;
                            assert(u[j] == k);
                        }
                        if k == name@ {
                            assert(u[i as int] == k);
                        }
                        if u.contains(k) && k != name@ {
                            let j = choose|j: int| 0 <= j < u.len() && u[j] == k;
                            assert(t[j] == k);
                        }
                    }
                }
                assert forall|k: Seq<char>| #[trigger]
                    self.entries@.dom().contains(k) implies self.entries@[k] == before[k] by {
                    assert(prior.dom().contains(k));
                }
            }
            i += 1;
        }
        proof {
            assert(names.take(i as int) =~= names);
            assert forall|k: Seq<char>| #[trigger]
                self@.dom().contains(k) <==> alive(old(self)@, now).dom().contains(k) by {
                assert(before.dom().contains(k) ==> names.contains(k));
                assert(self.entries@.dom().contains(k) <==> before.dom().contains(k) && (
                before[k].expires_at > now || !names.contains(k)));
            }
            assert(self@ =~= alive(old(self)@, now));
        }
    }

    /// Keeps a page that was fetched at `now`.
    pub fn set(&mut self, key: &str, value: Json, now: u128)
        requires
            old(self).wf(),
        ensures
            final(self).wf(),
            final(self)@ == stored(old(self)@, old(self).ttl(), key@, value@, now),
            final(self).ttl() == old(self).ttl(),
    {
        if self.ttl == 0 {
            return;
        }
        assert(old(self)@.dom() =~= old(self).entries@.dom());
        if self.entries.len() > 100 {
            self.prune(now);
        }
        let ghost kept = self@;
        let expires_at: u128 = if now > u128::MAX - self.ttl {
            u128::MAX
        } else {
            now + self.ttl
        };
        let e = CacheEntry { value, expires_at };
        self.entries.insert(key, e);
        assert(self@ =~= kept.insert(key@, (e.value@, e.expires_at)));
    }
}

/// A page that was kept is handed out again until its time is over, and not after.
pub proof fn law_cached(
    m: Map<Seq<char>, (JsonView, u128)>,
    ttl: u128,
    key: Seq<char>,
    value: JsonView,
    now: u128,
    at: u128,
)
    requires
        ttl > 0,
        now + ttl <= u128::MAX,
    ensures
        at < now + ttl ==> cached(stored(m, ttl, key, value, now), key, at) == Some(value),
        at >= now + ttl ==> cached(stored(m, ttl, key, value, now), key, at) is None,
{
}

/// Keeping one page takes no page away from another request, as long as its time is not over.
pub proof fn law_others_kept(
    m: Map<Seq<char>, (JsonView, u128)>,
    ttl: u128,
    key: Seq<char>,
    value: JsonView,
    now: u128,
    other: Seq<char>,
    at: u128,
)
    requires
        other != key,
        now <= at,
    ensures
        cached(stored(m, ttl, key, value, now), other, at) == cached(m, other, at),
{
}


// ---- the tool ----

/// The tool: the backends that can be asked and the pages that were fetched.
pub struct WebReadTool {
    pub jina_key: Option<String>,
    pub metaso_key: Option<String>,
    pub jina_enabled: bool,
    pub metaso_enabled: bool,
    pub crawl4ai_endpoint: String,
    pub crawl4ai_token: String,
    pub crawl4ai_timeout_secs: u64,
    pub pinchtab_endpoint: String,
    pub pinchtab_token: String,
    pub pinchtab_timeout_secs: u64,
    pub min_chars: usize,
    pub ssrf_allowlist: Vec<Network>,
    pub cache: ReadCache,
}

/// The key of a provider: the first one of its settings that can be used, else the one in the
/// environment.
pub open spec fn reader_key(p: ApiKeyProviderConfig, env: Environment, variable: Seq<char>) -> Option<
    Seq<char>,
> {
    match accounts::first_key_of(p) {
        Some(key) => Some(key),
        None => env.value(variable),
    }
}

fn find_key(provider: &ApiKeyProviderConfig, env: &Environment, variable: &str) -> (r: Option<String>)
    ensures
        channel::opt_view(r) == reader_key(*provider, *env, variable@),
{
    match accounts::first_enabled_key(provider) {
        Some(key) => Some(key.to_string()),
        None => accounts::env_value_with_overrides(env, variable),
    }
}

/// Whether a text holds more than white space.
pub open spec fn says(s: Seq<char>) -> bool {
    text::trim_of(s).len() > 0
}

fn not_blank(s: &str) -> (r: bool)
    ensures
        r == says(s@),
{
    text::trim(s).unicode_len() > 0
}

impl WebReadTool {
    /// The pages that were fetched are in order.
    pub open spec fn wf(self) -> bool {
        self.cache.wf()
    }

    /// Whether Crawl4AI can be asked.
    pub open spec fn has_crawl4ai(self) -> bool {
        self.crawl4ai_endpoint@.len() > 0 && self.crawl4ai_token@.len() > 0
    }

    /// Whether Pinchtab can be asked.
    pub open spec fn has_pinchtab(self) -> bool {
        says(self.pinchtab_endpoint@) && says(self.pinchtab_token@)
    }

    /// Whether some backend can be asked.
    pub open spec fn configured(self) -> bool {
        self.jina_key is Some || self.metaso_key is Some || self.has_crawl4ai()
            || self.has_pinchtab()
    }

    /// What is wrong with the settings; where nothing is, the warning that no backend can be
    /// asked.
    pub open spec fn warning_list(self) -> Seq<Seq<char>> {
        let a = web_cn_search::noted(
            Seq::empty(),
            self.jina_enabled && self.jina_key is None,
            "jina enabled but no API key configured"@,
        );
        let b = web_cn_search::noted(
            a,
            self.metaso_enabled && self.metaso_key is None,
            "metaso enabled but no API key configured"@,
        );
        let c = web_cn_search::noted(
            b,
            self.crawl4ai_endpoint@.len() > 0 && self.crawl4ai_token@.len() == 0,
            "crawl4ai endpoint set but api_token is missing"@,
        );
        let d = web_cn_search::noted(
            c,
            self.pinchtab_endpoint@.len() > 0 && !says(self.pinchtab_token@),
            "pinchtab endpoint set but token is missing"@,
        );
        let e = web_cn_search::noted(
            d,
            !says(self.pinchtab_endpoint@) && says(self.pinchtab_token@),
            "pinchtab token set but endpoint is missing"@,
        );
        web_cn_search::noted(
            e,
            e.len() == 0 && !self.configured(),
            "no web_read backends configured (jina/metaso/crawl4ai/pinchtab)"@,
        )
    }

    /// The tool that the settings and the environment describe, if it is enabled.
    pub fn from_config_with_env_overrides(config: &WebReadConfig, env: &Environment) -> (r: Option<
        Self,
    >)
        ensures
            r is Some <==> config.enabled,
            r matches Some(t) ==> {
                &&& t.wf()
                &&& channel::opt_view(t.jina_key) == reader_key(config.jina, *env, "JINA_API_KEY"@)
                &&& channel::opt_view(t.metaso_key) == reader_key(
                    config.metaso,
                    *env,
                    "METASO_API_KEY"@,
                )
                &&& t.jina_enabled == config.jina.enabled
                &&& t.metaso_enabled == config.metaso.enabled
                &&& t.crawl4ai_endpoint@ == config.crawl4ai.endpoint@
                &&& t.crawl4ai_token@ == config.crawl4ai.api_token@
                &&& t.crawl4ai_timeout_secs == config.crawl4ai.timeout_seconds
                &&& t.pinchtab_endpoint@ == config.pinchtab.endpoint@
                &&& t.pinchtab_token@ == config.pinchtab.token@
                &&& t.pinchtab_timeout_secs == config.pinchtab.timeout_seconds
                &&& t.min_chars == config.min_chars
                &&& t.ssrf_allowlist@ == net::networks_of(text::views(config.ssrf_allowlist@))
                &&& t.cache@ == Map::<Seq<char>, (JsonView, u128)>::empty()
                &&& t.cache.ttl() == config.cache_ttl_minutes * MINUTE_NANOS
            },
    {
        if !config.enabled {
            return None;
        }
        Some(
            WebReadTool {
                jina_key: find_key(&config.jina, env, "JINA_API_KEY"),
                metaso_key: find_key(&config.metaso, env, "METASO_API_KEY"),
                jina_enabled: config.jina.enabled,
                metaso_enabled: config.metaso.enabled,
                crawl4ai_endpoint: config.crawl4ai.endpoint.clone(),
                crawl4ai_token: config.crawl4ai.api_token.clone(),
                crawl4ai_timeout_secs: config.crawl4ai.timeout_seconds,
                pinchtab_endpoint: config.pinchtab.endpoint.clone(),
                pinchtab_token: config.pinchtab.token.clone(),
                pinchtab_timeout_secs: config.pinchtab.timeout_seconds,
                min_chars: config.min_chars,
                ssrf_allowlist: net::read_networks(&config.ssrf_allowlist),
                cache: ReadCache::new(config.cache_ttl_minutes),
            },
        )
    }

    /// Whether Crawl4AI can be asked.
    pub fn crawl4ai_configured(&self) -> (r: bool)
        ensures
            r == self.has_crawl4ai(),
    {
        self.crawl4ai_endpoint.as_str().unicode_len() > 0
            && self.crawl4ai_token.as_str().unicode_len() > 0
    }

    /// Whether Pinchtab can be asked.
    pub fn pinchtab_configured(&self) -> (r: bool)
        ensures
            r == self.has_pinchtab(),
    {
        not_blank(self.pinchtab_endpoint.as_str()) && not_blank(self.pinchtab_token.as_str())
    }

    /// Whether some backend can be asked.
    pub fn is_configured(&self) -> (r: bool)
        ensures
            r == self.configured(),
    {
        self.jina_key.is_some() || self.metaso_key.is_some() || self.crawl4ai_configured()
            || self.pinchtab_configured()
    }

    /// What is wrong with the settings.
    pub fn warnings(&self) -> (r: Vec<String>)
        ensures
            text::views(r@) == self.warning_list(),
    {
        let mut out: Vec<String> = Vec::new();
        assert(text::views(out@) =~= Seq::empty());
        web_cn_search::note_if(
            &mut out,
            self.jina_enabled && self.jina_key.is_none(),
            "jina enabled but no API key configured",
        );
        web_cn_search::note_if(
            &mut out,
            self.metaso_enabled && self.metaso_key.is_none(),
            "metaso enabled but no API key configured",
        );
        web_cn_search::note_if(
            &mut out,
            self.crawl4ai_endpoint.as_str().unicode_len() > 0
                && self.crawl4ai_token.as_str().unicode_len() == 0,
            "crawl4ai endpoint set but api_token is missing",
        );
        web_cn_search::note_if(
            &mut out,
            self.pinchtab_endpoint.as_str().unicode_len() > 0 && !not_blank(
                self.pinchtab_token.as_str(),
            ),
            "pinchtab endpoint set but token is missing",
        );
        web_cn_search::note_if(
            &mut out,
            !not_blank(self.pinchtab_endpoint.as_str()) && not_blank(self.pinchtab_token.as_str()),
            "pinchtab token set but endpoint is missing",
        );
        let quiet = out.len() == 0;
        web_cn_search::note_if(
            &mut out,
            quiet && !self.is_configured(),
            "no web_read backends configured (jina/metaso/crawl4ai/pinchtab)",
        );
        out
    }

    /// A result with the warnings beside it.
    pub fn attach_warnings(&self, output: Json) -> (r: Json)
        ensures
            r@ == requests::with_warnings(self.warning_list(), output@),
    {
        requests::add_warnings(&self.warnings(), output)
    }

    /// The page that was fetched before and is handed out again at `now`.
    pub fn cache_get(&self, key: &str, now: u128) -> (r: Option<Json>)
        ensures
            web_cn_search::value_view(r) == cached(self.cache@, key@, now),
    {
        self.cache.get(key, now)
    }

    /// Keeps a page that was fetched at `now`.
    pub fn cache_set(&mut self, key: &str, value: Json, now: u128)
        requires
            old(self).wf(),
        ensures
            final(self).wf(),
            *final(self) == (WebReadTool { cache: final(self).cache, ..*old(self) }),
            final(self).cache@ == stored(
                old(self).cache@,
                old(self).cache.ttl(),
                key@,
                value@,
                now,
            ),
            final(self).cache.ttl() == old(self).cache.ttl(),
    {
        self.cache.set(key, value, now);
    }

    /// The name of the tool.
    pub fn name(&self) -> (r: &'static str)
        ensures
            r@ == "web_read"@,
    {
        "web_read"
    }

    /// What the tool is for.
    pub fn description(&self) -> (r: &'static str)
        ensures
            r@
                == "Fetch web page full-text via 4-level auto-fallback chain (Jina → Metaso → Crawl4AI → Pinchtab). Requires provider API keys (tools.web.read or env JINA_API_KEY / METASO_API_KEY)."@,
    {
        "Fetch web page full-text via 4-level auto-fallback chain (Jina → Metaso → Crawl4AI → Pinchtab). Requires provider API keys (tools.web.read or env JINA_API_KEY / METASO_API_KEY)."
    }

    /// The description of the parameters.
    pub fn parameters_schema(&self) -> (r: Json)
        ensures
            r@ == read_schema(),
    {
        let none: Vec<String> = Vec::new();
        assert(text::views(none@) =~= Seq::empty());
        let mut properties: Vec<(String, Json)> = Vec::new();
        requests::push_member(
            &mut properties,
            "url",
            web_cn_search::value_parameter(
                "string",
                "The URL of the web page to fetch. Required.",
                &none,
                None,
            ),
        );
        requests::push_member(
            &mut properties,
            "with_links",
            web_cn_search::value_parameter(
                "boolean",
                "Include navigation/sidebar link list in output (Jina backend only).",
                &none,
                Some(Json::Bool(false)),
            ),
        );
        assert(json::member_views(properties@) =~= read_parameters());
        let mut required: Vec<Json> = Vec::new();
        required.push(Json::of_text("url"));
        assert(json::views(required@) =~= seq![JsonView::Text("url"@)]);
        let mut out: Vec<(String, Json)> = Vec::new();
        requests::push_member(&mut out, "type", Json::of_text("object"));
        requests::push_member(&mut out, "required", Json::of_items(required));
        requests::push_member(&mut out, "properties", Json::of_members(properties));
        assert(json::member_views(out@) =~= seq![
            ("type"@, JsonView::Text("object"@)),
            ("required"@, JsonView::Array(seq![JsonView::Text("url"@)])),
            ("properties"@, JsonView::Object(read_parameters())),
        ]);
        Json::of_members(out)
    }
}

/// The parameters.
pub open spec fn read_parameters() -> Seq<(Seq<char>, JsonView)> {
    seq![
        (
            "url"@,
            web_cn_search::value_schema(
                "string"@,
                "The URL of the web page to fetch. Required."@,
                Seq::empty(),
                None,
            ),
        ),
        (
            "with_links"@,
            web_cn_search::value_schema(
                "boolean"@,
                "Include navigation/sidebar link list in output (Jina backend only)."@,
                Seq::empty(),
                Some(JsonView::Bool(false)),
            ),
        ),
    ]
}

/// The description of the parameters, of which the URL is required.
pub open spec fn read_schema() -> JsonView {
    JsonView::Object(
        seq![
            ("type"@, JsonView::Text("object"@)),
            ("required"@, JsonView::Array(seq![JsonView::Text("url"@)])),
            ("properties"@, JsonView::Object(read_parameters())),
        ],
    )
}

/// What a call asks for: the URL, without white space around it, and whether links are wanted.
pub open spec fn read_request(params: JsonView) -> Result<(Seq<char>, bool), Seq<char>> {
    match params.text_at("url"@) {
        Some(url) => if says(url) {
            Ok((text::trim_of(url), web_cn_search::bool_of(params, "with_links"@, false)))
        } else {
            Err("missing 'url' parameter"@)
        },
        None => Err("missing 'url' parameter"@),
    }
}

/// What a call asks for, or a message.
pub open spec fn request_view(r: Result<(String, bool), String>) -> Result<
    (Seq<char>, bool),
    Seq<char>,
> {
    match r {
        Ok(x) => Ok((x.0@, x.1)),
        Err(e) => Err(e@),
    }
}

/// What a call asks for.
pub fn read_params(params: &Json) -> (r: Result<(String, bool), String>)
    ensures
        request_view(r) == read_request(params@),
{
    match params.text_at("url") {
        Some(url) => {
            if not_blank(url) {
                Ok(
                    (
                        text::trim(url).to_string(),
                        web_cn_search::bool_arg(params, "with_links", false),
                    ),
                )
            } else {
                Err("missing 'url' parameter".to_string())
            }
        },
        None => Err("missing 'url' parameter".to_string()),
    }
}


// ---- the backends ----

/// The backends, in the order in which they are asked.
#[derive(Debug, Clone, Copy, PartialEq, Eq, Structural)]
pub enum Backend {
    Jina,
    Metaso,
    Crawl4ai,
    Pinchtab,
}

impl Backend {
    /// How a backend is called in results.
    pub open spec fn label(self) -> Seq<char> {
        match self {
            Backend::Jina => "jina"@,
            Backend::Metaso => "metaso"@,
            Backend::Crawl4ai => "crawl4ai"@,
            Backend::Pinchtab => "pinchtab"@,
        }
    }

    /// How a backend is called in results.
    pub fn name(&self) -> (r: &'static str)
        ensures
            r@ == self.label(),
    {
        match self {
            Backend::Jina => "jina",
            Backend::Metaso => "metaso",
            Backend::Crawl4ai => "crawl4ai",
            Backend::Pinchtab => "pinchtab",
        }
    }

    /// The backend that is asked next.
    pub open spec fn following(self) -> Option<Backend> {
        match self {
            Backend::Jina => Some(Backend::Metaso),
            Backend::Metaso => Some(Backend::Crawl4ai),
            Backend::Crawl4ai => Some(Backend::Pinchtab),
            Backend::Pinchtab => None,
        }
    }

    /// How many backends are left, this one included.
    pub open spec fn rank(self) -> nat {
        match self {
            Backend::Jina => 4,
            Backend::Metaso => 3,
            Backend::Crawl4ai => 2,
            Backend::Pinchtab => 1,
        }
    }

    /// The backend that is asked next.
    pub fn next(&self) -> (r: Option<Backend>)
        ensures
            r == self.following(),
    {
        match self {
            Backend::Jina => Some(Backend::Metaso),
            Backend::Metaso => Some(Backend::Crawl4ai),
            Backend::Crawl4ai => Some(Backend::Pinchtab),
            Backend::Pinchtab => None,
        }
    }
}

/// A request to a backend: what is sent, with which key, how many seconds it may take, and whether
/// the reply is read as a JSON document.
#[derive(Debug)]
pub struct ReadCall {
    pub call: HttpCall,
    pub key: String,
    pub timeout_secs: u64,
    pub document: bool,
}

/// What a request to a backend holds.
pub struct ReadCallView {
    pub call: CallView,
    pub key: Seq<char>,
    pub timeout_secs: u64,
    pub document: bool,
}

impl View for ReadCall {
    type V = ReadCallView;

    open spec fn view(&self) -> ReadCallView {
        ReadCallView {
            call: self.call@,
            key: self.key@,
            timeout_secs: self.timeout_secs,
            document: self.document,
        }
    }
}

/// A request or the reason why there is none.
pub open spec fn call_view(r: Result<ReadCall, String>) -> Result<ReadCallView, Seq<char>> {
    match r {
        Ok(c) => Ok(c@),
        Err(e) => Err(e@),
    }
}

/// The request to Jina.
pub open spec fn jina_call(url: Seq<char>, with_links: bool) -> CallView {
    CallView {
        post: false,
        url: "https://r.jina.ai/"@ + url,
        headers: seq![
            ("x-proxy"@, "auto"@),
            ("x-return-format"@, "markdown"@),
            ("x-retain-images"@, "none"@),
            ("x-with-links-summary"@, bool_text(with_links)),
        ],
        query: Seq::empty(),
        body: None,
    }
}

/// How a truth value is written.
pub open spec fn bool_text(b: bool) -> Seq<char> {
    if b {
        "true"@
    } else {
        "false"@
    }
}

fn bool_str(b: bool) -> (r: &'static str)
    ensures
        r@ == bool_text(b),
{
    if b {
        "true"
    } else {
        "false"
    }
}

fn jina_request(url: &str, with_links: bool) -> (r: HttpCall)
    ensures
        r@ == jina_call(url@, with_links),
{
    let mut address = "https://r.jina.ai/".to_string();
    address.append(url);
    let mut headers: Vec<(String, String)> = Vec::new();
    requests::push_pair(&mut headers, "x-proxy", "auto");
    requests::push_pair(&mut headers, "x-return-format", "markdown");
    requests::push_pair(&mut headers, "x-retain-images", "none");
    requests::push_pair(&mut headers, "x-with-links-summary", bool_str(with_links));
    let r = HttpCall { post: false, url: address, headers, query: Vec::new(), body: None };
    assert(r@.headers =~= jina_call(url@, with_links).headers);
    assert(r@.query =~= Seq::empty());
    r
}

/// The request to Metaso.
pub open spec fn metaso_call(url: Seq<char>) -> CallView {
    CallView {
        post: true,
        url: "https://metaso.cn/api/v1/reader"@,
        headers: seq![("Accept"@, "text/plain"@)],
        query: Seq::empty(),
        body: Some(JsonView::Object(seq![("url"@, JsonView::Text(url))])),
    }
}

fn metaso_request(url: &str) -> (r: HttpCall)
    ensures
        r@ == metaso_call(url@),
{
    let mut body: Vec<(String, Json)> = Vec::new();
    requests::push_member(&mut body, "url", Json::of_text(url));
    assert(json::member_views(body@) =~= seq![("url"@, JsonView::Text(url@))]);
    let mut headers: Vec<(String, String)> = Vec::new();
    requests::push_pair(&mut headers, "Accept", "text/plain");
    let r = HttpCall {
        post: true,
        url: "https://metaso.cn/api/v1/reader".to_string(),
        headers,
        query: Vec::new(),
        body: Some(Json::of_members(body)),
    };
    assert(r@.headers =~= metaso_call(url@).headers);
    assert(r@.query =~= Seq::empty());
    r
}

/// What Crawl4AI leaves out of a page.
pub open spec fn crawl_config() -> JsonView {
    JsonView::Object(
        seq![
            ("word_count_threshold"@, json::number_value(50)),
            (
                "excluded_tags"@,
                JsonView::Array(
                    json::text_values(seq!["nav"@, "footer"@, "header"@, "aside"@]),
                ),
            ),
        ],
    )
}

fn crawl_settings() -> (r: Json)
    ensures
        r@ == crawl_config(),
{
    let mut tags: Vec<String> = Vec::new();
    text::push_line(&mut tags, "nav".to_string());
    text::push_line(&mut tags, "footer".to_string());
    text::push_line(&mut tags, "header".to_string());
    text::push_line(&mut tags, "aside".to_string());
    assert(text::views(tags@) =~= seq!["nav"@, "footer"@, "header"@, "aside"@]);
    let mut out: Vec<(String, Json)> = Vec::new();
    requests::push_member(&mut out, "word_count_threshold", Json::of_number(50));
    requests::push_member(&mut out, "excluded_tags", Json::of_texts(&tags));
    assert(json::member_views(out@) =~= crawl_config()->Object_0);
    Json::of_members(out)
}

/// The request to Crawl4AI.
pub open spec fn crawl_call(endpoint: Seq<char>, url: Seq<char>) -> CallView {
    requests::post_of(
        web_url::endpoint_of(endpoint, "/crawl"@),
        JsonView::Object(
            seq![
                ("urls"@, JsonView::Array(seq![JsonView::Text(url)])),
                ("crawler_run_config"@, crawl_config()),
            ],
        ),
    )
}

fn crawl_request(endpoint: &str, url: &str) -> (r: HttpCall)
    ensures
        r@ == crawl_call(endpoint@, url@),
{
    let mut urls: Vec<Json> = Vec::new();
    urls.push(Json::of_text(url));
    assert(json::views(urls@) =~= seq![JsonView::Text(url@)]);
    let mut body: Vec<(String, Json)> = Vec::new();
    requests::push_member(&mut body, "urls", Json::of_items(urls));
    requests::push_member(&mut body, "crawler_run_config", crawl_settings());
    assert(json::member_views(body@) =~= seq![
        ("urls"@, JsonView::Array(seq![JsonView::Text(url@)])),
        ("crawler_run_config"@, crawl_config()),
    ]);
    requests::post(
        web_url::endpoint(endpoint, "/crawl").as_str(),
        Json::of_members(body),
    )
}

/// The request to Pinchtab.
pub open spec fn pinchtab_call(endpoint: Seq<char>, url: Seq<char>) -> CallView {
    requests::post_of(
        web_url::endpoint_of(endpoint, "/api/fetch"@),
        JsonView::Object(
            seq![("url"@, JsonView::Text(url)), ("format"@, JsonView::Text("markdown"@))],
        ),
    )
}

fn pinchtab_request(endpoint: &str, url: &str) -> (r: HttpCall)
    ensures
        r@ == pinchtab_call(endpoint@, url@),
{
    let mut body: Vec<(String, Json)> = Vec::new();
    requests::push_member(&mut body, "url", Json::of_text(url));
    requests::push_member(&mut body, "format", Json::of_text("markdown"));
    assert(json::member_views(body@) =~= seq![
        ("url"@, JsonView::Text(url@)),
        ("format"@, JsonView::Text("markdown"@)),
    ]);
    requests::post(
        web_url::endpoint(endpoint, "/api/fetch").as_str(),
        Json::of_members(body),
    )
}

/// Half a minute more, as far as the number goes.
pub open spec fn half_minute_more(secs: u64) -> u64 {
    if secs > u64::MAX - 30 {
        u64::MAX
    } else {
        (secs + 30) as u64
    }
}

/// The request to a backend, or the reason why it is not asked.
pub open spec fn request_of(t: WebReadTool, b: Backend, url: Seq<char>, with_links: bool) -> Result<
    ReadCallView,
    Seq<char>,
> {
    match b {
        Backend::Jina => match t.jina_key {
            None => Err("Jina: no key configured"@),
            Some(key) => Ok(
                ReadCallView {
                    call: jina_call(url, with_links),
                    key: key@,
                    timeout_secs: 20,
                    document: false,
                },
            ),
        },
        Backend::Metaso => match t.metaso_key {
            None => Err("Metaso: no key configured"@),
            Some(key) => Ok(
                ReadCallView {
                    call: metaso_call(url),
                    key: key@,
                    timeout_secs: 20,
                    document: false,
                },
            ),
        },
        Backend::Crawl4ai => if t.has_crawl4ai() {
            Ok(
                ReadCallView {
                    call: crawl_call(t.crawl4ai_endpoint@, url),
                    key: t.crawl4ai_token@,
                    timeout_secs: half_minute_more(t.crawl4ai_timeout_secs),
                    document: true,
                },
            )
        } else {
            Err("Crawl4AI not configured"@)
        },
        Backend::Pinchtab => if t.has_pinchtab() {
            Ok(
                ReadCallView {
                    call: pinchtab_call(t.pinchtab_endpoint@, url),
                    key: t.pinchtab_token@,
                    timeout_secs: t.pinchtab_timeout_secs,
                    document: false,
                },
            )
        } else {
            Err("Pinchtab not configured (token required)"@)
        },
    }
}

impl WebReadTool {
    /// The request to a backend, or the reason why it is not asked.
    pub fn request(&self, b: Backend, url: &str, with_links: bool) -> (r: Result<ReadCall, String>)
        ensures
            call_view(r) == request_of(*self, b, url@, with_links),
    {
        match b {
            Backend::Jina => match &self.jina_key {
                None => Err("Jina: no key configured".to_string()),
                Some(key) => Ok(
                    ReadCall {
                        call: jina_request(url, with_links),
                        key: key.clone(),
                        timeout_secs: 20,
                        document: false,
                    },
                ),
            },
            Backend::Metaso => match &self.metaso_key {
                None => Err("Metaso: no key configured".to_string()),
                Some(key) => Ok(
                    ReadCall {
                        call: metaso_request(url),
                        key: key.clone(),
                        timeout_secs: 20,
                        document: false,
                    },
                ),
            },
            Backend::Crawl4ai => {
                if self.crawl4ai_configured() {
                    Ok(
                        ReadCall {
                            call: crawl_request(self.crawl4ai_endpoint.as_str(), url),
                            key: self.crawl4ai_token.clone(),
                            timeout_secs: if self.crawl4ai_timeout_secs > u64::MAX - 30 {
                                u64::MAX
                            } else {
                                self.crawl4ai_timeout_secs + 30
                            },
                            document: true,
                        },
                    )
                } else {
                    Err("Crawl4AI not configured".to_string())
                }
            },
            Backend::Pinchtab => {
                if self.pinchtab_configured() {
                    Ok(
                        ReadCall {
                            call: pinchtab_request(self.pinchtab_endpoint.as_str(), url),
                            key: self.pinchtab_token.clone(),
                            timeout_secs: self.pinchtab_timeout_secs,
                            document: false,
                        },
                    )
                } else {
                    Err("Pinchtab not configured (token required)".to_string())
                }
            },
        }
    }
}

/// What came back for a request to a backend.
#[derive(Debug)]
pub enum ReadReply {
    /// Nothing that could be read: the message of the error.
    Failed(String),
    /// A status that is no success: how it is written, and the body.
    Refused { status: String, body: String },
    /// A success with a text.
    Text(String),
    /// A success with a JSON document, as Crawl4AI gives.
    Document(Json),
}

/// The text in a reply of Metaso: the member `content` of a document, else the whole reply.
pub open spec fn metaso_text(document: Option<JsonView>, raw: Seq<char>) -> Seq<char> {
    match document {
        Some(j) => web_cn_search::text_or(j.text_at("content"@), raw),
        None => raw,
    }
}

/// The text in a reply of Metaso, given the document that the reply spells.
pub fn metaso_content(document: &Option<Json>, raw: &str) -> (r: String)
    ensures
        r@ == metaso_text(web_cn_search::value_view(*document), raw@),
{
    match document {
        Some(j) => web_cn_search::str_arg(j, "content", raw),
        None => raw.to_string(),
    }
}

/// A text that is there and not empty.
pub open spec fn filled(t: Option<Seq<char>>) -> Option<Seq<char>> {
    match t {
        Some(x) => if x.len() > 0 {
            Some(x)
        } else {
            None
        },
        None => None,
    }
}

fn if_filled(t: Option<&str>) -> (r: Option<&str>)
    ensures
        json::text_view(r) == filled(json::text_view(t)),
{
    match t {
        Some(x) => {
            if x.unicode_len() > 0 {
                Some(x)
            } else {
                None
            }
        },
        None => None,
    }
}

/// The first item of the list `results`; nothing where there is none.
pub open spec fn first_result(data: JsonView) -> JsonView {
    match data.items_at("results"@) {
        Some(items) => if items.len() > 0 {
            items[0]
        } else {
            JsonView::Null
        },
        None => JsonView::Null,
    }
}

/// A member of an object; nothing where there is none.
pub open spec fn member_or_null(j: JsonView, name: Seq<char>) -> JsonView {
    match j.member(name) {
        Some(m) => m,
        None => JsonView::Null,
    }
}

/// The text in a result of Crawl4AI: its member `markdown`, which is a text or holds one under
/// `fit_markdown` or `raw_markdown`. A result that failed gives its message.
pub open spec fn crawl_text(result: JsonView) -> Result<Seq<char>, Seq<char>> {
    if !web_cn_search::bool_of(result, "success"@, true) {
        Err(
            "Crawl4AI page error: "@ + web_cn_search::text_or(
                result.text_at("error_message"@),
                "unknown error"@,
            ),
        )
    } else {
        let md = member_or_null(result, "markdown"@);
        Ok(
            web_cn_search::text_or(
                web_cn_search::first_text(
                    web_cn_search::first_text(
                        filled(md.text()),
                        filled(md.text_at("fit_markdown"@)),
                    ),
                    filled(md.text_at("raw_markdown"@)),
                ),
                Seq::empty(),
            ),
        )
    }
}

/// The text in a result of Crawl4AI.
pub fn crawl_result(result: &Json) -> (r: Result<String, String>)
    ensures
        web_url::said(r) == crawl_text(result@),
{
    if !web_cn_search::bool_arg(result, "success", true) {
        let mut out = "Crawl4AI page error: ".to_string();
        out.append(web_cn_search::str_arg(result, "error_message", "unknown error").as_str());
        return Err(out);
    }
    let null = Json::Null;
    let md = match result.get("markdown") {
        Some(m) => m,
        None => &null,
    };
    match if_filled(md.as_str()) {
        Some(t) => return Ok(t.to_string()),
        None => {},
    }
    match if_filled(md.text_at("fit_markdown")) {
        Some(t) => return Ok(t.to_string()),
        None => {},
    }
    match if_filled(md.text_at("raw_markdown")) {
        Some(t) => Ok(t.to_string()),
        None => {
            let s = String::new();
            assert(s@ =~= Seq::empty());
            Ok(s)
        },
    }
}

/// The text in a document of Crawl4AI: that of its first result.
pub fn crawl_content(data: &Json) -> (r: Result<String, String>)
    ensures
        web_url::said(r) == crawl_text(first_result(data@)),
{
    match data.items_at("results") {
        Some(items) => {
            assert(json::views(items@).len() == items@.len());
            if items.len() > 0 {
                assert(json::views(items@)[0] == items@[0]@);
                return crawl_result(&items[0]);
            }
        },
        None => {},
    }
    crawl_result(&Json::Null)
}

/// The text that a reply brings, or the message of what went wrong. Crawl4AI answers with a
/// document and the others with texts; a reply of the other kind brings nothing.
pub open spec fn content_of(b: Backend, url: Seq<char>, reply: ReadReply) -> Option<
    Result<Seq<char>, Seq<char>>,
> {
    match (b, reply) {
        (_, ReadReply::Failed(e)) => Some(Err(e@)),
        (Backend::Jina, ReadReply::Refused { status, body }) => Some(
            Err(requests::refusal("Jina"@, status@, requests::shortened(body@, 200))),
        ),
        (Backend::Metaso, ReadReply::Refused { status, body }) => Some(
            Err(requests::refusal("Metaso"@, status@, requests::shortened(body@, 200))),
        ),
        (Backend::Crawl4ai, ReadReply::Refused { status, body }) => Some(
            Err(requests::refusal("Crawl4AI"@, status@, url)),
        ),
        (Backend::Pinchtab, ReadReply::Refused { status, body }) => Some(
            Err(requests::refusal("Pinchtab"@, status@, requests::shortened(body@, 200))),
        ),
        (Backend::Metaso, ReadReply::Text(raw)) => Some(
            Ok(metaso_text(json::document_of(raw@), raw@)),
        ),
        (Backend::Jina, ReadReply::Text(t)) => Some(Ok(t@)),
        (Backend::Pinchtab, ReadReply::Text(t)) => Some(Ok(t@)),
        (Backend::Crawl4ai, ReadReply::Document(data)) => Some(crawl_text(first_result(data@))),
        _ => None,
    }
}

/// The text that a reply brings, if it is of the kind that the backend gives.
pub open spec fn content_view(r: Option<Result<String, String>>) -> Option<
    Result<Seq<char>, Seq<char>>,
> {
    match r {
        Some(x) => Some(web_url::said(x)),
        None => None,
    }
}

/// The text that a reply brings, or the message of what went wrong.
pub fn read_reply(b: Backend, url: &str, reply: &ReadReply) -> (r: Option<Result<String, String>>)
    ensures
        content_view(r) == content_of(b, url@, *reply),
{
    match reply {
        ReadReply::Failed(e) => Some(Err(e.clone())),
        ReadReply::Refused { status, body } => {
            let shown = requests::truncate(body.as_str(), 200);
            let message = match b {
                Backend::Jina => requests::refused("Jina", status.as_str(), shown),
                Backend::Metaso => requests::refused("Metaso", status.as_str(), shown),
                Backend::Crawl4ai => requests::refused("Crawl4AI", status.as_str(), url),
                Backend::Pinchtab => requests::refused("Pinchtab", status.as_str(), shown),
            };
            Some(Err(message))
        },
        ReadReply::Text(t) => match b {
            Backend::Jina => Some(Ok(t.clone())),
            Backend::Metaso => {
                let document = json::parse_text(t.as_str());
                Some(Ok(metaso_content(&document, t.as_str())))
            },
            Backend::Crawl4ai => None,
            Backend::Pinchtab => Some(Ok(t.clone())),
        },
        ReadReply::Document(data) => match b {
            Backend::Crawl4ai => Some(crawl_content(data)),
            _ => None,
        },
    }
}


// ---- fetching ----

/// What the host answers to a fetch.
#[derive(Debug)]
pub enum ReadAnswer {
    /// The address that a host name is, if it is one.
    Literal(Option<IpAddress>),
    /// The addresses of a host name and how they are written, or the message of the error.
    Addresses(Result<Vec<(IpAddress, String)>, String>),
    /// The page that was fetched before, if it is handed out again.
    Cached(Option<Json>),
    /// What came back for a request.
    Reply(ReadReply),
}

/// What a fetch asks of the host, or how it ends.
#[derive(Debug)]
pub enum ReadAction {
    /// Is this host name an address?
    Literal(String),
    /// Which addresses does this host name have, for this port?
    Lookup(String, u16),
    /// Is there a page for this request?
    Cached(String),
    /// Send this request.
    Send(ReadCall),
    /// The fetch is over. A fresh page is to be kept for the request.
    Done { page: Json, fresh: bool },
    /// The fetch failed.
    Fail(String),
    /// An answer was not to the question.
    Stray,
}

/// What an action holds.
pub enum ReadActionView {
    Literal(Seq<char>),
    Lookup(Seq<char>, u16),
    Cached(Seq<char>),
    Send(ReadCallView),
    Done { page: JsonView, fresh: bool },
    Fail(Seq<char>),
    Stray,
}

impl View for ReadAction {
    type V = ReadActionView;

    open spec fn view(&self) -> ReadActionView {
        match self {
            ReadAction::Literal(h) => ReadActionView::Literal(h@),
            ReadAction::Lookup(h, port) => ReadActionView::Lookup(h@, *port),
            ReadAction::Cached(key) => ReadActionView::Cached(key@),
            ReadAction::Send(call) => ReadActionView::Send(call@),
            ReadAction::Done { page, fresh } => ReadActionView::Done { page: page@, fresh: *fresh },
            ReadAction::Fail(e) => ReadActionView::Fail(e@),
            ReadAction::Stray => ReadActionView::Stray,
        }
    }
}

/// The result of a fetch: which backend brought it, the URL, how many bytes, and the text.
pub open spec fn page_of(backend: Seq<char>, url: Seq<char>, content: Seq<char>) -> JsonView {
    JsonView::Object(
        seq![
            ("backend"@, JsonView::Text(backend)),
            ("url"@, JsonView::Text(url)),
            ("length"@, json::number_value(byte_len(content) as u64)),
            ("content"@, JsonView::Text(content)),
        ],
    )
}

/// The number of bytes of a text.
pub open spec fn byte_len(s: Seq<char>) -> nat {
    vstd::utf8::encode_utf8(s).len()
}

/// The result of a fetch.
pub fn fmt_result(backend: &str, url: &str, content: &str) -> (r: Json)
    ensures
        r@ == page_of(backend@, url@, content@),
{
    let n: usize = content.as_bytes().len();
    let mut out: Vec<(String, Json)> = Vec::new();
    requests::push_member(&mut out, "backend", Json::of_text(backend));
    requests::push_member(&mut out, "url", Json::of_text(url));
    requests::push_member(&mut out, "length", Json::of_number(n as u64));
    requests::push_member(&mut out, "content", Json::of_text(content));
    assert(json::member_views(out@) =~= page_of(backend@, url@, content@)->Object_0);
    Json::of_members(out)
}

/// What a backend reported, with its name before it.
pub open spec fn blamed(b: Backend, message: Seq<char>) -> Seq<char> {
    b.label() + ": "@ + message
}

/// What follows when the backends from `b` on are asked one after the other: the first text that
/// is long enough ends the fetch. `k` answers were used up, and `errors` were reported.
pub open spec fn chain(
    t: WebReadTool,
    url: Seq<char>,
    with_links: bool,
    h: Seq<ReadAnswer>,
    k: nat,
    b: Option<Backend>,
    errors: Seq<Seq<char>>,
) -> ReadActionView
    decreases
            match b {
                Some(x) => x.rank(),
                None => 0,
            },
{
    match b {
        None => ReadActionView::Fail("all backends failed: "@ + text::join_of(errors, "; "@)),
        Some(x) => match request_of(t, x, url, with_links) {
            Err(e) => chain(t, url, with_links, h, k, x.following(), errors.push(blamed(x, e))),
            Ok(call) => if k >= h.len() {
                ReadActionView::Send(call)
            } else {
                match h[k as int] {
                    ReadAnswer::Reply(reply) => match content_of(x, url, reply) {
                        None => ReadActionView::Stray,
                        Some(Ok(content)) => if byte_len(content) >= t.min_chars {
                            ReadActionView::Done {
                                page: page_of(x.label(), url, content),
                                fresh: true,
                            }
                        } else {
                            chain(t, url, with_links, h, k + 1, x.following(), errors)
                        },
                        Some(Err(e)) => chain(
                            t,
                            url,
                            with_links,
                            h,
                            k + 1,
                            x.following(),
                            errors.push(blamed(x, e)),
                        ),
                    },
                    _ => ReadActionView::Stray,
                }
            },
        },
    }
}

fn blame(errors: &mut Vec<String>, b: Backend, message: &str)
    ensures
        text::views(final(errors)@) == text::views(old(errors)@).push(blamed(b, message@)),
{
    let mut out = b.name().to_string();
    out.append(": ");
    out.append(message);
    errors.push(out);
    assert(text::views(errors@) =~= text::views(old(errors)@).push(out@));
}

impl WebReadTool {
    fn ask_backends(&self, url: &str, with_links: bool, h: &Vec<ReadAnswer>, start: usize) -> (r:
        ReadAction)
        requires
            start <= h@.len(),
        ensures
            r@ == chain(
                *self,
                url@,
                with_links,
                h@,
                start as nat,
                Some(Backend::Jina),
                Seq::empty(),
            ),
    {
        let mut errors: Vec<String> = Vec::new();
        let mut k: usize = start;
        let mut b: Option<Backend> = Some(Backend::Jina);
        let ghost goal = chain(
            *self,
            url@,
            with_links,
            h@,
            start as nat,
            Some(Backend::Jina),
            Seq::empty(),
        );
        assert(text::views(errors@) =~= Seq::empty());
        loop
            invariant
                k <= h@.len(),
                goal == chain(
                    *self,
                    url@,
                    with_links,
                    h@,
                    start as nat,
                    Some(Backend::Jina),
                    Seq::empty(),
                ),
                goal == chain(*self, url@, with_links, h@, k as nat, b, text::views(errors@)),
            decreases
                    match b {
                        Some(x) => x.rank(),
                        None => 0,
                    },
        {
            match b {
                None => {
                    let mut out = "all backends failed: ".to_string();
                    out.append(text::join(&errors, "; ").as_str());
                    return ReadAction::Fail(out);
                },
                Some(x) => {
                    match self.request(x, url, with_links) {
                        Err(e) => blame(&mut errors, x, e.as_str()),
                        Ok(call) => {
                            if k >= h.len() {
                                return ReadAction::Send(call);
                            }
                            match &h[k] {
                                ReadAnswer::Reply(reply) => {
                                    match read_reply(x, url, reply) {
                                        None => return ReadAction::Stray,
                                        Some(Ok(content)) => {
                                            let n: usize = content.as_str().as_bytes().len();
                                            if n >= self.min_chars {
                                                return ReadAction::Done {
                                                    page: fmt_result(
                                                        x.name(),
                                                        url,
                                                        content.as_str(),
                                                    ),
                                                    fresh: true,
                                                };
                                            }
                                        },
                                        Some(Err(e)) => blame(&mut errors, x, e.as_str()),
                                    }
                                },
                                _ => return ReadAction::Stray,
                            }
                            k += 1;
                        },
                    }
                    b = x.next();
                },
            }
        }
    }
}

/// What is known of a URL: how it is written, or the message of the error; its host; its scheme.
pub struct UrlParts {
    pub form: Result<String, String>,
    pub host: Option<String>,
    pub scheme: Option<String>,
}

/// What the parts of a URL hold.
pub struct PartsView {
    pub form: Result<Seq<char>, Seq<char>>,
    pub host: Option<Seq<char>>,
    pub scheme: Option<Seq<char>>,
}

impl View for UrlParts {
    type V = PartsView;

    open spec fn view(&self) -> PartsView {
        PartsView {
            form: web_url::said(self.form),
            host: channel::opt_view(self.host),
            scheme: channel::opt_view(self.scheme),
        }
    }
}

/// The parts of a URL.
pub open spec fn parts_of(url: Seq<char>) -> PartsView {
    PartsView {
        form: web_url::url_form(url),
        host: web_url::url_host(url),
        scheme: web_url::url_scheme(url),
    }
}

/// The parts of a URL.
pub fn url_parts(url: &str) -> (r: UrlParts)
    ensures
        r@ == parts_of(url@),
{
    UrlParts {
        form: web_url::parse_url(url),
        host: web_url::host(url),
        scheme: web_url::scheme(url),
    }
}

/// The first address at or after `i` that must not be reached.
pub open spec fn first_blocked(
    addresses: Seq<(IpAddress, String)>,
    allowlist: Seq<Network>,
    i: int,
) -> Option<int>
    decreases addresses.len() - i,
{
    if i < 0 || i >= addresses.len() {
        None
    } else if net::blocked(addresses[i].0, allowlist) {
        Some(i)
    } else {
        first_blocked(addresses, allowlist, i + 1)
    }
}

/// How far the check of a URL got: it waits for an answer or refuses, or the URL may be fetched
/// and a number of answers was used up.
pub enum Guard<A, K> {
    Stop(A),
    Pass(K),
}

/// The check that a URL leads to no address that must not be reached.
pub open spec fn guard_of(parts: PartsView, allowlist: Seq<Network>, h: Seq<ReadAnswer>) -> Guard<
    ReadActionView,
    nat,
> {
    match (parts.form, parts.host) {
        (Err(e), _) => Guard::Stop(ReadActionView::Fail(e)),
        (Ok(_), None) => Guard::Stop(ReadActionView::Fail("URL has no host"@)),
        (Ok(_), Some(host)) => if h.len() == 0 {
            Guard::Stop(ReadActionView::Literal(host))
        } else {
            match h[0] {
                ReadAnswer::Literal(Some(ip)) => if net::blocked(ip, allowlist) {
                    Guard::Stop(ReadActionView::Fail("SSRF blocked: "@ + host))
                } else {
                    Guard::Pass(1)
                },
                ReadAnswer::Literal(None) => if h.len() == 1 {
                    Guard::Stop(
                        ReadActionView::Lookup(
                            host,
                            if parts.scheme == Some("http"@) {
                                80
                            } else {
                                443
                            },
                        ),
                    )
                } else {
                    match h[1] {
                        ReadAnswer::Addresses(Err(e)) => Guard::Stop(ReadActionView::Fail(e@)),
                        ReadAnswer::Addresses(Ok(list)) => match first_blocked(
                            list@,
                            allowlist,
                            0,
                        ) {
                            Some(i) => Guard::Stop(
                                ReadActionView::Fail(
                                    "SSRF blocked: "@ + host + " -> "@ + list@[i].1@,
                                ),
                            ),
                            None => Guard::Pass(2),
                        },
                        _ => Guard::Stop(ReadActionView::Stray),
                    }
                },
                _ => Guard::Stop(ReadActionView::Stray),
            }
        },
    }
}

/// What a check holds.
pub open spec fn guard_view(g: Guard<ReadAction, usize>) -> Guard<ReadActionView, nat> {
    match g {
        Guard::Stop(a) => Guard::Stop(a@),
        Guard::Pass(k) => Guard::Pass(k as nat),
    }
}

/// The check that a URL leads to no address that must not be reached.
pub fn ssrf_check(parts: &UrlParts, allowlist: &Vec<Network>, h: &Vec<ReadAnswer>) -> (r: Guard<
    ReadAction,
    usize,
>)
    ensures
        guard_view(r) == guard_of(parts@, allowlist@, h@),
        r matches Guard::Pass(k) ==> k <= h@.len(),
{
    match &parts.form {
        Err(e) => return Guard::Stop(ReadAction::Fail(e.clone())),
        Ok(_) => {},
    }
    let host = match &parts.host {
        None => return Guard::Stop(ReadAction::Fail("URL has no host".to_string())),
        Some(host) => host.as_str(),
    };
    if h.len() == 0 {
        return Guard::Stop(ReadAction::Literal(host.to_string()));
    }
    match &h[0] {
        ReadAnswer::Literal(Some(ip)) => {
            if net::is_blocked(ip, allowlist) {
                let mut out = "SSRF blocked: ".to_string();
                out.append(host);
                Guard::Stop(ReadAction::Fail(out))
            } else {
                Guard::Pass(1)
            }
        },
        ReadAnswer::Literal(None) => {
            if h.len() == 1 {
                let plain = match &parts.scheme {
                    Some(s) => text::str_eq(s.as_str(), "http"),
                    None => false,
                };
                let port: u16 = if plain {
                    80
                } else {
                    443
                };
                return Guard::Stop(ReadAction::Lookup(host.to_string(), port));
            }
            match &h[1] {
                ReadAnswer::Addresses(Err(e)) => Guard::Stop(ReadAction::Fail(e.clone())),
                ReadAnswer::Addresses(Ok(list)) => {
                    let mut i: usize = 0;
                    while i < list.len()
                        invariant
                            i <= list@.len(),
                            first_blocked(list@, allowlist@, 0) == first_blocked(
                                list@,
                                allowlist@,
                                i as int,
                            ),
                            parts@.host == Some(host@),
                            parts@.form is Ok,
                            h@.len() > 1,
                            h@[0] == ReadAnswer::Literal(None),
                            h@[1] == ReadAnswer::Addresses(Ok(*list)),
                        decreases list@.len() - i,
                    {
                        if net::is_blocked(&list[i].0, allowlist) {
                            let mut out = "SSRF blocked: ".to_string();
                            out.append(host);
                            out.append(" -> ");
                            out.append(list[i].1.as_str());
                            return Guard::Stop(ReadAction::Fail(out));
                        }
                        i += 1;
                    }
                    Guard::Pass(2)
                },
                _ => Guard::Stop(ReadAction::Stray),
            }
        },
        _ => Guard::Stop(ReadAction::Stray),
    }
}

/// What a request is kept under.
pub open spec fn cache_key_of(url: Seq<char>, with_links: bool) -> Seq<char> {
    url + ":with_links="@ + bool_text(with_links)
}

/// What a request is kept under.
pub fn cache_key(url: &str, with_links: bool) -> (r: String)
    ensures
        r@ == cache_key_of(url@, with_links),
{
    let mut out = url.to_string();
    out.append(":with_links=");
    out.append(bool_str(with_links));
    out
}

/// The next action of a fetch after the answers `h`: the URL is checked, a page that was fetched
/// before is handed out again, and else the backends are asked one after the other.
pub open spec fn fetch_of(
    t: WebReadTool,
    parts: PartsView,
    url: Seq<char>,
    with_links: bool,
    h: Seq<ReadAnswer>,
) -> ReadActionView {
    if !t.configured() {
        ReadActionView::Fail(
            "No web_read backends configured. Set tools.web.read (jina/metaso/crawl4ai/pinchtab) or env JINA_API_KEY / METASO_API_KEY."@,
        )
    } else {
        match guard_of(parts, t.ssrf_allowlist@, h) {
            Guard::Stop(a) => a,
            Guard::Pass(k) => if k >= h.len() {
                ReadActionView::Cached(cache_key_of(url, with_links))
            } else {
                match h[k as int] {
                    ReadAnswer::Cached(Some(page)) => ReadActionView::Done {
                        page: page@,
                        fresh: false,
                    },
                    ReadAnswer::Cached(None) => chain(
                        t,
                        url,
                        with_links,
                        h,
                        k + 1,
                        Some(Backend::Jina),
                        Seq::empty(),
                    ),
                    _ => ReadActionView::Stray,
                }
            },
        }
    }
}

impl WebReadTool {
    /// The next action of a fetch after the answers `h`, given the parts of the URL.
    pub fn fetch_parts(
        &self,
        parts: &UrlParts,
        url: &str,
        with_links: bool,
        h: &Vec<ReadAnswer>,
    ) -> (r: ReadAction)
        ensures
            r@ == fetch_of(*self, parts@, url@, with_links, h@),
    {
        if !self.is_configured() {
            return ReadAction::Fail(
                "No web_read backends configured. Set tools.web.read (jina/metaso/crawl4ai/pinchtab) or env JINA_API_KEY / METASO_API_KEY.".to_string(),
            );
        }
        match ssrf_check(parts, &self.ssrf_allowlist, h) {
            Guard::Stop(a) => a,
            Guard::Pass(k) => {
                if k >= h.len() {
                    return ReadAction::Cached(cache_key(url, with_links));
                }
                match &h[k] {
                    ReadAnswer::Cached(Some(page)) => ReadAction::Done {
                        page: page.copy(),
                        fresh: false,
                    },
                    ReadAnswer::Cached(None) => self.ask_backends(url, with_links, h, k + 1),
                    _ => ReadAction::Stray,
                }
            },
        }
    }

    /// The next action of a fetch after the answers `h`.
    pub fn fetch(&self, url: &str, with_links: bool, h: &Vec<ReadAnswer>) -> (r: ReadAction)
        ensures
            r@ == fetch_of(*self, parts_of(url@), url@, with_links, h@),
    {
        let parts = url_parts(url);
        self.fetch_parts(&parts, url, with_links, h)
    }
}


/// No backend is asked about a host that is an address that must not be reached, whatever the
/// answers are.
pub proof fn law_address_guarded(
    t: WebReadTool,
    parts: PartsView,
    url: Seq<char>,
    with_links: bool,
    h: Seq<ReadAnswer>,
    ip: IpAddress,
)
    requires
        h.len() > 0,
        h[0] == ReadAnswer::Literal(Some(ip)),
        net::blocked(ip, t.ssrf_allowlist@),
    ensures
        fetch_of(t, parts, url, with_links, h) is Fail,
{
}

proof fn lemma_first_blocked(addresses: Seq<(IpAddress, String)>, allowlist: Seq<Network>, i: int, j: int)
    requires
        0 <= i <= j < addresses.len(),
        net::blocked(addresses[j].0, allowlist),
    ensures
        first_blocked(addresses, allowlist, i) is Some,
    decreases j - i,
{
    if i < j && !net::blocked(addresses[i].0, allowlist) {
        lemma_first_blocked(addresses, allowlist, i + 1, j);
    }
}

/// No backend is asked about a host one of whose addresses must not be reached, whatever the
/// other answers are.
pub proof fn law_lookup_guarded(
    t: WebReadTool,
    parts: PartsView,
    url: Seq<char>,
    with_links: bool,
    h: Seq<ReadAnswer>,
    list: Vec<(IpAddress, String)>,
    j: int,
)
    requires
        h.len() > 1,
        h[0] == ReadAnswer::Literal(None),
        h[1] == ReadAnswer::Addresses(Ok(list)),
        0 <= j < list@.len(),
        net::blocked(list@[j].0, t.ssrf_allowlist@),
    ensures
        fetch_of(t, parts, url, with_links, h) is Fail,
{
    lemma_first_blocked(list@, t.ssrf_allowlist@, 0, j);
}

/// A page that the backends bring holds at least the wanted number of bytes and is the answer of
/// a backend that can be asked.
proof fn lemma_long_enough(
    t: WebReadTool,
    url: Seq<char>,
    with_links: bool,
    h: Seq<ReadAnswer>,
    k: nat,
    b: Option<Backend>,
    errors: Seq<Seq<char>>,
)
    ensures
        chain(t, url, with_links, h, k, b, errors) matches ReadActionView::Done { page, fresh }
            ==> fresh && exists|x: Backend, content: Seq<char>| #[trigger]
            page_of(x.label(), url, content) == page && byte_len(content) >= t.min_chars
                && request_of(t, x, url, with_links) is Ok && read_laws::is_brought(x, h, content),
    decreases
            match b {
                Some(x) => x.rank(),
                None => 0,
            },
{
    match b {
        None => {},
        Some(x) => match request_of(t, x, url, with_links) {
            Err(e) => lemma_long_enough(
                t,
                url,
                with_links,
                h,
                k,
                x.following(),
                errors.push(blamed(x, e)),
            ),
            Ok(call) => if k < h.len() {
                match h[k as int] {
                    ReadAnswer::Reply(reply) => match content_of(x, url, reply) {
                        None => {},
                        Some(Ok(content)) => if byte_len(content) < t.min_chars {
                            lemma_long_enough(t, url, with_links, h, k + 1, x.following(), errors);
                        } else {
                            read_laws::lemma_brings(x, url, reply, content);
                            assert(read_laws::brings(x, h[k as int]->Reply_0, content));
                            assert(page_of(x.label(), url, content) == page_of(
                                x.label(),
                                url,
                                content,
                            ));
                        },
                        Some(Err(e)) => lemma_long_enough(
                            t,
                            url,
                            with_links,
                            h,
                            k + 1,
                            x.following(),
                            errors.push(blamed(x, e)),
                        ),
                    },
                    _ => {},
                }
            },
        },
    }
}

/// A fresh page holds at least the wanted number of bytes, and its content is exactly what the reply of
/// a backend that can be asked brings.
pub proof fn law_fresh_page(
    t: WebReadTool,
    parts: PartsView,
    url: Seq<char>,
    with_links: bool,
    h: Seq<ReadAnswer>,
    page: JsonView,
)
    requires
        fetch_of(t, parts, url, with_links, h) == (ReadActionView::Done { page, fresh: true }),
    ensures
        exists|x: Backend, content: Seq<char>| #[trigger]
            page_of(x.label(), url, content) == page && byte_len(content) >= t.min_chars
                && request_of(t, x, url, with_links) is Ok && read_laws::is_brought(x, h, content),
{
    match guard_of(parts, t.ssrf_allowlist@, h) {
        Guard::Stop(a) => {},
        Guard::Pass(k) => if k < h.len() {
            lemma_long_enough(
                t,
                url,
                with_links,
                h,
                k + 1,
                Some(Backend::Jina),
                Seq::empty(),
            );
        },
    }
}

/// The requests to the backends from `b` on that can be asked, in the order of the backends.
pub open spec fn askable(t: WebReadTool, url: Seq<char>, with_links: bool, b: Option<Backend>) -> Seq<
    ReadCallView,
>
    decreases
            match b {
                Some(x) => x.rank(),
                None => 0,
            },
{
    match b {
        None => Seq::empty(),
        Some(x) => match request_of(t, x, url, with_links) {
            Err(_) => askable(t, url, with_links, x.following()),
            Ok(call) => seq![call] + askable(t, url, with_links, x.following()),
        },
    }
}

proof fn lemma_in_order(
    t: WebReadTool,
    url: Seq<char>,
    with_links: bool,
    h: Seq<ReadAnswer>,
    k: nat,
    b: Option<Backend>,
    errors: Seq<Seq<char>>,
)
    requires
        k <= h.len(),
    ensures
        chain(t, url, with_links, h, k, b, errors) matches ReadActionView::Send(call) ==> h.len() - k
            < askable(t, url, with_links, b).len() && call == askable(t, url, with_links, b)[h.len()
            - k],
        chain(t, url, with_links, h, k, b, errors) is Fail ==> h.len() - k >= askable(
            t,
            url,
            with_links,
            b,
        ).len(),
    decreases
            match b {
                Some(x) => x.rank(),
                None => 0,
            },
{
    match b {
        None => {},
        Some(x) => match request_of(t, x, url, with_links) {
            Err(e) => lemma_in_order(
                t,
                url,
                with_links,
                h,
                k,
                x.following(),
                errors.push(blamed(x, e)),
            ),
            Ok(call) => if k < h.len() {
                match h[k as int] {
                    ReadAnswer::Reply(reply) => match content_of(x, url, reply) {
                        None => {},
                        Some(Ok(content)) => {
                            lemma_in_order(t, url, with_links, h, k + 1, x.following(), errors);
                        },
                        Some(Err(e)) => lemma_in_order(
                            t,
                            url,
                            with_links,
                            h,
                            k + 1,
                            x.following(),
                            errors.push(blamed(x, e)),
                        ),
                    },
                    _ => {},
                }
            },
        },
    }
}

/// The backends fall back on one another in their order: after so many replies comes the request
/// to the next backend that can be asked, and the fetch is given up only when none is left.
pub proof fn law_fallback(
    t: WebReadTool,
    parts: PartsView,
    url: Seq<char>,
    with_links: bool,
    h: Seq<ReadAnswer>,
    k: nat,
)
    requires
        t.configured(),
        guard_of(parts, t.ssrf_allowlist@, h) == Guard::<ReadActionView, nat>::Pass(k),
        k < h.len(),
        h[k as int] == ReadAnswer::Cached(None),
    ensures
        fetch_of(t, parts, url, with_links, h) matches ReadActionView::Send(call) ==> h.len() - k
            - 1 < askable(t, url, with_links, Some(Backend::Jina)).len() && call == askable(
            t,
            url,
            with_links,
            Some(Backend::Jina),
        )[h.len() - k - 1],
        fetch_of(t, parts, url, with_links, h) is Fail ==> h.len() - k - 1 >= askable(
            t,
            url,
            with_links,
            Some(Backend::Jina),
        ).len(),
{
    lemma_in_order(t, url, with_links, h, k + 1, Some(Backend::Jina), Seq::empty());
}

} // verus!
