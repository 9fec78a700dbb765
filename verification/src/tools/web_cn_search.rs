//! Chinese web search and question answering over four providers.

use crate::channel;
use crate::json;
use crate::json::{Json, JsonView};
use crate::text;
use crate::tools::accounts;
use crate::tools::accounts::{AccountPool, ApiKeyProviderConfig, Environment};
use crate::tools::ranking;
use crate::tools::ranking::{ResultView, SearchResult};
use crate::tools::requests;
use crate::tools::requests::{CallView, HttpCall, Reply};
use crate::web_url;
use vstd::prelude::*;

verus! {

/// The settings of the tool.
#[derive(Debug)]
pub struct WebCnSearchConfig {
    pub enabled: bool,
    pub metaso: ApiKeyProviderConfig,
    pub bocha: ApiKeyProviderConfig,
    pub anspire: ApiKeyProviderConfig,
    pub jina: ApiKeyProviderConfig,
    pub timeout_seconds: u64,
}

impl Default for WebCnSearchConfig {
    /// Everything off.
    fn default() -> (r: Self)
        ensures
            !r.enabled,
            !r.metaso.enabled && r.metaso.accounts@.len() == 0,
            !r.bocha.enabled && r.bocha.accounts@.len() == 0,
            !r.anspire.enabled && r.anspire.accounts@.len() == 0,
            !r.jina.enabled && r.jina.accounts@.len() == 0,
            r.timeout_seconds == 0,
    {
        WebCnSearchConfig {
            enabled: false,
            metaso: ApiKeyProviderConfig::default(),
            bocha: ApiKeyProviderConfig::default(),
            anspire: ApiKeyProviderConfig::default(),
            jina: ApiKeyProviderConfig::default(),
            timeout_seconds: 0,
        }
    }
}

/// The keys of a provider: those of its settings that can be used, if it is enabled; where there
/// are none, the one in the environment, if it is not blank.
pub open spec fn provider_keys(
    p: ApiKeyProviderConfig,
    env: Environment,
    variable: Seq<char>,
    name: Seq<char>,
) -> Seq<(Seq<char>, Seq<char>)> {
    let own = if p.enabled {
        accounts::usable_keys(p.accounts@)
    } else {
        Seq::empty()
    };
    if own.len() > 0 {
        own
    } else {
        match env.value(variable) {
            Some(key) => if text::trim_of(key).len() > 0 {
                seq![(name, key)]
            } else {
                Seq::empty()
            },
            None => Seq::empty(),
        }
    }
}

/// The tool: a pool of keys for every provider.
#[derive(Debug)]
pub struct WebCnSearchTool {
    pub metaso: AccountPool,
    pub bocha: AccountPool,
    pub anspire: AccountPool,
    pub jina: AccountPool,
    pub metaso_enabled: bool,
    pub bocha_enabled: bool,
    pub anspire_enabled: bool,
    pub jina_enabled: bool,
    pub timeout_secs: u64,
}

/// A list with one more text, where the condition holds.
pub open spec fn noted(
    list: Seq<Seq<char>>,
    condition: bool,
    note: Seq<char>,
) -> Seq<Seq<char>> {
    if condition {
        list.push(note)
    } else {
        list
    }
}

/// Puts a text at the end of a list, where the condition holds.
pub fn note_if(list: &mut Vec<String>, condition: bool, note: &str)
    ensures
        text::views(final(list)@) == noted(text::views(old(list)@), condition, note@),
{
    if condition {
        text::push_line(list, note.to_string());
    }
}

impl WebCnSearchTool {
    /// Whether some provider has a key.
    pub open spec fn any_accounts(self) -> bool {
        self.metaso.keys().len() > 0 || self.bocha.keys().len() > 0 || self.anspire.keys().len() > 0
            || self.jina.keys().len() > 0
    }

    /// The warnings about providers that are enabled without a key; where there are none, the one
    /// that there is no key at all.
    pub open spec fn warning_list(self) -> Seq<Seq<char>> {
        let a = noted(
            Seq::empty(),
            self.metaso_enabled && self.metaso.keys().len() == 0,
            "metaso enabled but no API key configured"@,
        );
        let b = noted(
            a,
            self.bocha_enabled && self.bocha.keys().len() == 0,
            "bocha enabled but no API key configured"@,
        );
        let c = noted(
            b,
            self.anspire_enabled && self.anspire.keys().len() == 0,
            "anspire enabled but no API key configured"@,
        );
        let d = noted(
            c,
            self.jina_enabled && self.jina.keys().len() == 0,
            "jina enabled but no API key configured"@,
        );
        noted(
            d,
            d.len() == 0 && !self.any_accounts(),
            "no cn search accounts configured (tools.web.cn_search or env METASO/BOCHA/ANSPIRE/JINA API keys)"@,
        )
    }

    fn pool_of(provider: &ApiKeyProviderConfig, env: &Environment, variable: &str, name: &str) -> (r:
        AccountPool)
        ensures
            r.keys() == provider_keys(*provider, *env, variable@, name@),
            r.handed_out() == 0,
    {
        let pool = if provider.enabled {
            AccountPool::new(&provider.accounts)
        } else {
            AccountPool::none()
        };
        Self::merge_env_key(pool, env, variable, name)
    }

    fn merge_env_key(pool: AccountPool, env: &Environment, env_key: &str, name: &str) -> (r:
        AccountPool)
        requires
            pool.handed_out() == 0,
        ensures
            r.handed_out() == 0,
            r.keys() == (if pool.keys().len() > 0 {
                pool.keys()
            } else {
                match env.value(env_key@) {
                    Some(key) => if text::trim_of(key).len() > 0 {
                        seq![(name@, key)]
                    } else {
                        Seq::empty()
                    },
                    None => Seq::empty(),
                }
            }),
    {
        if !pool.is_empty() {
            return pool;
        }
        match accounts::env_value_with_overrides(env, env_key) {
            Some(value) => AccountPool::from_env(name, value.as_str()),
            None => {
                assert(pool.keys() =~= Seq::empty());
                pool
            },
        }
    }

    /// The tool that the settings and the environment describe, if it is enabled.
    pub fn from_config_with_env_overrides(config: &WebCnSearchConfig, env: &Environment) -> (r:
        Option<Self>)
        ensures
            r is Some <==> config.enabled,
            r matches Some(t) ==> {
                &&& t.metaso.keys() == provider_keys(
                    config.metaso,
                    *env,
                    "METASO_API_KEY"@,
                    "metaso"@,
                )
                &&& t.bocha.keys() == provider_keys(config.bocha, *env, "BOCHA_API_KEY"@, "bocha"@)
                &&& t.anspire.keys() == provider_keys(
                    config.anspire,
                    *env,
                    "ANSPIRE_API_KEY"@,
                    "anspire"@,
                )
                &&& t.jina.keys() == provider_keys(config.jina, *env, "JINA_API_KEY"@, "jina"@)
                &&& t.metaso.handed_out() == 0
                &&& t.bocha.handed_out() == 0
                &&& t.anspire.handed_out() == 0
                &&& t.jina.handed_out() == 0
                &&& t.metaso_enabled == config.metaso.enabled
                &&& t.bocha_enabled == config.bocha.enabled
                &&& t.anspire_enabled == config.anspire.enabled
                &&& t.jina_enabled == config.jina.enabled
                &&& t.timeout_secs == config.timeout_seconds
            },
    {
        if !config.enabled {
            return None;
        }
        Some(
            WebCnSearchTool {
                metaso: Self::pool_of(&config.metaso, env, "METASO_API_KEY", "metaso"),
                bocha: Self::pool_of(&config.bocha, env, "BOCHA_API_KEY", "bocha"),
                anspire: Self::pool_of(&config.anspire, env, "ANSPIRE_API_KEY", "anspire"),
                jina: Self::pool_of(&config.jina, env, "JINA_API_KEY", "jina"),
                metaso_enabled: config.metaso.enabled,
                bocha_enabled: config.bocha.enabled,
                anspire_enabled: config.anspire.enabled,
                jina_enabled: config.jina.enabled,
                timeout_secs: config.timeout_seconds,
            },
        )
    }

    /// Whether some provider has a key.
    pub fn has_any_accounts(&self) -> (r: bool)
        ensures
            r == self.any_accounts(),
    {
        !self.metaso.is_empty() || !self.bocha.is_empty() || !self.anspire.is_empty()
            || !self.jina.is_empty()
    }

    /// What is wrong with the settings.
    pub fn warnings(&self) -> (r: Vec<String>)
        ensures
            text::views(r@) == self.warning_list(),
    {
        let mut out: Vec<String> = Vec::new();
        assert(text::views(out@) =~= Seq::empty());
        note_if(
            &mut out,
            self.metaso_enabled && self.metaso.is_empty(),
            "metaso enabled but no API key configured",
        );
        note_if(
            &mut out,
            self.bocha_enabled && self.bocha.is_empty(),
            "bocha enabled but no API key configured",
        );
        note_if(
            &mut out,
            self.anspire_enabled && self.anspire.is_empty(),
            "anspire enabled but no API key configured",
        );
        note_if(
            &mut out,
            self.jina_enabled && self.jina.is_empty(),
            "jina enabled but no API key configured",
        );
        let quiet = out.len() == 0;
        note_if(
            &mut out,
            quiet && !self.has_any_accounts(),
            "no cn search accounts configured (tools.web.cn_search or env METASO/BOCHA/ANSPIRE/JINA API keys)",
        );
        out
    }

    /// A result with the warnings beside it.
    pub fn attach_warnings(&self, output: Json) -> (r: Json)
        ensures
            r@ == requests::with_warnings(self.warning_list(), output@),
    {
        requests::add_warnings(&self.warnings(), output)
    }

    /// The name of the tool.
    pub fn name(&self) -> (r: &'static str)
        ensures
            r@ == "web_cn_search"@,
    {
        "web_cn_search"
    }

    /// What the tool is for.
    pub fn description(&self) -> (r: &'static str)
        ensures
            r@
                == "Chinese web search and AI Q&A via Metaso, Bocha, Anspire, and Jina. Requires provider API keys (tools.web.cn_search or env METASO_API_KEY / BOCHA_API_KEY / ANSPIRE_API_KEY / JINA_API_KEY). For full-text fetch, use web_read."@,
    {
        "Chinese web search and AI Q&A via Metaso, Bocha, Anspire, and Jina. Requires provider API keys (tools.web.cn_search or env METASO_API_KEY / BOCHA_API_KEY / ANSPIRE_API_KEY / JINA_API_KEY). For full-text fetch, use web_read."
    }
}

// ---- arguments ----

/// The query: not blank, without white space around it.
pub open spec fn query_of(a: JsonView) -> Result<Seq<char>, Seq<char>> {
    let q = text::trim_of(
        match a.text_at("query"@) {
            Some(t) => t,
            None => Seq::empty(),
        },
    );
    if q.len() == 0 {
        Err("missing 'query'"@)
    } else {
        Ok(q)
    }
}

/// The query.
pub fn require_query(a: &Json) -> (r: Result<String, String>)
    ensures
        web_url::said(r) == query_of(a@),
{
    let given = match a.text_at("query") {
        Some(t) => text::trim(t).to_string(),
        None => {
            proof {
                reveal_strlit("");
                text::lemma_trim_id(Seq::empty());
            }
            String::new()
        },
    };
    if given.as_str().unicode_len() == 0 {
        Err("missing 'query'".to_string())
    } else {
        Ok(given)
    }
}

/// A text argument.
pub fn opt_str(a: &Json, key: &str) -> (r: Option<String>)
    ensures
        channel::opt_view(r) == a@.text_at(key@),
{
    match a.text_at(key) {
        Some(t) => Some(t.to_string()),
        None => None,
    }
}

/// The value in an option, or the default.
pub open spec fn text_or(t: Option<Seq<char>>, default: Seq<char>) -> Seq<char> {
    match t {
        Some(x) => x,
        None => default,
    }
}

/// A text argument, or the default.
pub fn str_arg(a: &Json, key: &str, default: &str) -> (r: String)
    ensures
        r@ == text_or(a@.text_at(key@), default@),
{
    match a.text_at(key) {
        Some(t) => t.to_string(),
        None => default.to_string(),
    }
}

/// A machine-sized number argument, or the default. A number that does not fit loses its upper
/// bits.
pub open spec fn usize_of(a: JsonView, key: Seq<char>, default: usize) -> usize {
    match a.unsigned_at(key) {
        Some(n) => n as usize,
        None => default,
    }
}

/// A machine-sized number argument, or the default.
pub fn usize_arg(a: &Json, key: &str, default: usize) -> (r: usize)
    ensures
        r == usize_of(a@, key@, default),
{
    match a.unsigned_at(key) {
        Some(n) => n as usize,
        None => default,
    }
}

/// A 32-bit number argument, or the default. A number that does not fit loses its upper bits.
pub open spec fn u32_of(a: JsonView, key: Seq<char>, default: u32) -> u32 {
    match a.unsigned_at(key) {
        Some(n) => n as u32,
        None => default,
    }
}

/// A 32-bit number argument, or the default.
pub fn u32_arg(a: &Json, key: &str, default: u32) -> (r: u32)
    ensures
        r == u32_of(a@, key@, default),
{
    match a.unsigned_at(key) {
        Some(n) => n as u32,
        None => default,
    }
}

/// A truth value argument, or the default.
pub open spec fn bool_of(a: JsonView, key: Seq<char>, default: bool) -> bool {
    match a.truth_at(key) {
        Some(b) => b,
        None => default,
    }
}

/// A truth value argument, or the default.
pub fn bool_arg(a: &Json, key: &str, default: bool) -> (r: bool)
    ensures
        r == bool_of(a@, key@, default),
{
    match a.truth_at(key) {
        Some(b) => b,
        None => default,
    }
}

/// `n`, brought between one and `max`.
pub open spec fn within(n: int, max: int) -> int {
    if n < 1 {
        1
    } else if n > max {
        max
    } else {
        n
    }
}

fn clamp(n: u32, max: u32) -> (r: u32)
    requires
        max >= 1,
    ensures
        r == within(n as int, max as int),
{
    if n < 1 {
        1
    } else if n > max {
        max
    } else {
        n
    }
}


// ---- requests to the providers ----

/// A text, or nothing.
pub open spec fn opt_value(t: Option<Seq<char>>) -> JsonView {
    match t {
        Some(x) => JsonView::Text(x),
        None => JsonView::Null,
    }
}

fn opt_json(t: Option<&str>) -> (r: Json)
    ensures
        r@ == opt_value(json::text_view(t)),
{
    match t {
        Some(x) => Json::of_text(x),
        None => Json::Null,
    }
}

/// The request of a Metaso search.
pub open spec fn metaso_search_of(
    query: Seq<char>,
    size: u32,
    scope: Seq<char>,
    summary: bool,
    raw: bool,
    concise: bool,
) -> CallView {
    requests::post_of(
        "https://metaso.cn/api/v1/search"@,
        JsonView::Object(
            seq![
                ("q"@, JsonView::Text(query)),
                ("size"@, json::number_value(within(size as int, 100) as u64)),
                ("scope"@, JsonView::Text(scope)),
                ("includeSummary"@, JsonView::Bool(summary)),
                ("includeRawContent"@, JsonView::Bool(raw)),
                ("conciseSnippet"@, JsonView::Bool(concise)),
            ],
        ),
    )
}

/// The request of a Metaso search.
pub fn metaso_search(
    query: &str,
    size: u32,
    scope: &str,
    include_summary: bool,
    include_raw_content: bool,
    concise_snippet: bool,
) -> (r: HttpCall)
    ensures
        r@ == metaso_search_of(
            query@,
            size,
            scope@,
            include_summary,
            include_raw_content,
            concise_snippet,
        ),
{
    let mut body: Vec<(String, Json)> = Vec::new();
    requests::push_member(&mut body, "q", Json::of_text(query));
    requests::push_member(&mut body, "size", Json::of_number(clamp(size, 100) as u64));
    requests::push_member(&mut body, "scope", Json::of_text(scope));
    requests::push_member(&mut body, "includeSummary", Json::Bool(include_summary));
    requests::push_member(&mut body, "includeRawContent", Json::Bool(include_raw_content));
    requests::push_member(&mut body, "conciseSnippet", Json::Bool(concise_snippet));
    assert(json::member_views(body@) =~= seq![
        ("q"@, JsonView::Text(query@)),
        ("size"@, json::number_value(within(size as int, 100) as u64)),
        ("scope"@, JsonView::Text(scope@)),
        ("includeSummary"@, JsonView::Bool(include_summary)),
        ("includeRawContent"@, JsonView::Bool(include_raw_content)),
        ("conciseSnippet"@, JsonView::Bool(concise_snippet)),
    ]);
    requests::post("https://metaso.cn/api/v1/search", Json::of_members(body))
}

/// The request of a Metaso chat.
pub open spec fn metaso_chat_of(
    messages: Seq<JsonView>,
    model: Seq<char>,
    chat_format: Seq<char>,
) -> CallView {
    requests::post_of(
        "https://metaso.cn/api/v1/chat/completions"@,
        JsonView::Object(
            seq![
                ("model"@, JsonView::Text(model)),
                ("messages"@, JsonView::Array(messages)),
                ("chat_format"@, JsonView::Text(chat_format)),
            ],
        ),
    )
}

/// The request of a Metaso chat.
pub fn metaso_chat(messages: Vec<Json>, model: &str, chat_format: &str) -> (r: HttpCall)
    ensures
        r@ == metaso_chat_of(json::views(messages@), model@, chat_format@),
{
    let ghost all = json::views(messages@);
    let mut body: Vec<(String, Json)> = Vec::new();
    requests::push_member(&mut body, "model", Json::of_text(model));
    requests::push_member(&mut body, "messages", Json::of_items(messages));
    requests::push_member(&mut body, "chat_format", Json::of_text(chat_format));
    assert(json::member_views(body@) =~= seq![
        ("model"@, JsonView::Text(model@)),
        ("messages"@, JsonView::Array(all)),
        ("chat_format"@, JsonView::Text(chat_format@)),
    ]);
    requests::post("https://metaso.cn/api/v1/chat/completions", Json::of_members(body))
}

/// The request of a Bocha search.
pub open spec fn bocha_search_of(
    query: Seq<char>,
    freshness: Seq<char>,
    summary: bool,
    only: Option<Seq<char>>,
    without: Option<Seq<char>>,
) -> CallView {
    requests::post_of(
        "https://api.bocha.cn/v1/web-search"@,
        JsonView::Object(
            seq![
                ("query"@, JsonView::Text(query)),
                ("freshness"@, JsonView::Text(freshness)),
                ("summary"@, JsonView::Bool(summary)),
                ("include_domains"@, opt_value(only)),
                ("exclude_domains"@, opt_value(without)),
            ],
        ),
    )
}

/// The request of a Bocha search.
pub fn bocha_search(
    query: &str,
    freshness: &str,
    summary: bool,
    include_domains: Option<&str>,
    exclude_domains: Option<&str>,
) -> (r: HttpCall)
    ensures
        r@ == bocha_search_of(
            query@,
            freshness@,
            summary,
            json::text_view(include_domains),
            json::text_view(exclude_domains),
        ),
{
    let mut body: Vec<(String, Json)> = Vec::new();
    requests::push_member(&mut body, "query", Json::of_text(query));
    requests::push_member(&mut body, "freshness", Json::of_text(freshness));
    requests::push_member(&mut body, "summary", Json::Bool(summary));
    requests::push_member(&mut body, "include_domains", opt_json(include_domains));
    requests::push_member(&mut body, "exclude_domains", opt_json(exclude_domains));
    assert(json::member_views(body@) =~= seq![
        ("query"@, JsonView::Text(query@)),
        ("freshness"@, JsonView::Text(freshness@)),
        ("summary"@, JsonView::Bool(summary)),
        ("include_domains"@, opt_value(json::text_view(include_domains))),
        ("exclude_domains"@, opt_value(json::text_view(exclude_domains))),
    ]);
    requests::post("https://api.bocha.cn/v1/web-search", Json::of_members(body))
}

/// A list of pairs with one more, where the value is there and not blank.
pub open spec fn with_param(
    params: Seq<(Seq<char>, Seq<char>)>,
    name: Seq<char>,
    value: Option<Seq<char>>,
) -> Seq<(Seq<char>, Seq<char>)> {
    match value {
        Some(v) => if text::trim_of(v).len() > 0 {
            params.push((name, v))
        } else {
            params
        },
        None => params,
    }
}

fn push_param(params: &mut Vec<(String, String)>, name: &str, value: Option<&str>)
    ensures
        web_url::pairs_view(final(params)@) == with_param(
            web_url::pairs_view(old(params)@),
            name@,
            json::text_view(value),
        ),
{
    match value {
        Some(v) => {
            if text::trim(v).unicode_len() > 0 {
                requests::push_pair(params, name, v);
            }
        },
        None => {},
    }
}

/// The request of an Anspire search, plain or professional.
pub open spec fn anspire_search_of(
    query: Seq<char>,
    top_k: u32,
    site: Option<Seq<char>>,
    from_time: Option<Seq<char>>,
    to_time: Option<Seq<char>>,
    pro: bool,
) -> CallView {
    CallView {
        post: false,
        url: if pro {
            "https://plugin.anspire.cn/api/ntsearch/prosearch"@
        } else {
            "https://plugin.anspire.cn/api/ntsearch/search"@
        },
        headers: seq![("accept"@, "*/*"@), ("connection"@, "keep-alive"@)],
        query: with_param(
            with_param(
                with_param(
                    seq![
                        ("query"@, query),
                        ("top_k"@, text::decimal(within(top_k as int, 50) as nat)),
                    ],
                    "Insite"@,
                    site,
                ),
                "FromTime"@,
                from_time,
            ),
            "ToTime"@,
            to_time,
        ),
        body: None,
    }
}

/// The request of an Anspire search, plain or professional.
pub fn anspire_search(
    query: &str,
    top_k: u32,
    site: Option<&str>,
    from_time: Option<&str>,
    to_time: Option<&str>,
    pro: bool,
) -> (r: HttpCall)
    ensures
        r@ == anspire_search_of(
            query@,
            top_k,
            json::text_view(site),
            json::text_view(from_time),
            json::text_view(to_time),
            pro,
        ),
{
    let mut params: Vec<(String, String)> = Vec::new();
    requests::push_pair(&mut params, "query", query);
    requests::push_pair(
        &mut params,
        "top_k",
        text::decimal_text(clamp(top_k, 50) as u64).as_str(),
    );
    assert(web_url::pairs_view(params@) =~= seq![
        ("query"@, query@),
        ("top_k"@, text::decimal(within(top_k as int, 50) as nat)),
    ]);
    push_param(&mut params, "Insite", site);
    push_param(&mut params, "FromTime", from_time);
    push_param(&mut params, "ToTime", to_time);
    let mut headers: Vec<(String, String)> = Vec::new();
    requests::push_pair(&mut headers, "accept", "*/*");
    requests::push_pair(&mut headers, "connection", "keep-alive");
    assert(web_url::pairs_view(headers@) =~= seq![
        ("accept"@, "*/*"@),
        ("connection"@, "keep-alive"@),
    ]);
    let url = if pro {
        "https://plugin.anspire.cn/api/ntsearch/prosearch"
    } else {
        "https://plugin.anspire.cn/api/ntsearch/search"
    };
    HttpCall { post: false, url: url.to_string(), headers, query: params, body: None }
}

/// The request of a Jina search.
pub open spec fn jina_search_of(
    query: Seq<char>,
    count: u32,
    with_content: bool,
    site: Option<Seq<char>>,
) -> CallView {
    let accept = seq![("accept"@, "application/json"@)];
    let brief = if with_content {
        accept
    } else {
        accept.push(("x-respond-with"@, "no-content"@))
    };
    CallView {
        post: false,
        url: "https://s.jina.ai/"@,
        headers: match site {
            Some(s) => brief.push(("x-site"@, s)),
            None => brief,
        },
        query: seq![
            ("q"@, query),
            ("gl"@, "CN"@),
            ("hl"@, "zh-cn"@),
            ("num"@, text::decimal(within(count as int, 20) as nat)),
        ],
        body: None,
    }
}

/// The request of a Jina search.
pub fn jina_search(query: &str, count: u32, with_content: bool, site: Option<&str>) -> (r: HttpCall)
    ensures
        r@ == jina_search_of(query@, count, with_content, json::text_view(site)),
{
    let mut params: Vec<(String, String)> = Vec::new();
    requests::push_pair(&mut params, "q", query);
    requests::push_pair(&mut params, "gl", "CN");
    requests::push_pair(&mut params, "hl", "zh-cn");
    requests::push_pair(
        &mut params,
        "num",
        text::decimal_text(clamp(count, 20) as u64).as_str(),
    );
    assert(web_url::pairs_view(params@) =~= seq![
        ("q"@, query@),
        ("gl"@, "CN"@),
        ("hl"@, "zh-cn"@),
        ("num"@, text::decimal(within(count as int, 20) as nat)),
    ]);
    let mut headers: Vec<(String, String)> = Vec::new();
    requests::push_pair(&mut headers, "accept", "application/json");
    assert(web_url::pairs_view(headers@) =~= seq![("accept"@, "application/json"@)]);
    if !with_content {
        requests::push_pair(&mut headers, "x-respond-with", "no-content");
    }
    match site {
        Some(s) => requests::push_pair(&mut headers, "x-site", s),
        None => {},
    }
    HttpCall {
        post: false,
        url: "https://s.jina.ai/".to_string(),
        headers,
        query: params,
        body: None,
    }
}

// ---- replies of the providers ----

/// The providers.
#[derive(Debug, Clone, Copy, PartialEq, Eq, Structural)]
pub enum Provider {
    Metaso,
    Bocha,
    Anspire,
    Jina,
}

impl Provider {
    /// How a provider is called in messages.
    pub open spec fn label(self) -> Seq<char> {
        match self {
            Provider::Metaso => "Metaso"@,
            Provider::Bocha => "Bocha"@,
            Provider::Anspire => "Anspire"@,
            Provider::Jina => "Jina"@,
        }
    }

    /// How a provider is called in messages.
    pub fn name(&self) -> (r: &'static str)
        ensures
            r@ == self.label(),
    {
        match self {
            Provider::Metaso => "Metaso",
            Provider::Bocha => "Bocha",
            Provider::Anspire => "Anspire",
            Provider::Jina => "Jina",
        }
    }
}

/// The start of a body for a message.
pub open spec fn preview(body: Seq<char>) -> Seq<char> {
    if body.len() > 240 {
        body.take(240) + "..."@
    } else {
        body
    }
}

/// The message about a body that is no JSON.
pub open spec fn unreadable(label: Seq<char>, error: Seq<char>, body: Seq<char>) -> Seq<char> {
    label + " invalid JSON response: "@ + error + "; body="@ + preview(body)
}

/// The message about a body that is no JSON.
pub fn invalid_json(label: &str, error: &str, body: &str) -> (r: String)
    ensures
        r@ == unreadable(label@, error@, body@),
{
    let mut out = label.to_string();
    out.append(" invalid JSON response: ");
    out.append(error);
    out.append("; body=");
    let ghost start = out@;
    out.append(requests::truncate(body, 240));
    if body.unicode_len() > 240 {
        out.append("...");
    }
    assert(out@ =~= start + preview(body@));
    out
}

/// The document in a body, or a message that shows the start of the body.
pub open spec fn decoded(
    label: Seq<char>,
    document: Result<JsonView, Seq<char>>,
    body: Seq<char>,
) -> Result<JsonView, Seq<char>> {
    match document {
        Ok(j) => Ok(j),
        Err(e) => Err(unreadable(label, e, body)),
    }
}

/// The document in a body, or a message that shows the start of the body.
pub fn decode_json_response(label: &str, body: &[u8]) -> (r: Result<Json, String>)
    ensures
        json::outcome_view(r) == decoded(label@, json::json_document(body@), text::lossy(body@)),
{
    match json::read_document(body) {
        Ok(j) => Ok(j),
        Err(e) => {
            let shown = text::lossy_text(body);
            Err(invalid_json(label, e.as_str(), shown.as_str()))
        },
    }
}

/// What to do next about a provider: send the request with a key, or stop with a document or a
/// message.
#[derive(Debug)]
pub enum ProviderStep {
    Send(String),
    Done(Result<Json, String>),
}

/// What a step holds.
pub enum ProviderStepView {
    Send(Seq<char>),
    Done(Result<JsonView, Seq<char>>),
}

impl View for ProviderStep {
    type V = ProviderStepView;

    open spec fn view(&self) -> ProviderStepView {
        match self {
            ProviderStep::Send(key) => ProviderStepView::Send(key@),
            ProviderStep::Done(r) => ProviderStepView::Done(json::outcome_view(*r)),
        }
    }
}

/// What a reply other than a request to come back later means.
pub open spec fn settled(label: Seq<char>, reply: Reply) -> Result<JsonView, Seq<char>> {
    match reply {
        Reply::Failed(e) => Err(e@),
        Reply::Refused { code, status, body } => Err(requests::refusal(label, status@, body@)),
        Reply::Lost(e) => Err(label + " response decode failed: "@ + e@),
        Reply::Body(bytes) => decoded(label, json::json_document(bytes@), text::lossy(bytes@)),
    }
}

/// What a reply other than a request to come back later means.
pub fn settle(label: &str, reply: &Reply) -> (r: Result<Json, String>)
    ensures
        json::outcome_view(r) == settled(label@, *reply),
{
    match reply {
        Reply::Failed(e) => Err(e.clone()),
        Reply::Refused { code, status, body } => Err(
            requests::refused(label, status.as_str(), body.as_str()),
        ),
        Reply::Lost(e) => {
            let mut out = label.to_string();
            out.append(" response decode failed: ");
            out.append(e.as_str());
            Err(out)
        },
        Reply::Body(bytes) => decode_json_response(label, bytes.as_slice()),
    }
}

/// Whether a reply says that there were too many requests.
pub open spec fn too_many(reply: Reply) -> bool {
    reply matches Reply::Refused { code, status, body } && code == 429
}

fn is_too_many(reply: &Reply) -> (r: bool)
    ensures
        r == too_many(*reply),
{
    match reply {
        Reply::Refused { code, status, body } => *code == 429,
        _ => false,
    }
}

/// What follows the replies so far, the first `i` of which were requests to come back later. The
/// keys are tried in order, each once.
pub open spec fn key_by_key(
    label: Seq<char>,
    keys: Seq<(Seq<char>, Seq<char>)>,
    replies: Seq<Reply>,
    i: nat,
) -> ProviderStepView
    decreases keys.len() - i,
{
    if keys.len() == 0 {
        ProviderStepView::Done(Err(label + ": no accounts configured"@))
    } else if i >= keys.len() {
        ProviderStepView::Done(Err(label + " rate-limited"@))
    } else if i >= replies.len() {
        ProviderStepView::Send(keys[i as int].1)
    } else if too_many(replies[i as int]) {
        key_by_key(label, keys, replies, i + 1)
    } else {
        ProviderStepView::Done(settled(label, replies[i as int]))
    }
}

/// What follows the replies so far: after a request to come back later, the same request with the
/// next key.
pub fn next_attempt(provider: Provider, pool: &AccountPool, replies: &Vec<Reply>) -> (r: ProviderStep)
    ensures
        r@ == key_by_key(provider.label(), pool.keys(), replies@, 0),
{
    let label = provider.name();
    if pool.is_empty() {
        let mut out = label.to_string();
        out.append(": no accounts configured");
        return ProviderStep::Done(Err(out));
    }
    let mut i: usize = 0;
    while i < pool.len()
        invariant
            label@ == provider.label(),
            pool.keys().len() > 0,
            i <= pool.keys().len(),
            key_by_key(label@, pool.keys(), replies@, 0) == key_by_key(
                label@,
                pool.keys(),
                replies@,
                i as nat,
            ),
        decreases pool.keys().len() - i,
    {
        if i >= replies.len() {
            match pool.key_at(i) {
                Some(key) => {
                    proof {
                        vstd::arithmetic::div_mod::lemma_small_mod(i as nat, pool.keys().len());
                    }
                    return ProviderStep::Send(key.to_string());
                },
                None => {},
            }
        } else if !is_too_many(&replies[i]) {
            return ProviderStep::Done(settle(label, &replies[i]));
        }
        i += 1;
    }
    let mut out = label.to_string();
    out.append(" rate-limited");
    ProviderStep::Done(Err(out))
}

/// What follows with a provider that is asked once, with the key whose turn it is.
pub open spec fn one_key(
    label: Seq<char>,
    key: Option<Seq<char>>,
    reply: Option<Reply>,
) -> ProviderStepView {
    match key {
        None => ProviderStepView::Done(Err(label + ": no accounts configured"@)),
        Some(k) => match reply {
            None => ProviderStepView::Send(k),
            Some(a) => ProviderStepView::Done(settled(label, a)),
        },
    }
}

/// The first reply, if there is any.
pub open spec fn first_of(replies: Seq<Reply>) -> Option<Reply> {
    if replies.len() == 0 {
        None
    } else {
        Some(replies[0])
    }
}

/// What follows with a provider that is asked once, with the key whose turn it is.
pub fn only_attempt(provider: Provider, key: &Option<String>, reply: &Option<Reply>) -> (r: ProviderStep)
    ensures
        r@ == one_key(provider.label(), channel::opt_view(*key), *reply),
{
    let label = provider.name();
    match key {
        None => {
            let mut out = label.to_string();
            out.append(": no accounts configured");
            ProviderStep::Done(Err(out))
        },
        Some(k) => match reply {
            None => ProviderStep::Send(k.clone()),
            Some(a) => ProviderStep::Done(settle(label, a)),
        },
    }
}

/// As long as every reply asks to come back later, the next key is tried, and after the last one
/// the provider counts as rate-limited.
pub proof fn law_next_key(
    label: Seq<char>,
    keys: Seq<(Seq<char>, Seq<char>)>,
    replies: Seq<Reply>,
    i: nat,
)
    requires
        keys.len() > 0,
        i <= replies.len() <= keys.len(),
        forall|k: int| 0 <= k < replies.len() ==> too_many(#[trigger] replies[k]),
    ensures
        replies.len() < keys.len() ==> key_by_key(label, keys, replies, i)
            == ProviderStepView::Send(keys[replies.len() as int].1),
        replies.len() == keys.len() ==> key_by_key(label, keys, replies, i)
            == ProviderStepView::Done(Err(label + " rate-limited"@)),
    decreases replies.len() - i,
{
    if i < replies.len() {
        assert(too_many(replies[i as int]));
        law_next_key(label, keys, replies, i + 1);
    }
}


// ---- what a call asks for ----

/// A search over all providers.
#[derive(Debug)]
pub struct BroadSearch {
    pub query: String,
    pub limit: usize,
    pub per: u32,
    pub site: Option<String>,
    pub freshness: Option<String>,
}

/// What a search over all providers holds.
pub struct BroadView {
    pub query: Seq<char>,
    pub limit: usize,
    pub per: u32,
    pub site: Option<Seq<char>>,
    pub freshness: Option<Seq<char>>,
}

impl View for BroadSearch {
    type V = BroadView;

    open spec fn view(&self) -> BroadView {
        BroadView {
            query: self.query@,
            limit: self.limit,
            per: self.per,
            site: channel::opt_view(self.site),
            freshness: channel::opt_view(self.freshness),
        }
    }
}

/// What a call of the tool asks for: a search over all providers, or one request to one of them.
#[derive(Debug)]
pub enum SearchPlan {
    Broad(BroadSearch),
    One(Provider, HttpCall),
}

/// What a plan holds.
pub enum PlanView {
    Broad(BroadView),
    One(Provider, CallView),
}

impl View for SearchPlan {
    type V = PlanView;

    open spec fn view(&self) -> PlanView {
        match self {
            SearchPlan::Broad(b) => PlanView::Broad(b@),
            SearchPlan::One(p, call) => PlanView::One(*p, call@),
        }
    }
}

/// The plan or the message.
pub open spec fn plan_view(r: Result<SearchPlan, String>) -> Result<PlanView, Seq<char>> {
    match r {
        Ok(p) => Ok(p@),
        Err(e) => Err(e@),
    }
}

/// How many results every provider is asked for: twice the limit, between five and ten.
pub open spec fn share(limit: usize) -> u32 {
    if limit <= 2 {
        5
    } else if limit >= 5 {
        10
    } else {
        (2 * limit) as u32
    }
}

/// The search over all providers that the arguments describe.
pub open spec fn broad_of(a: JsonView) -> Result<PlanView, Seq<char>> {
    match query_of(a) {
        Err(e) => Err(e),
        Ok(query) => {
            let limit = within(usize_of(a, "limit"@, 5) as int, 50) as usize;
            Ok(
                PlanView::Broad(
                    BroadView {
                        query,
                        limit,
                        per: share(limit),
                        site: a.text_at("site"@),
                        freshness: a.text_at("freshness"@),
                    },
                ),
            )
        },
    }
}

/// The search over all providers that the arguments describe.
fn plan_search(a: &Json) -> (r: Result<SearchPlan, String>)
    ensures
        plan_view(r) == broad_of(a@),
{
    match require_query(a) {
        Err(e) => Err(e),
        Ok(query) => {
            let given: usize = usize_arg(a, "limit", 5);
            let limit: usize = if given < 1 {
                1
            } else if given > 50 {
                50
            } else {
                given
            };
            let per: u32 = if limit <= 2 {
                5
            } else if limit >= 5 {
                10
            } else {
                (2 * limit) as u32
            };
            Ok(
                SearchPlan::Broad(
                    BroadSearch {
                        query,
                        limit,
                        per,
                        site: opt_str(a, "site"),
                        freshness: opt_str(a, "freshness"),
                    },
                ),
            )
        },
    }
}

/// The Metaso search that the arguments describe.
pub open spec fn metaso_search_plan(a: JsonView) -> Result<PlanView, Seq<char>> {
    match query_of(a) {
        Err(e) => Err(e),
        Ok(query) => Ok(
            PlanView::One(
                Provider::Metaso,
                metaso_search_of(
                    query,
                    within(u32_of(a, "limit"@, 5) as int, 100) as u32,
                    text_or(a.text_at("scope"@), "webpage"@),
                    bool_of(a, "include_summary"@, true),
                    bool_of(a, "include_raw_content"@, false),
                    bool_of(a, "concise_snippet"@, false),
                ),
            ),
        ),
    }
}

fn plan_metaso_search(a: &Json) -> (r: Result<SearchPlan, String>)
    ensures
        plan_view(r) == metaso_search_plan(a@),
{
    match require_query(a) {
        Err(e) => Err(e),
        Ok(query) => {
            let call = metaso_search(
                query.as_str(),
                clamp(u32_arg(a, "limit", 5), 100),
                str_arg(a, "scope", "webpage").as_str(),
                bool_arg(a, "include_summary", true),
                bool_arg(a, "include_raw_content", false),
                bool_arg(a, "concise_snippet", false),
            );
            Ok(SearchPlan::One(Provider::Metaso, call))
        },
    }
}

/// The messages of a chat: the given ones, or the query as the only one.
pub open spec fn messages_of(a: JsonView, query: Seq<char>) -> Seq<JsonView> {
    match a.items_at("messages"@) {
        Some(items) => items,
        None => seq![
            JsonView::Object(
                seq![
                    ("role"@, JsonView::Text("user"@)),
                    ("content"@, JsonView::Text(query)),
                ],
            ),
        ],
    }
}

fn chat_messages(a: &Json, query: &str) -> (r: Vec<Json>)
    ensures
        json::views(r@) == messages_of(a@, query@),
{
    let mut out: Vec<Json> = Vec::new();
    match a.items_at("messages") {
        Some(items) => {
            let mut i: usize = 0;
            while i < items.len()
                invariant
                    i <= items@.len(),
                    out@.len() == i,
                    forall|k: int| 0 <= k < i ==> (#[trigger] out@[k])@ == items@[k]@,
                decreases items@.len() - i,
            {
                out.push(items[i].copy());
                i += 1;
            }
            assert(json::views(out@) =~= json::views(items@));
        },
        None => {
            let mut members: Vec<(String, Json)> = Vec::new();
            requests::push_member(&mut members, "role", Json::of_text("user"));
            requests::push_member(&mut members, "content", Json::of_text(query));
            assert(json::member_views(members@) =~= seq![
                ("role"@, JsonView::Text("user"@)),
                ("content"@, JsonView::Text(query@)),
            ]);
            out.push(Json::of_members(members));
            assert(json::views(out@) =~= messages_of(a@, query@));
        },
    }
    out
}

/// The Metaso chat that the arguments describe.
pub open spec fn metaso_chat_plan(a: JsonView) -> Result<PlanView, Seq<char>> {
    match query_of(a) {
        Err(e) => Err(e),
        Ok(query) => Ok(
            PlanView::One(
                Provider::Metaso,
                metaso_chat_of(
                    messages_of(a, query),
                    text_or(a.text_at("model"@), "fast"@),
                    text_or(a.text_at("chat_format"@), "chat_completions"@),
                ),
            ),
        ),
    }
}

fn plan_metaso_chat(a: &Json) -> (r: Result<SearchPlan, String>)
    ensures
        plan_view(r) == metaso_chat_plan(a@),
{
    match require_query(a) {
        Err(e) => Err(e),
        Ok(query) => {
            let call = metaso_chat(
                chat_messages(a, query.as_str()),
                str_arg(a, "model", "fast").as_str(),
                str_arg(a, "chat_format", "chat_completions").as_str(),
            );
            Ok(SearchPlan::One(Provider::Metaso, call))
        },
    }
}

/// The Bocha search that the arguments describe.
pub open spec fn bocha_search_plan(a: JsonView) -> Result<PlanView, Seq<char>> {
    match query_of(a) {
        Err(e) => Err(e),
        Ok(query) => Ok(
            PlanView::One(
                Provider::Bocha,
                bocha_search_of(
                    query,
                    text_or(a.text_at("freshness"@), "noLimit"@),
                    bool_of(a, "bocha_summary"@, true),
                    a.text_at("include_domains"@),
                    a.text_at("exclude_domains"@),
                ),
            ),
        ),
    }
}

fn plan_bocha_search(a: &Json) -> (r: Result<SearchPlan, String>)
    ensures
        plan_view(r) == bocha_search_plan(a@),
{
    match require_query(a) {
        Err(e) => Err(e),
        Ok(query) => {
            let call = bocha_search(
                query.as_str(),
                str_arg(a, "freshness", "noLimit").as_str(),
                bool_arg(a, "bocha_summary", true),
                a.text_at("include_domains"),
                a.text_at("exclude_domains"),
            );
            Ok(SearchPlan::One(Provider::Bocha, call))
        },
    }
}

/// The Anspire search that the arguments describe.
pub open spec fn anspire_search_plan(a: JsonView, pro: bool) -> Result<PlanView, Seq<char>> {
    match query_of(a) {
        Err(e) => Err(e),
        Ok(query) => Ok(
            PlanView::One(
                Provider::Anspire,
                anspire_search_of(
                    query,
                    within(u32_of(a, "limit"@, 5) as int, 50) as u32,
                    a.text_at("site"@),
                    a.text_at("from_time"@),
                    a.text_at("to_time"@),
                    pro,
                ),
            ),
        ),
    }
}

fn plan_anspire_search(a: &Json, pro: bool) -> (r: Result<SearchPlan, String>)
    ensures
        plan_view(r) == anspire_search_plan(a@, pro),
{
    match require_query(a) {
        Err(e) => Err(e),
        Ok(query) => {
            let call = anspire_search(
                query.as_str(),
                clamp(u32_arg(a, "limit", 5), 50),
                a.text_at("site"),
                a.text_at("from_time"),
                a.text_at("to_time"),
                pro,
            );
            Ok(SearchPlan::One(Provider::Anspire, call))
        },
    }
}

/// The Jina search that the arguments describe.
pub open spec fn jina_search_plan(a: JsonView) -> Result<PlanView, Seq<char>> {
    match query_of(a) {
        Err(e) => Err(e),
        Ok(query) => Ok(
            PlanView::One(
                Provider::Jina,
                jina_search_of(
                    query,
                    within(u32_of(a, "limit"@, 5) as int, 20) as u32,
                    bool_of(a, "with_content"@, false),
                    None,
                ),
            ),
        ),
    }
}

fn plan_jina_search(a: &Json) -> (r: Result<SearchPlan, String>)
    ensures
        plan_view(r) == jina_search_plan(a@),
{
    match require_query(a) {
        Err(e) => Err(e),
        Ok(query) => {
            let call = jina_search(
                query.as_str(),
                clamp(u32_arg(a, "limit", 5), 20),
                bool_arg(a, "with_content", false),
                None,
            );
            Ok(SearchPlan::One(Provider::Jina, call))
        },
    }
}

/// The Jina search on one site that the arguments describe.
pub open spec fn jina_site_search_plan(a: JsonView) -> Result<PlanView, Seq<char>> {
    match query_of(a) {
        Err(e) => Err(e),
        Ok(query) => match a.text_at("site"@) {
            None => Err("missing 'site'"@),
            Some(site) => Ok(
                PlanView::One(
                    Provider::Jina,
                    jina_search_of(
                        query,
                        within(u32_of(a, "limit"@, 5) as int, 20) as u32,
                        bool_of(a, "with_content"@, false),
                        Some(site),
                    ),
                ),
            ),
        },
    }
}

fn plan_jina_site_search(a: &Json) -> (r: Result<SearchPlan, String>)
    ensures
        plan_view(r) == jina_site_search_plan(a@),
{
    match require_query(a) {
        Err(e) => Err(e),
        Ok(query) => match a.text_at("site") {
            None => Err("missing 'site'".to_string()),
            Some(site) => {
                let call = jina_search(
                    query.as_str(),
                    clamp(u32_arg(a, "limit", 5), 20),
                    bool_arg(a, "with_content", false),
                    Some(site),
                );
                Ok(SearchPlan::One(Provider::Jina, call))
            },
        },
    }
}

/// What a call asks for, by its action.
pub open spec fn action_plan(action: Seq<char>, a: JsonView) -> Result<PlanView, Seq<char>> {
    if action == "search"@ {
        broad_of(a)
    } else if action == "metaso_search"@ {
        metaso_search_plan(a)
    } else if action == "metaso_chat"@ {
        metaso_chat_plan(a)
    } else if action == "bocha_search"@ {
        bocha_search_plan(a)
    } else if action == "anspire_search"@ {
        anspire_search_plan(a, false)
    } else if action == "anspire_prosearch"@ {
        anspire_search_plan(a, true)
    } else if action == "jina_search"@ {
        jina_search_plan(a)
    } else if action == "jina_site_search"@ {
        jina_site_search_plan(a)
    } else {
        Err("unknown action: "@ + action)
    }
}

/// What a call asks for; without any key there is no call.
pub open spec fn plan_of(accounts: bool, a: JsonView) -> Result<PlanView, Seq<char>> {
    if !accounts {
        Err(
            "No cn search accounts configured. Set tools.web.cn_search or env METASO_API_KEY / BOCHA_API_KEY / ANSPIRE_API_KEY / JINA_API_KEY."@,
        )
    } else {
        action_plan(text_or(a.text_at("action"@), "search"@), a)
    }
}

impl WebCnSearchTool {
    /// What a call of the tool asks for.
    pub fn plan(&self, args: &Json) -> (r: Result<SearchPlan, String>)
        ensures
            plan_view(r) == plan_of(self.any_accounts(), args@),
    {
        if !self.has_any_accounts() {
            return Err(
                "No cn search accounts configured. Set tools.web.cn_search or env METASO_API_KEY / BOCHA_API_KEY / ANSPIRE_API_KEY / JINA_API_KEY.".to_string(),
            );
        }
        let action = str_arg(args, "action", "search");
        let name = action.as_str();
        if text::str_eq(name, "search") {
            plan_search(args)
        } else if text::str_eq(name, "metaso_search") {
            plan_metaso_search(args)
        } else if text::str_eq(name, "metaso_chat") {
            plan_metaso_chat(args)
        } else if text::str_eq(name, "bocha_search") {
            plan_bocha_search(args)
        } else if text::str_eq(name, "anspire_search") {
            plan_anspire_search(args, false)
        } else if text::str_eq(name, "anspire_prosearch") {
            plan_anspire_search(args, true)
        } else if text::str_eq(name, "jina_search") {
            plan_jina_search(args)
        } else if text::str_eq(name, "jina_site_search") {
            plan_jina_site_search(args)
        } else {
            let mut out = "unknown action: ".to_string();
            out.append(name);
            Err(out)
        }
    }

    /// The keys of a provider.
    pub open spec fn keys_of(self, provider: Provider) -> Seq<(Seq<char>, Seq<char>)> {
        match provider {
            Provider::Metaso => self.metaso.keys(),
            Provider::Bocha => self.bocha.keys(),
            Provider::Anspire => self.anspire.keys(),
            Provider::Jina => self.jina.keys(),
        }
    }

    /// The key pool of a provider.
    pub fn pool(&self, provider: Provider) -> (r: &AccountPool)
        ensures
            r.keys() == self.keys_of(provider),
    {
        match provider {
            Provider::Metaso => &self.metaso,
            Provider::Bocha => &self.bocha,
            Provider::Anspire => &self.anspire,
            Provider::Jina => &self.jina,
        }
    }

    /// What to do next about a provider, given the replies so far. Jina is asked once, with the key
    /// whose turn it is, and the turn passes on with the first call; the others are asked with one
    /// key after the other for as long as they answer that they have too much to do.
    pub fn attempt(&mut self, provider: Provider, replies: &Vec<Reply>) -> (r: ProviderStep)
        ensures
            r@ == (if provider == Provider::Jina {
                one_key(provider.label(), old(self).jina.in_turn(), first_of(replies@))
            } else {
                key_by_key(provider.label(), old(self).keys_of(provider), replies@, 0)
            }),
            provider == Provider::Jina && replies@.len() == 0 ==> {
                &&& final(self).jina.keys() == old(self).jina.keys()
                &&& final(self).jina.handed_out() == old(self).jina.handed_out_next()
                &&& *final(self) == (WebCnSearchTool { jina: final(self).jina, ..*old(self) })
            },
            provider != Provider::Jina || replies@.len() > 0 ==> *final(self) == *old(self),
    {
        if provider != Provider::Jina {
            return next_attempt(provider, self.pool(provider), replies);
        }
        if replies.len() == 0 {
            let key = self.jina.next_key();
            return only_attempt(provider, &key, &None);
        }
        if self.jina.is_empty() {
            only_attempt(provider, &None, &None)
        } else {
            ProviderStep::Done(settle(provider.name(), &replies[0]))
        }
    }

    /// The requests of a search over all providers, one for each that has a key.
    pub open spec fn broad_calls(self, b: BroadView) -> Seq<(Provider, CallView)> {
        let metaso = if self.metaso.keys().len() > 0 {
            seq![
                (
                    Provider::Metaso,
                    metaso_search_of(b.query, b.per, "webpage"@, true, false, true),
                ),
            ]
        } else {
            Seq::empty()
        };
        let bocha = if self.bocha.keys().len() > 0 {
            metaso.push(
                (
                    Provider::Bocha,
                    bocha_search_of(
                        b.query,
                        text_or(b.freshness, "noLimit"@),
                        true,
                        b.site,
                        None,
                    ),
                ),
            )
        } else {
            metaso
        };
        let anspire = if self.anspire.keys().len() > 0 {
            bocha.push(
                (
                    Provider::Anspire,
                    anspire_search_of(b.query, b.per, b.site, None, None, false),
                ),
            )
        } else {
            bocha
        };
        if self.jina.keys().len() > 0 {
            anspire.push((Provider::Jina, jina_search_of(b.query, b.per, false, b.site)))
        } else {
            anspire
        }
    }

    /// The requests of a search over all providers, one for each that has a key.
    pub fn multi_search(&self, b: &BroadSearch) -> (r: Vec<(Provider, HttpCall)>)
        ensures
            call_views(r@) == self.broad_calls(b@),
    {
        let site = channel::opt_str(&b.site);
        let freshness = match &b.freshness {
            Some(f) => f.as_str(),
            None => "noLimit",
        };
        let mut out: Vec<(Provider, HttpCall)> = Vec::new();
        assert(call_views(out@) =~= Seq::empty());
        if !self.metaso.is_empty() {
            push_call(
                &mut out,
                Provider::Metaso,
                metaso_search(b.query.as_str(), b.per, "webpage", true, false, true),
            );
            assert(call_views(out@) =~= seq![
                (
                    Provider::Metaso,
                    metaso_search_of(b@.query, b.per, "webpage"@, true, false, true),
                ),
            ]);
        }
        if !self.bocha.is_empty() {
            push_call(
                &mut out,
                Provider::Bocha,
                bocha_search(b.query.as_str(), freshness, true, site, None),
            );
        }
        if !self.anspire.is_empty() {
            push_call(
                &mut out,
                Provider::Anspire,
                anspire_search(b.query.as_str(), b.per, site, None, None, false),
            );
        }
        if !self.jina.is_empty() {
            push_call(
                &mut out,
                Provider::Jina,
                jina_search(b.query.as_str(), b.per, false, site),
            );
        }
        out
    }
}

/// What a list of requests to providers holds.
pub open spec fn call_views(calls: Seq<(Provider, HttpCall)>) -> Seq<(Provider, CallView)> {
    calls.map_values(|c: (Provider, HttpCall)| (c.0, c.1@))
}

fn push_call(calls: &mut Vec<(Provider, HttpCall)>, provider: Provider, call: HttpCall)
    ensures
        call_views(final(calls)@) == call_views(old(calls)@).push((provider, call@)),
{
    let c = (provider, call);
    calls.push(c);
    assert(call_views(calls@) =~= call_views(old(calls)@).push((c.0, c.1@)));
}


// ---- results ----

/// The first text that is there.
pub open spec fn first_text(a: Option<Seq<char>>, b: Option<Seq<char>>) -> Option<Seq<char>> {
    match a {
        Some(x) => Some(x),
        None => b,
    }
}

fn first_given<'a>(a: Option<&'a str>, b: Option<&'a str>) -> (r: Option<&'a str>)
    ensures
        json::text_view(r) == first_text(json::text_view(a), json::text_view(b)),
{
    match a {
        Some(x) => Some(x),
        None => b,
    }
}

fn given_or_empty(a: Option<&str>) -> (r: String)
    ensures
        r@ == text_or(json::text_view(a), Seq::empty()),
{
    match a {
        Some(x) => x.to_string(),
        None => {
            let s = String::new();
            assert(s@ =~= Seq::empty());
            s
        },
    }
}

/// The result in an item of a list called `data`, if it has a title and a URL.
pub open spec fn data_row(item: JsonView) -> Option<ResultView> {
    match (item.text_at("title"@), item.text_at("url"@)) {
        (Some(title), Some(url)) => Some(
            ResultView {
                title,
                url,
                snippet: text_or(
                    first_text(
                        first_text(item.text_at("snippet"@), item.text_at("description"@)),
                        item.text_at("content"@),
                    ),
                    Seq::empty(),
                ),
                source: text_or(item.text_at("source"@), Seq::empty()),
                time: text_or(
                    first_text(item.text_at("time"@), item.text_at("publishedTime"@)),
                    Seq::empty(),
                ),
            },
        ),
        _ => None,
    }
}

/// The result in an item of a list called `results`, if it has a title and a URL.
pub open spec fn result_row(item: JsonView) -> Option<ResultView> {
    match (item.text_at("title"@), item.text_at("url"@)) {
        (Some(title), Some(url)) => Some(
            ResultView {
                title,
                url,
                snippet: text_or(
                    first_text(item.text_at("snippet"@), item.text_at("desc"@)),
                    Seq::empty(),
                ),
                source: text_or(item.text_at("source"@), Seq::empty()),
                time: text_or(item.text_at("time"@), Seq::empty()),
            },
        ),
        _ => None,
    }
}

/// The result in an item of either kind of list.
pub open spec fn row(item: JsonView, data: bool) -> Option<ResultView> {
    if data {
        data_row(item)
    } else {
        result_row(item)
    }
}

/// The result in an option.
pub open spec fn row_view(r: Option<SearchResult>) -> Option<ResultView> {
    match r {
        Some(x) => Some(x@),
        None => None,
    }
}

fn read_row(item: &Json, data: bool) -> (r: Option<SearchResult>)
    ensures
        row_view(r) == row(item@, data),
{
    match (item.text_at("title"), item.text_at("url")) {
        (Some(title), Some(url)) => {
            let snippet = if data {
                first_given(
                    first_given(item.text_at("snippet"), item.text_at("description")),
                    item.text_at("content"),
                )
            } else {
                first_given(item.text_at("snippet"), item.text_at("desc"))
            };
            let time = if data {
                first_given(item.text_at("time"), item.text_at("publishedTime"))
            } else {
                item.text_at("time")
            };
            Some(
                SearchResult {
                    title: title.to_string(),
                    url: url.to_string(),
                    snippet: given_or_empty(snippet),
                    source: given_or_empty(item.text_at("source")),
                    time: given_or_empty(time),
                },
            )
        },
        _ => None,
    }
}

/// The results in the items of a list, in order.
pub open spec fn rows(items: Seq<JsonView>, data: bool) -> Seq<ResultView>
    decreases items.len(),
{
    if items.len() == 0 {
        Seq::empty()
    } else {
        let before = rows(items.drop_last(), data);
        match row(items.last(), data) {
            Some(r) => before.push(r),
            None => before,
        }
    }
}

/// The results in a document: those of its list `data`, and after them those of its list
/// `results`.
pub open spec fn results_in(j: JsonView) -> Seq<ResultView> {
    let data = match j.items_at("data"@) {
        Some(items) => rows(items, true),
        None => Seq::empty(),
    };
    let more = match j.items_at("results"@) {
        Some(items) => rows(items, false),
        None => Seq::empty(),
    };
    data + more
}

fn push_rows(out: &mut Vec<SearchResult>, items: &Vec<Json>, data: bool)
    ensures
        ranking::result_views(final(out)@) == ranking::result_views(old(out)@) + rows(
            json::views(items@),
            data,
        ),
{
    let ghost before = ranking::result_views(out@);
    let ghost all = json::views(items@);
    let mut i: usize = 0;
    assert(before + rows(all.take(0), data) =~= before);
    while i < items.len()
        invariant
            i <= items@.len(),
            all == json::views(items@),
            ranking::result_views(out@) == before + rows(all.take(i as int), data),
        decreases items@.len() - i,
    {
        assert(all.take(i + 1).drop_last() =~= all.take(i as int));
        assert(all.take(i + 1).last() == items@[i as int]@);
        let ghost prior = out@;
        match read_row(&items[i], data) {
            Some(r) => {
                out.push(r);
                assert(ranking::result_views(out@) =~= ranking::result_views(prior).push(r@));
                assert(before + rows(all.take(i + 1), data) =~= (before + rows(
                    all.take(i as int),
                    data,
                )).push(r@));
            },
            None => {},
        }
        i += 1;
    }
    assert(all.take(i as int) =~= all);
}

/// The results in a document.
pub fn parse_results(val: &Json) -> (r: Vec<SearchResult>)
    ensures
        ranking::result_views(r@) == results_in(val@),
{
    let mut out: Vec<SearchResult> = Vec::new();
    push_results(&mut out, val);
    assert(ranking::result_views(out@) =~= results_in(val@));
    out
}

fn push_results(out: &mut Vec<SearchResult>, val: &Json)
    ensures
        ranking::result_views(final(out)@) == ranking::result_views(old(out)@) + results_in(val@),
{
    let ghost before = ranking::result_views(out@);
    match val.items_at("data") {
        Some(items) => push_rows(out, items, true),
        None => {},
    }
    match val.items_at("results") {
        Some(items) => push_rows(out, items, false),
        None => {},
    }
    assert(ranking::result_views(out@) =~= before + results_in(val@));
}

/// What came of a request to a provider.
pub open spec fn outcome_views(outcomes: Seq<Result<Json, String>>) -> Seq<
    Result<JsonView, Seq<char>>,
> {
    outcomes.map_values(|r: Result<Json, String>| json::outcome_view(r))
}

/// The results of all providers, one provider after the other.
pub open spec fn all_results(outcomes: Seq<Result<JsonView, Seq<char>>>) -> Seq<ResultView>
    decreases outcomes.len(),
{
    if outcomes.len() == 0 {
        Seq::empty()
    } else {
        match outcomes.last() {
            Ok(j) => all_results(outcomes.drop_last()) + results_in(j),
            Err(_) => all_results(outcomes.drop_last()),
        }
    }
}

/// The messages of the providers that failed.
pub open spec fn all_errors(outcomes: Seq<Result<JsonView, Seq<char>>>) -> Seq<Seq<char>>
    decreases outcomes.len(),
{
    if outcomes.len() == 0 {
        Seq::empty()
    } else {
        match outcomes.last() {
            Ok(_) => all_errors(outcomes.drop_last()),
            Err(e) => all_errors(outcomes.drop_last()).push(e),
        }
    }
}

/// The results of all providers and the messages of those that failed.
pub fn merge_outcomes(outcomes: &Vec<Result<Json, String>>) -> (r: (Vec<SearchResult>, Vec<String>))
    ensures
        ranking::result_views(r.0@) == all_results(outcome_views(outcomes@)),
        text::views(r.1@) == all_errors(outcome_views(outcomes@)),
{
    let ghost all = outcome_views(outcomes@);
    let mut results: Vec<SearchResult> = Vec::new();
    let mut errors: Vec<String> = Vec::new();
    let mut i: usize = 0;
    assert(ranking::result_views(results@) =~= all_results(all.take(0)));
    assert(text::views(errors@) =~= all_errors(all.take(0)));
    while i < outcomes.len()
        invariant
            i <= outcomes@.len(),
            all == outcome_views(outcomes@),
            ranking::result_views(results@) == all_results(all.take(i as int)),
            text::views(errors@) == all_errors(all.take(i as int)),
        decreases outcomes@.len() - i,
    {
        assert(all.take(i + 1).drop_last() =~= all.take(i as int));
        assert(all.take(i + 1).last() == json::outcome_view(outcomes@[i as int]));
        match &outcomes[i] {
            Ok(j) => push_results(&mut results, j),
            Err(e) => {
                let ghost prior = errors@;
                errors.push(e.clone());
                assert(text::views(errors@) =~= text::views(prior).push(e@));
            },
        }
        i += 1;
    }
    assert(all.take(i as int) =~= all);
    (results, errors)
}

/// A result as JSON.
pub open spec fn result_value(r: ResultView) -> JsonView {
    JsonView::Object(
        seq![
            ("title"@, JsonView::Text(r.title)),
            ("url"@, JsonView::Text(r.url)),
            ("snippet"@, JsonView::Text(r.snippet)),
            ("source"@, JsonView::Text(r.source)),
            ("time"@, JsonView::Text(r.time)),
        ],
    )
}

/// Results as JSON.
pub open spec fn result_values(results: Seq<ResultView>) -> Seq<JsonView> {
    results.map_values(|r: ResultView| result_value(r))
}

fn result_json(r: &SearchResult) -> (j: Json)
    ensures
        j@ == result_value(r@),
{
    let mut out: Vec<(String, Json)> = Vec::new();
    requests::push_member(&mut out, "title", Json::of_text(r.title.as_str()));
    requests::push_member(&mut out, "url", Json::of_text(r.url.as_str()));
    requests::push_member(&mut out, "snippet", Json::of_text(r.snippet.as_str()));
    requests::push_member(&mut out, "source", Json::of_text(r.source.as_str()));
    requests::push_member(&mut out, "time", Json::of_text(r.time.as_str()));
    assert(json::member_views(out@) =~= seq![
        ("title"@, JsonView::Text(r@.title)),
        ("url"@, JsonView::Text(r@.url)),
        ("snippet"@, JsonView::Text(r@.snippet)),
        ("source"@, JsonView::Text(r@.source)),
        ("time"@, JsonView::Text(r@.time)),
    ]);
    Json::of_members(out)
}

/// Results as JSON.
pub fn results_to_json(results: &Vec<SearchResult>) -> (r: Vec<Json>)
    ensures
        json::views(r@) == result_values(ranking::result_views(results@)),
{
    let mut out: Vec<Json> = Vec::new();
    let mut i: usize = 0;
    while i < results.len()
        invariant
            i <= results@.len(),
            out@.len() == i,
            forall|k: int| 0 <= k < i ==> (#[trigger] out@[k])@ == result_value(results@[k]@),
        decreases results@.len() - i,
    {
        out.push(result_json(&results[i]));
        i += 1;
    }
    assert(json::views(out@) =~= result_values(ranking::result_views(results@)));
    out
}

/// The report of a search over all providers: the query, how many results, the results and the
/// messages of the providers that failed. Without results a note says so.
pub open spec fn search_report(
    query: Seq<char>,
    best: Seq<ResultView>,
    errors: Seq<Seq<char>>,
) -> JsonView {
    let base = seq![
        ("query"@, JsonView::Text(query)),
        ("count"@, json::number_value(best.len() as u64)),
        ("results"@, JsonView::Array(result_values(best))),
        ("errors"@, JsonView::Array(json::text_values(errors))),
    ];
    if best.len() == 0 {
        JsonView::Object(base.push(("note"@, JsonView::Text("No results for: "@ + query))))
    } else {
        JsonView::Object(base)
    }
}

/// The report of a search over all providers.
pub fn report(query: &str, best: &Vec<SearchResult>, errors: &Vec<String>) -> (r: Json)
    ensures
        r@ == search_report(query@, ranking::result_views(best@), text::views(errors@)),
{
    let mut out: Vec<(String, Json)> = Vec::new();
    requests::push_member(&mut out, "query", Json::of_text(query));
    requests::push_member(&mut out, "count", Json::of_number(best.len() as u64));
    requests::push_member(&mut out, "results", Json::of_items(results_to_json(best)));
    requests::push_member(&mut out, "errors", Json::of_texts(errors));
    assert(json::member_views(out@) =~= seq![
        ("query"@, JsonView::Text(query@)),
        ("count"@, json::number_value(best@.len() as u64)),
        ("results"@, JsonView::Array(result_values(ranking::result_views(best@)))),
        ("errors"@, JsonView::Array(json::text_values(text::views(errors@)))),
    ]);
    if best.len() == 0 {
        let mut note = "No results for: ".to_string();
        note.append(query);
        requests::push_member(&mut out, "note", Json::of_text(note.as_str()));
    }
    Json::of_members(out)
}

/// Whether a report shows the best of what the providers found and the messages of those that
/// failed.
pub open spec fn is_report(
    query: Seq<char>,
    limit: nat,
    outcomes: Seq<Result<JsonView, Seq<char>>>,
    r: JsonView,
) -> bool {
    exists|best: Seq<ResultView>|
        #[trigger] ranking::are_best(
            all_results(outcomes),
            ranking::scores_of(query, all_results(outcomes)),
            limit,
            best,
        ) && r == search_report(query, best, all_errors(outcomes))
}

/// The end of a search over all providers: what they found is ranked and reported.
pub fn finish_search(b: &BroadSearch, outcomes: &Vec<Result<Json, String>>) -> (r: Json)
    ensures
        is_report(b@.query, b@.limit as nat, outcome_views(outcomes@), r@),
{
    let (results, errors) = merge_outcomes(outcomes);
    let best = ranking::rerank(&results, b.query.as_str(), b.limit);
    report(b.query.as_str(), &best, &errors)
}

/// A provider that fails takes away nothing of what the others found, and a provider that finds
/// something takes away no message of the others.
pub proof fn law_failure_apart(outcomes: Seq<Result<JsonView, Seq<char>>>, i: int)
    requires
        0 <= i < outcomes.len(),
    ensures
        outcomes[i] is Err ==> all_results(outcomes.remove(i)) == all_results(outcomes),
        outcomes[i] is Ok ==> all_errors(outcomes.remove(i)) == all_errors(outcomes),
    decreases outcomes.len(),
{
    let rest = outcomes.remove(i);
    if i == outcomes.len() - 1 {
        assert(rest =~= outcomes.drop_last());
    } else {
        law_failure_apart(outcomes.drop_last(), i);
        assert(rest.drop_last() =~= outcomes.drop_last().remove(i));
        assert(rest.last() == outcomes.last());
    }
}

/// One search has one report only.
pub proof fn law_one_report(
    query: Seq<char>,
    limit: nat,
    outcomes: Seq<Result<JsonView, Seq<char>>>,
    r: JsonView,
    t: JsonView,
)
    requires
        is_report(query, limit, outcomes, r),
        is_report(query, limit, outcomes, t),
    ensures
        r == t,
{
    let found = all_results(outcomes);
    let scores = ranking::scores_of(query, found);
    let a = choose|best: Seq<ResultView>|
        #[trigger] ranking::are_best(found, scores, limit, best) && r == search_report(
            query,
            best,
            all_errors(outcomes),
        );
    let b = choose|best: Seq<ResultView>|
        #[trigger] ranking::are_best(found, scores, limit, best) && t == search_report(
            query,
            best,
            all_errors(outcomes),
        );
    let x = choose|order: Seq<int>|
        #[trigger] ranking::is_ranking(scores, order) && a == ranking::picked(
            found,
            ranking::first_of(order, limit),
        );
    let y = choose|order: Seq<int>|
        #[trigger] ranking::is_ranking(scores, order) && b == ranking::picked(
            found,
            ranking::first_of(order, limit),
        );
    ranking::law_one_ranking(scores, x, y);
}

// ---- the parameters ----

/// The description of a parameter: its type, what it is for, the values that it can have, if they
/// are listed, and its default, if it has one.
pub open spec fn value_schema(
    kind: Seq<char>,
    description: Seq<char>,
    choices: Seq<Seq<char>>,
    default: Option<JsonView>,
) -> JsonView {
    let base = seq![
        ("type"@, JsonView::Text(kind)),
        ("description"@, JsonView::Text(description)),
    ];
    let listed = if choices.len() > 0 {
        base.push(("enum"@, JsonView::Array(json::text_values(choices))))
    } else {
        base
    };
    match default {
        Some(d) => JsonView::Object(listed.push(("default"@, d))),
        None => JsonView::Object(listed),
    }
}

/// What a JSON value in an option holds.
pub open spec fn value_view(j: Option<Json>) -> Option<JsonView> {
    match j {
        Some(v) => Some(v@),
        None => None,
    }
}

/// The description of a parameter.
pub fn value_parameter(
    kind: &str,
    description: &str,
    choices: &Vec<String>,
    default: Option<Json>,
) -> (r: Json)
    ensures
        r@ == value_schema(kind@, description@, text::views(choices@), value_view(default)),
{
    let mut out: Vec<(String, Json)> = Vec::new();
    requests::push_member(&mut out, "type", Json::of_text(kind));
    requests::push_member(&mut out, "description", Json::of_text(description));
    assert(json::member_views(out@) =~= seq![
        ("type"@, JsonView::Text(kind@)),
        ("description"@, JsonView::Text(description@)),
    ]);
    if choices.len() > 0 {
        requests::push_member(&mut out, "enum", Json::of_texts(choices));
    }
    match default {
        Some(d) => requests::push_member(&mut out, "default", d),
        None => {},
    }
    Json::of_members(out)
}

/// The description of a parameter that is a list of objects.
pub open spec fn array_schema(description: Seq<char>) -> JsonView {
    JsonView::Object(
        seq![
            ("type"@, JsonView::Text("array"@)),
            ("description"@, JsonView::Text(description)),
            ("items"@, JsonView::Object(seq![("type"@, JsonView::Text("object"@))])),
        ],
    )
}

fn array_parameter(description: &str) -> (r: Json)
    ensures
        r@ == array_schema(description@),
{
    let mut item: Vec<(String, Json)> = Vec::new();
    requests::push_member(&mut item, "type", Json::of_text("object"));
    assert(json::member_views(item@) =~= seq![("type"@, JsonView::Text("object"@))]);
    let mut out: Vec<(String, Json)> = Vec::new();
    requests::push_member(&mut out, "type", Json::of_text("array"));
    requests::push_member(&mut out, "description", Json::of_text(description));
    requests::push_member(&mut out, "items", Json::of_members(item));
    assert(json::member_views(out@) =~= seq![
        ("type"@, JsonView::Text("array"@)),
        ("description"@, JsonView::Text(description@)),
        ("items"@, JsonView::Object(seq![("type"@, JsonView::Text("object"@))])),
    ]);
    Json::of_members(out)
}

/// The parameters of every search and those of Metaso.
pub open spec fn first_parameters() -> Seq<(Seq<char>, JsonView)> {
    seq![
        (
            "action"@,
            value_schema("string"@, "Which capability to invoke. Default: 'search'."@, seq!["search"@, "metaso_search"@, "metaso_chat"@, "bocha_search"@, "anspire_search"@, "anspire_prosearch"@, "jina_search"@, "jina_site_search"@], Some(JsonView::Text("search"@))),
        ),
        (
            "query"@,
            value_schema("string"@, "Search query or question."@, Seq::empty(), None),
        ),
        (
            "limit"@,
            value_schema("integer"@, "Max results to return (1-50, default 5)."@, Seq::empty(), Some(json::number_value(5))),
        ),
        (
            "site"@,
            value_schema("string"@, "Restrict results to this domain (e.g. 'jyj.beijing.gov.cn')."@, Seq::empty(), None),
        ),
        (
            "scope"@,
            value_schema("string"@, "Metaso search scope."@, seq!["webpage"@, "document"@, "paper"@, "image"@, "video"@, "podcast"@], Some(JsonView::Text("webpage"@))),
        ),
        (
            "include_summary"@,
            value_schema("boolean"@, "Metaso: include snippet summaries. Default true."@, Seq::empty(), Some(JsonView::Bool(true))),
        ),
        (
            "include_raw_content"@,
            value_schema("boolean"@, "Metaso: include full raw page content. Default false."@, Seq::empty(), Some(JsonView::Bool(false))),
        ),
        ("messages"@, array_schema("Chat messages for metaso_chat."@)),
    ]
}

/// The parameters of the chat and of the other providers.
pub open spec fn last_parameters() -> Seq<(Seq<char>, JsonView)> {
    seq![
        (
            "model"@,
            value_schema("string"@, "Metaso chat model."@, seq!["fast"@, "fast_thinking"@, "ds-r1"@], Some(JsonView::Text("fast"@))),
        ),
        (
            "chat_format"@,
            value_schema("string"@, "Metaso chat output format."@, seq!["chat_completions"@, "simple"@], Some(JsonView::Text("chat_completions"@))),
        ),
        (
            "freshness"@,
            value_schema("string"@, "Bocha time filter: noLimit|oneDay|oneWeek|oneMonth|oneYear|YYYY-MM-DD..YYYY-MM-DD"@, Seq::empty(), Some(JsonView::Text("noLimit"@))),
        ),
        (
            "bocha_summary"@,
            value_schema("boolean"@, "Bocha: include AI summaries. Default true."@, Seq::empty(), Some(JsonView::Bool(true))),
        ),
        (
            "include_domains"@,
            value_schema("string"@, "Bocha domain allowlist, pipe-separated (e.g. 'gov.cn|edu.cn')."@, Seq::empty(), None),
        ),
        (
            "exclude_domains"@,
            value_schema("string"@, "Bocha domain blocklist, pipe-separated."@, Seq::empty(), None),
        ),
        (
            "from_time"@,
            value_schema("string"@, "Anspire start time filter (YYYY-MM-DD HH:MM:SS)."@, Seq::empty(), None),
        ),
        (
            "to_time"@,
            value_schema("string"@, "Anspire end time filter (YYYY-MM-DD HH:MM:SS)."@, Seq::empty(), None),
        ),
        (
            "with_content"@,
            value_schema("boolean"@, "Jina: include full page content in results. Default false."@, Seq::empty(), Some(JsonView::Bool(false))),
        ),
    ]
}

fn push_first_parameters(out: &mut Vec<(String, Json)>)
    ensures
        json::member_views(final(out)@) == json::member_views(old(out)@) + first_parameters(),
{
    let none: Vec<String> = Vec::new();
    assert(text::views(none@) =~= Seq::empty());
    let ghost before = json::member_views(out@);
    let mut choices: Vec<String> = Vec::new();
    text::push_line(&mut choices, "search".to_string());
    text::push_line(&mut choices, "metaso_search".to_string());
    text::push_line(&mut choices, "metaso_chat".to_string());
    text::push_line(&mut choices, "bocha_search".to_string());
    text::push_line(&mut choices, "anspire_search".to_string());
    text::push_line(&mut choices, "anspire_prosearch".to_string());
    text::push_line(&mut choices, "jina_search".to_string());
    text::push_line(&mut choices, "jina_site_search".to_string());
    assert(text::views(choices@) =~= seq!["search"@, "metaso_search"@, "metaso_chat"@, "bocha_search"@, "anspire_search"@, "anspire_prosearch"@, "jina_search"@, "jina_site_search"@]);
    requests::push_member(
        out,
        "action",
        value_parameter("string", "Which capability to invoke. Default: 'search'.", &choices, Some(Json::of_text("search"))),
    );
    requests::push_member(
        out,
        "query",
        value_parameter("string", "Search query or question.", &none, None),
    );
    requests::push_member(
        out,
        "limit",
        value_parameter("integer", "Max results to return (1-50, default 5).", &none, Some(Json::of_number(5))),
    );
    requests::push_member(
        out,
        "site",
        value_parameter("string", "Restrict results to this domain (e.g. 'jyj.beijing.gov.cn').", &none, None),
    );
    let mut choices: Vec<String> = Vec::new();
    text::push_line(&mut choices, "webpage".to_string());
    text::push_line(&mut choices, "document".to_string());
    text::push_line(&mut choices, "paper".to_string());
    text::push_line(&mut choices, "image".to_string());
    text::push_line(&mut choices, "video".to_string());
    text::push_line(&mut choices, "podcast".to_string());
    assert(text::views(choices@) =~= seq!["webpage"@, "document"@, "paper"@, "image"@, "video"@, "podcast"@]);
    requests::push_member(
        out,
        "scope",
        value_parameter("string", "Metaso search scope.", &choices, Some(Json::of_text("webpage"))),
    );
    requests::push_member(
        out,
        "include_summary",
        value_parameter("boolean", "Metaso: include snippet summaries. Default true.", &none, Some(Json::Bool(true))),
    );
    requests::push_member(
        out,
        "include_raw_content",
        value_parameter("boolean", "Metaso: include full raw page content. Default false.", &none, Some(Json::Bool(false))),
    );
    requests::push_member(out, "messages", array_parameter("Chat messages for metaso_chat."));
    assert(json::member_views(out@) =~= before + first_parameters());
}

fn push_last_parameters(out: &mut Vec<(String, Json)>)
    ensures
        json::member_views(final(out)@) == json::member_views(old(out)@) + last_parameters(),
{
    let none: Vec<String> = Vec::new();
    assert(text::views(none@) =~= Seq::empty());
    let ghost before = json::member_views(out@);
    let mut choices: Vec<String> = Vec::new();
    text::push_line(&mut choices, "fast".to_string());
    text::push_line(&mut choices, "fast_thinking".to_string());
    text::push_line(&mut choices, "ds-r1".to_string());
    assert(text::views(choices@) =~= seq!["fast"@, "fast_thinking"@, "ds-r1"@]);
    requests::push_member(
        out,
        "model",
        value_parameter("string", "Metaso chat model.", &choices, Some(Json::of_text("fast"))),
    );
    let mut choices: Vec<String> = Vec::new();
    text::push_line(&mut choices, "chat_completions".to_string());
    text::push_line(&mut choices, "simple".to_string());
    assert(text::views(choices@) =~= seq!["chat_completions"@, "simple"@]);
    requests::push_member(
        out,
        "chat_format",
        value_parameter("string", "Metaso chat output format.", &choices, Some(Json::of_text("chat_completions"))),
    );
    requests::push_member(
        out,
        "freshness",
        value_parameter("string", "Bocha time filter: noLimit|oneDay|oneWeek|oneMonth|oneYear|YYYY-MM-DD..YYYY-MM-DD", &none, Some(Json::of_text("noLimit"))),
    );
    requests::push_member(
        out,
        "bocha_summary",
        value_parameter("boolean", "Bocha: include AI summaries. Default true.", &none, Some(Json::Bool(true))),
    );
    requests::push_member(
        out,
        "include_domains",
        value_parameter("string", "Bocha domain allowlist, pipe-separated (e.g. 'gov.cn|edu.cn').", &none, None),
    );
    requests::push_member(
        out,
        "exclude_domains",
        value_parameter("string", "Bocha domain blocklist, pipe-separated.", &none, None),
    );
    requests::push_member(
        out,
        "from_time",
        value_parameter("string", "Anspire start time filter (YYYY-MM-DD HH:MM:SS).", &none, None),
    );
    requests::push_member(
        out,
        "to_time",
        value_parameter("string", "Anspire end time filter (YYYY-MM-DD HH:MM:SS).", &none, None),
    );
    requests::push_member(
        out,
        "with_content",
        value_parameter("boolean", "Jina: include full page content in results. Default false.", &none, Some(Json::Bool(false))),
    );
    assert(json::member_views(out@) =~= before + last_parameters());
}

/// The description of the parameters, none of which is required.
pub open spec fn search_schema() -> JsonView {
    JsonView::Object(
        seq![
            ("type"@, JsonView::Text("object"@)),
            ("properties"@, JsonView::Object(first_parameters() + last_parameters())),
            ("required"@, JsonView::Array(Seq::empty())),
        ],
    )
}

impl WebCnSearchTool {
    /// The description of the parameters.
    pub fn parameters_schema(&self) -> (r: Json)
        ensures
            r@ == search_schema(),
    {
        let mut properties: Vec<(String, Json)> = Vec::new();
        push_first_parameters(&mut properties);
        push_last_parameters(&mut properties);
        assert(json::member_views(properties@) =~= first_parameters() + last_parameters());
        let required: Vec<Json> = Vec::new();
        assert(json::views(required@) =~= Seq::empty());
        let mut out: Vec<(String, Json)> = Vec::new();
        requests::push_member(&mut out, "type", Json::of_text("object"));
        requests::push_member(&mut out, "properties", Json::of_members(properties));
        requests::push_member(&mut out, "required", Json::of_items(required));
        assert(json::member_views(out@) =~= seq![
            ("type"@, JsonView::Text("object"@)),
            ("properties"@, JsonView::Object(first_parameters() + last_parameters())),
            ("required"@, JsonView::Array(Seq::empty())),
        ]);
        Json::of_members(out)
    }
}

} // verus!
