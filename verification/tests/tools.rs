//! The web tools.

use moltis_feishu::json::{parse_text, Json};
use moltis_feishu::tools::accounts::{
    env_value_with_overrides, first_enabled_key, AccountPool, ApiKeyEntry, ApiKeyProviderConfig,
    Environment,
};
use moltis_feishu::tools::net::{is_blocked, is_private_ip, read_networks, IpAddress};
use moltis_feishu::tools::ranking::{
    count_hits, ranking, rerank, score, score_domain, score_domain_name, score_recency,
    score_title, take_best, url_domain, SearchResult,
};
use moltis_feishu::tools::requests::{truncate, HttpCall, Reply};
use moltis_feishu::tools::web_cn_search::{
    decode_json_response, finish_search, invalid_json, next_attempt, only_attempt, parse_results,
    BroadSearch, Provider, ProviderStep, SearchPlan, WebCnSearchConfig, WebCnSearchTool,
};
use moltis_feishu::tools::web_read::{
    crawl_content, fmt_result, metaso_content, read_params, read_reply, Backend, ReadAction,
    ReadAnswer, ReadReply, UrlParts, WebReadConfig, WebReadTool,
};

fn json(s: &str) -> Json {
    parse_text(s).unwrap()
}

fn no_env() -> Environment {
    Environment { process: vec![], overrides: vec![] }
}

fn env(name: &str, value: &str) -> Environment {
    Environment { process: vec![], overrides: vec![(name.to_string(), value.to_string())] }
}

fn key(name: &str, api_key: &str, enabled: bool) -> ApiKeyEntry {
    ApiKeyEntry { name: name.into(), api_key: api_key.into(), enabled }
}

fn provider(keys: Vec<ApiKeyEntry>) -> ApiKeyProviderConfig {
    ApiKeyProviderConfig { enabled: true, accounts: keys }
}

// ---- keys ----

#[test]
fn pools_keep_the_keys_that_can_be_used() {
    let mut pool =
        AccountPool::new(&vec![key("a", "k1", true), key("b", "  ", true), key("c", "k3", false), key("d", "k4", true)]);
    assert_eq!(pool.len(), 2);
    assert!(!pool.is_empty());
    let turns: Vec<String> = (0..5).map(|_| pool.next_key().unwrap()).collect();
    assert_eq!(turns, vec!["k1", "k4", "k1", "k4", "k1"]);
    assert_eq!(pool.key_at(3), Some("k4"));
    assert!(AccountPool::from_env("x", " ").is_empty());
    assert_eq!(AccountPool::from_env("x", "v").next_key().as_deref(), Some("v"));
    assert!(AccountPool::none().next_key().is_none());
}

#[test]
fn the_process_environment_comes_first() {
    let e = Environment {
        process: vec![("A".into(), "1".into())],
        overrides: vec![("A".into(), "2".into()), ("B".into(), "3".into())],
    };
    assert_eq!(env_value_with_overrides(&e, "A").as_deref(), Some("1"));
    assert_eq!(env_value_with_overrides(&e, "B").as_deref(), Some("3"));
    assert!(env_value_with_overrides(&e, "C").is_none());
}

#[test]
fn first_enabled_keys() {
    let mut p = provider(vec![key("a", " ", true), key("b", "k2", true)]);
    assert_eq!(first_enabled_key(&p), Some("k2"));
    p.enabled = false;
    assert_eq!(first_enabled_key(&p), None);
}

// ---- searching ----

#[test]
fn name_is_web_cn_search() {
    let mut cfg = WebCnSearchConfig::default();
    cfg.enabled = true;
    let tool = WebCnSearchTool::from_config_with_env_overrides(&cfg, &no_env()).unwrap();
    assert_eq!(tool.name(), "web_cn_search");
}

#[test]
fn schema_has_action() {
    let mut cfg = WebCnSearchConfig::default();
    cfg.enabled = true;
    let tool = WebCnSearchTool::from_config_with_env_overrides(&cfg, &no_env()).unwrap();
    let schema = tool.parameters_schema();
    assert!(matches!(
        schema.get("properties").unwrap().get("action").unwrap(),
        Json::Object(_)
    ));
}

#[test]
fn web_cn_search_warnings_include_missing_keys() {
    let mut cfg = WebCnSearchConfig::default();
    cfg.enabled = true;
    cfg.metaso.enabled = true;
    cfg.bocha.enabled = true;
    cfg.anspire.enabled = true;
    cfg.jina.enabled = true;
    let tool = WebCnSearchTool::from_config_with_env_overrides(&cfg, &no_env()).unwrap();
    let warnings = tool.warnings();
    assert!(warnings.iter().any(|w| w.contains("metaso")));
    assert!(warnings.iter().any(|w| w.contains("bocha")));
    assert!(warnings.iter().any(|w| w.contains("anspire")));
    assert!(warnings.iter().any(|w| w.contains("jina")));
}

#[test]
fn env_override_provides_missing_provider_key() {
    let mut cfg = WebCnSearchConfig::default();
    cfg.enabled = true;
    cfg.metaso.enabled = true;

    let tool = WebCnSearchTool::from_config_with_env_overrides(
        &cfg,
        &env("METASO_API_KEY", "env-key"),
    )
    .unwrap();

    assert!(tool.has_any_accounts());
    assert!(tool.warnings().iter().all(|w| !w.contains("metaso")));
}

fn search_tool() -> WebCnSearchTool {
    let mut cfg = WebCnSearchConfig::default();
    cfg.enabled = true;
    cfg.metaso = provider(vec![key("a", "m1", true), key("b", "m2", true)]);
    cfg.bocha = provider(vec![key("a", "b1", true)]);
    cfg.timeout_seconds = 9;
    WebCnSearchTool::from_config_with_env_overrides(&cfg, &env("JINA_API_KEY", "j1")).unwrap()
}

#[test]
fn a_tool_that_is_off_is_not_there() {
    assert!(WebCnSearchTool::from_config_with_env_overrides(&WebCnSearchConfig::default(), &no_env())
        .is_none());
    assert!(
        WebReadTool::from_config_with_env_overrides(&WebReadConfig::default(), &no_env()).is_none()
    );
}

#[test]
fn a_missing_key_blocks_no_other_provider() {
    let t = search_tool();
    assert!(t.warnings().is_empty());
    assert_eq!(t.metaso.len(), 2);
    assert!(t.anspire.is_empty());
    assert_eq!(t.jina.len(), 1);
    assert_eq!(t.timeout_secs, 9);
    assert!(t.description().starts_with("Chinese web search"));
}

#[test]
fn warnings_stand_beside_results() {
    let mut cfg = WebCnSearchConfig::default();
    cfg.enabled = true;
    let t = WebCnSearchTool::from_config_with_env_overrides(&cfg, &no_env()).unwrap();
    assert_eq!(t.warnings().len(), 1);
    let a = t.attach_warnings(json(r#"{"x":1}"#));
    assert_eq!(a.items_at("warnings").unwrap().len(), 1);
    assert!(a.get("x").is_some());
    let b = t.attach_warnings(json(r#"{"warnings":7}"#));
    assert_eq!(b.unsigned_at("warnings"), Some(7));
    let c = t.attach_warnings(json("[1]"));
    assert!(c.items_at("data").is_some());
    assert!(c.items_at("warnings").is_some());
    assert!(search_tool().attach_warnings(json("[1]")).as_array().is_some());
}

fn plan(args: &str) -> Result<SearchPlan, String> {
    search_tool().plan(&json(args))
}

fn one(args: &str) -> (Provider, HttpCall) {
    match plan(args).unwrap() {
        SearchPlan::One(p, c) => (p, c),
        other => panic!("{other:?}"),
    }
}

#[test]
fn plans_that_are_refused() {
    assert_eq!(plan("{}").unwrap_err(), "missing 'query'");
    assert_eq!(plan(r#"{"query":"  "}"#).unwrap_err(), "missing 'query'");
    assert_eq!(plan(r#"{"action":"odd","query":"x"}"#).unwrap_err(), "unknown action: odd");
    assert_eq!(
        plan(r#"{"action":"jina_site_search","query":"x"}"#).unwrap_err(),
        "missing 'site'"
    );
    let mut cfg = WebCnSearchConfig::default();
    cfg.enabled = true;
    let empty = WebCnSearchTool::from_config_with_env_overrides(&cfg, &no_env()).unwrap();
    assert!(empty.plan(&json(r#"{"query":"x"}"#)).unwrap_err().starts_with("No cn search accounts"));
}

#[test]
fn a_broad_search_asks_every_provider_with_a_key() {
    match plan(r#"{"query":" x ","limit":3,"site":"s.cn"}"#).unwrap() {
        SearchPlan::Broad(b) => {
            assert_eq!((b.query.as_str(), b.limit, b.per), ("x", 3, 6));
            let calls = search_tool().multi_search(&b);
            let names: Vec<Provider> = calls.iter().map(|c| c.0).collect();
            assert_eq!(names, vec![Provider::Metaso, Provider::Bocha, Provider::Jina]);
            let body = calls[1].1.body.as_ref().unwrap();
            assert_eq!(body.text_at("freshness"), Some("noLimit"));
            assert_eq!(body.text_at("include_domains"), Some("s.cn"));
            assert!(matches!(body.get("exclude_domains"), Some(Json::Null)));
        },
        other => panic!("{other:?}"),
    }
    for (limit, per) in [(0u32, 5u32), (1, 5), (2, 5), (4, 8), (5, 10), (99, 10)] {
        let mut a = String::from(r#"{"query":"x","limit":"#);
        a.push_str(&limit.to_string());
        a.push('}');
        match plan(&a).unwrap() {
            SearchPlan::Broad(b) => assert_eq!(b.per, per),
            other => panic!("{other:?}"),
        }
    }
}

#[test]
fn requests_to_the_providers() {
    let (p, c) = one(r#"{"action":"metaso_search","query":"q","limit":500,"scope":"paper"}"#);
    assert_eq!(p, Provider::Metaso);
    let b = c.body.unwrap();
    assert_eq!(b.unsigned_at("size"), Some(100));
    assert_eq!(b.text_at("scope"), Some("paper"));
    assert_eq!(b.truth_at("includeSummary"), Some(true));
    assert_eq!(c.url, "https://metaso.cn/api/v1/search");

    let (_, c) = one(r#"{"action":"metaso_chat","query":"q"}"#);
    let b = c.body.unwrap();
    let m = b.items_at("messages").unwrap();
    assert_eq!(m[0].text_at("content"), Some("q"));
    assert_eq!(b.text_at("model"), Some("fast"));
    let (_, c) = one(r#"{"action":"metaso_chat","query":"q","messages":[{"a":[1,{"b":null}]},2]}"#);
    let b = c.body.unwrap();
    let m = b.items_at("messages").unwrap();
    assert_eq!(m.len(), 2);
    assert_eq!(m[0].items_at("a").unwrap().len(), 2);

    let (p, c) = one(r#"{"action":"anspire_prosearch","query":"q","site":" ","from_time":"f"}"#);
    assert_eq!(p, Provider::Anspire);
    assert!(c.url.ends_with("/prosearch"));
    let q: Vec<(&str, &str)> = c.query.iter().map(|x| (x.0.as_str(), x.1.as_str())).collect();
    assert_eq!(q, vec![("query", "q"), ("top_k", "5"), ("FromTime", "f")]);

    let (_, c) = one(r#"{"action":"jina_site_search","query":"q","site":"s","limit":4294967298}"#);
    let q: Vec<(&str, &str)> = c.query.iter().map(|x| (x.0.as_str(), x.1.as_str())).collect();
    assert_eq!(q, vec![("q", "q"), ("gl", "CN"), ("hl", "zh-cn"), ("num", "2")]);
    let h: Vec<(&str, &str)> = c.headers.iter().map(|x| (x.0.as_str(), x.1.as_str())).collect();
    assert_eq!(
        h,
        vec![("accept", "application/json"), ("x-respond-with", "no-content"), ("x-site", "s")]
    );
    assert!(!c.post);
}

fn busy() -> Reply {
    Reply::Refused { code: 429, status: "429 Too Many Requests".into(), body: String::new() }
}

fn sent(s: ProviderStep) -> String {
    match s {
        ProviderStep::Send(k) => k,
        other => panic!("{other:?}"),
    }
}

fn done(s: ProviderStep) -> Result<Json, String> {
    match s {
        ProviderStep::Done(r) => r,
        other => panic!("{other:?}"),
    }
}

#[test]
fn the_next_key_is_tried_after_too_many_requests() {
    let t = search_tool();
    assert_eq!(sent(next_attempt(Provider::Metaso, &t.metaso, &vec![])), "m1");
    assert_eq!(sent(next_attempt(Provider::Metaso, &t.metaso, &vec![busy()])), "m2");
    assert_eq!(
        done(next_attempt(Provider::Metaso, &t.metaso, &vec![busy(), busy()])).unwrap_err(),
        "Metaso rate-limited"
    );
    let refused =
        Reply::Refused { code: 500, status: "500 Internal Server Error".into(), body: "x".into() };
    assert_eq!(
        done(next_attempt(Provider::Metaso, &t.metaso, &vec![busy(), refused])).unwrap_err(),
        "Metaso 500 Internal Server Error — x"
    );
    assert_eq!(
        done(next_attempt(Provider::Anspire, &t.anspire, &vec![])).unwrap_err(),
        "Anspire: no accounts configured"
    );
    assert!(done(next_attempt(Provider::Bocha, &t.bocha, &vec![Reply::Body(b"{}".to_vec())])).is_ok());
    assert_eq!(
        done(next_attempt(Provider::Bocha, &t.bocha, &vec![Reply::Lost("l".into())])).unwrap_err(),
        "Bocha response decode failed: l"
    );
    assert_eq!(
        done(next_attempt(Provider::Bocha, &t.bocha, &vec![Reply::Failed("f".into())])).unwrap_err(),
        "f"
    );
}

#[test]
fn jina_is_asked_once() {
    assert_eq!(sent(only_attempt(Provider::Jina, &Some("j".into()), &None)), "j");
    assert_eq!(
        done(only_attempt(Provider::Jina, &Some("j".into()), &Some(busy()))).unwrap_err(),
        "Jina 429 Too Many Requests — "
    );
    assert_eq!(
        done(only_attempt(Provider::Jina, &None, &None)).unwrap_err(),
        "Jina: no accounts configured"
    );
}

#[test]
fn the_turn_passes_on_once_for_each_search_at_jina() {
    let mut t = search_tool();
    t.jina = AccountPool::new(&vec![key("a", "j1", true), key("b", "j2", true)]);
    assert_eq!(sent(t.attempt(Provider::Jina, &vec![])), "j1");
    assert_eq!(
        done(t.attempt(Provider::Jina, &vec![busy()])).unwrap_err(),
        "Jina 429 Too Many Requests — "
    );
    assert_eq!(sent(t.attempt(Provider::Jina, &vec![])), "j2");
    assert_eq!(sent(t.attempt(Provider::Jina, &vec![])), "j1");
    t.jina = AccountPool::none();
    assert_eq!(
        done(t.attempt(Provider::Jina, &vec![])).unwrap_err(),
        "Jina: no accounts configured"
    );
    assert_eq!(
        done(t.attempt(Provider::Jina, &vec![busy()])).unwrap_err(),
        "Jina: no accounts configured"
    );
    assert_eq!(sent(t.attempt(Provider::Metaso, &vec![])), "m1");
    assert_eq!(sent(t.attempt(Provider::Metaso, &vec![])), "m1");
    assert_eq!(sent(t.attempt(Provider::Metaso, &vec![busy()])), "m2");
}

#[test]
fn bodies_that_are_no_json_are_shown() {
    let e = decode_json_response("X", b"oops\xff").unwrap_err();
    assert!(e.starts_with("X invalid JSON response: "), "{e}");
    assert!(e.ends_with("; body=oops\u{fffd}"), "{e}");
    let long = "é".repeat(241);
    let m = invalid_json("X", "e", &long);
    assert!(m.ends_with("..."));
    assert_eq!(m.chars().filter(|c| *c == 'é').count(), 240);
    assert!(!invalid_json("X", "e", &"é".repeat(240)).ends_with("..."));
    assert_eq!(truncate("äöü", 2), "äö");
    assert_eq!(truncate("äöü", 3), "äöü");
}

#[test]
fn results_are_read_from_both_lists() {
    let r = parse_results(&json(
        r#"{"results":[{"title":"c","url":"u3","desc":"d"}],
            "data":[{"title":"a","url":"u1","description":"x","publishedTime":"t"},{"title":"no url"},
                    {"title":"b","url":"u2","snippet":"s","content":"y","source":"z"}]}"#,
    ));
    let t: Vec<&str> = r.iter().map(|x| x.title.as_str()).collect();
    assert_eq!(t, vec!["a", "b", "c"]);
    assert_eq!((r[0].snippet.as_str(), r[0].time.as_str()), ("x", "t"));
    assert_eq!((r[1].snippet.as_str(), r[1].source.as_str()), ("s", "z"));
    assert_eq!(r[2].snippet, "d");
}

// ---- ranking ----

fn result(title: &str, url: &str, time: &str) -> SearchResult {
    SearchResult {
        title: title.into(),
        url: url.into(),
        snippet: String::new(),
        source: String::new(),
        time: time.into(),
    }
}

/// The scores in single precision, as plain floating-point code computes them.
fn float_score(domain: f32, recency: f32, hits: usize) -> f32 {
    domain + recency + hits as f32 * 0.4
}

/// A whole number of the unit 2^-27, as a floating-point number.
fn as_float(units: i128) -> f64 {
    units as f64 / 134_217_728.0
}

#[test]
fn scores_are_those_of_single_precision() {
    let domains = [("https://a.gov.cn/x", 2.0f32), ("https://caixin.com", 1.0), ("http://x.sohu.com/1", -0.3), ("https://e.org/", 0.0)];
    let times = [("3 hours ago", 0.8f32), ("2天前", 0.4), ("1 month", 0.1), ("2020", 0.0)];
    for (url, d) in domains {
        for (time, t) in times {
            for n in [0usize, 1, 2, 3, 5, 7, 11, 13, 100] {
                let word: Vec<String> = (0..n).map(|i| ["w", &i.to_string(), "z"].concat()).collect();
                let text = word.join(" ");
                let got = score(&text, &result(&text, url, time));
                let want = float_score(d, t, n);
                assert_eq!(as_float(got), want as f64, "{url} {time} {n}");
            }
        }
    }
}

#[test]
fn parts_of_a_score() {
    assert_eq!(url_domain("https://Www.Gov.cn/a//b"), "Www.Gov.cn");
    assert_eq!(url_domain("plain.org/x"), "plain.org");
    assert_eq!(as_float(score_domain("https://WWW.GOV.CN/a")), 2.0);
    assert_eq!(as_float(score_domain_name("notgov.cn")), 2.0);
    assert_eq!(as_float(score_domain_name("mp.weixin.qq.com")), -0.3f32 as f64);
    assert_eq!(as_float(score_recency("1小时前")), 0.8f32 as f64);
    assert_eq!(count_hits("a b a", "xa"), 2);
    assert_eq!(as_float(score_title("Rust VERUS", "all of rust and verus")), 0.8f32 as f64);
    assert_eq!(as_float(score_title("É", "é")), 0.4f32 as f64);
}

#[test]
fn the_best_come_first_and_equal_ones_as_they_came() {
    assert_eq!(ranking(&vec![1, 3, 2, 3, 1]), vec![1, 3, 2, 0, 4]);
    let rs = vec![
        result("a", "https://e.org/", ""),
        result("b", "https://x.gov.cn/", ""),
        result("c", "https://e.org/2", ""),
    ];
    let titles = |v: Vec<SearchResult>| v.iter().map(|r| r.title.clone()).collect::<Vec<_>>();
    assert_eq!(titles(rerank(&rs, "zzz", 5)), vec!["b", "a", "c"]);
    assert_eq!(titles(rerank(&rs, "c", 2)), vec!["b", "c"]);
    assert_eq!(titles(take_best(&rs, &vec![1, 1, 2], 1)), vec!["c"]);
    assert!(rerank(&rs, "x", 0).is_empty());
}

#[test]
fn ranking_agrees_with_a_stable_sort() {
    let mut x: u64 = 88172645463325252;
    for len in 0..30usize {
        let scores: Vec<i128> = (0..len)
            .map(|_| {
                x ^= x << 13;
                x ^= x >> 7;
                x ^= x << 17;
                (x % 5) as i128 - 2
            })
            .collect();
        let mut want: Vec<usize> = (0..len).collect();
        want.sort_by(|a, b| scores[*b].cmp(&scores[*a]));
        assert_eq!(ranking(&scores), want);
    }
}

#[test]
fn searches_are_reported_with_what_failed() {
    let b = BroadSearch { query: "q".into(), limit: 1, per: 5, site: None, freshness: None };
    let outcomes = vec![
        Err("Metaso rate-limited".to_string()),
        Ok(json(r#"{"data":[{"title":"x","url":"https://e.org"},{"title":"q","url":"https://e.org"}]}"#)),
    ];
    let r = finish_search(&b, &outcomes);
    assert_eq!(r.unsigned_at("count"), Some(1));
    assert_eq!(r.items_at("results").unwrap()[0].text_at("title"), Some("q"));
    assert_eq!(r.items_at("errors").unwrap()[0].as_str(), Some("Metaso rate-limited"));
    assert!(r.get("note").is_none());
    let none = finish_search(&b, &vec![]);
    assert_eq!(none.unsigned_at("count"), Some(0));
    assert_eq!(none.text_at("note"), Some("No results for: q"));
}

#[test]
fn a_provider_that_fails_takes_nothing_away() {
    let b = BroadSearch { query: "q".into(), limit: 5, per: 5, site: None, freshness: None };
    let found = r#"{"data":[{"title":"a","url":"https://moe.gov.cn/1"},{"title":"q","url":"https://e.org"}]}"#;
    let titles = |r: &Json| -> Vec<String> {
        r.items_at("results").unwrap().iter().map(|x| x.text_at("title").unwrap().to_string()).collect()
    };
    let alone = finish_search(&b, &vec![Ok(json(found))]);
    let beside = finish_search(&b, &vec![Err("x".into()), Ok(json(found)), Err("y".into())]);
    assert_eq!(titles(&alone), vec!["a", "q"]);
    assert_eq!(titles(&beside), titles(&alone));
    assert_eq!(beside.items_at("errors").unwrap().len(), 2);
}

// ---- reading ----

#[test]
fn name_is_web_read() {
    let mut cfg = WebReadConfig::default();
    cfg.enabled = true;
    let tool = WebReadTool::from_config_with_env_overrides(&cfg, &no_env()).unwrap();
    assert_eq!(tool.name(), "web_read");
}

#[test]
fn schema_requires_url() {
    let mut cfg = WebReadConfig::default();
    cfg.enabled = true;
    let tool = WebReadTool::from_config_with_env_overrides(&cfg, &no_env()).unwrap();
    let schema = tool.parameters_schema();
    let required = schema.items_at("required").unwrap();
    assert!(required.iter().any(|v| v.as_str() == Some("url")));
}

#[test]
fn web_read_warnings_include_missing_keys() {
    let mut cfg = WebReadConfig::default();
    cfg.enabled = true;
    cfg.jina.enabled = true;
    cfg.metaso.enabled = true;
    let tool = WebReadTool::from_config_with_env_overrides(&cfg, &no_env()).unwrap();
    let warnings = tool.warnings();
    assert!(warnings.iter().any(|w| w.contains("jina")));
    assert!(warnings.iter().any(|w| w.contains("metaso")));
}

#[test]
fn warnings_include_pinchtab_endpoint_mismatch() {
    let mut cfg = WebReadConfig::default();
    cfg.enabled = true;
    cfg.pinchtab.endpoint = String::new();
    cfg.pinchtab.token = "token".to_string();
    let tool = WebReadTool::from_config_with_env_overrides(&cfg, &no_env()).unwrap();
    let warnings = tool.warnings();
    assert!(warnings.iter().any(|w| w.contains("pinchtab token set but endpoint is missing")));
}

#[test]
fn env_override_provides_missing_reader_key() {
    let mut cfg = WebReadConfig::default();
    cfg.enabled = true;
    cfg.jina.enabled = true;

    let tool =
        WebReadTool::from_config_with_env_overrides(&cfg, &env("JINA_API_KEY", "env-key")).unwrap();

    assert!(tool.is_configured());
    assert!(tool.warnings().iter().all(|w| !w.contains("jina enabled")));
}

fn reader() -> WebReadTool {
    let mut cfg = WebReadConfig::default();
    cfg.enabled = true;
    cfg.metaso = provider(vec![key("a", "mk", true)]);
    cfg.crawl4ai.endpoint = "http://crawl/".into();
    cfg.crawl4ai.api_token = "ct".into();
    cfg.crawl4ai.timeout_seconds = u64::MAX;
    cfg.min_chars = 5;
    cfg.cache_ttl_minutes = 1;
    cfg.ssrf_allowlist = vec!["192.168.7.0/24".into(), "nonsense".into(), "fd00::/8".into()];
    WebReadTool::from_config_with_env_overrides(&cfg, &env("JINA_API_KEY", "jk")).unwrap()
}

fn parts(host: Option<&str>) -> UrlParts {
    UrlParts {
        form: Ok("https://e.org/".into()),
        host: host.map(|h| h.to_string()),
        scheme: Some("https".into()),
    }
}

fn passed() -> Vec<ReadAnswer> {
    vec![ReadAnswer::Literal(Some(IpAddress::V4(0x0101_0101))), ReadAnswer::Cached(None)]
}

fn failed(a: ReadAction) -> String {
    match a {
        ReadAction::Fail(e) => e,
        other => panic!("{other:?}"),
    }
}

#[test]
fn urls_are_checked_first() {
    let t = reader();
    match t.fetch("http://e.org/a", false, &vec![]) {
        ReadAction::Literal(h) => assert_eq!(h, "e.org"),
        other => panic!("{other:?}"),
    }
    match t.fetch("http://e.org/a", false, &vec![ReadAnswer::Literal(None)]) {
        ReadAction::Lookup(h, port) => assert_eq!((h.as_str(), port), ("e.org", 80)),
        other => panic!("{other:?}"),
    }
    match t.fetch("https://e.org/a", false, &vec![ReadAnswer::Literal(None)]) {
        ReadAction::Lookup(_, port) => assert_eq!(port, 443),
        other => panic!("{other:?}"),
    }
    assert!(!failed(t.fetch("no url", false, &vec![])).is_empty());
    assert_eq!(failed(t.fetch("data:text/plain,x", false, &vec![])), "URL has no host");
    assert_eq!(
        failed(t.fetch_parts(&parts(None), "x", false, &vec![])),
        "URL has no host"
    );
}

#[test]
fn private_addresses_are_refused_unless_they_are_allowed() {
    let t = reader();
    let lit = |ip| vec![ReadAnswer::Literal(Some(ip))];
    assert_eq!(
        failed(t.fetch("http://10.0.0.1/", false, &lit(IpAddress::V4(0x0a00_0001)))),
        "SSRF blocked: 10.0.0.1"
    );
    assert!(matches!(
        t.fetch("http://192.168.7.9/", false, &lit(IpAddress::V4(0xc0a8_0709))),
        ReadAction::Cached(_)
    ));
    let looked = vec![
        ReadAnswer::Literal(None),
        ReadAnswer::Addresses(Ok(vec![
            (IpAddress::V4(0x0808_0808), "8.8.8.8".into()),
            (IpAddress::V6(1), "::1".into()),
        ])),
    ];
    assert_eq!(failed(t.fetch("http://e.org/", false, &looked)), "SSRF blocked: e.org -> ::1");
    let lost = vec![ReadAnswer::Literal(None), ReadAnswer::Addresses(Err("dns".into()))];
    assert_eq!(failed(t.fetch("http://e.org/", false, &lost)), "dns");
}

#[test]
fn which_addresses_are_private() {
    let v4 = |a: u8, b: u8, c: u8, d: u8| IpAddress::V4(u32::from_be_bytes([a, b, c, d]));
    for ip in [v4(10, 1, 2, 3), v4(172, 31, 0, 1), v4(192, 168, 0, 1), v4(127, 0, 0, 1), v4(169, 254, 9, 9)] {
        assert!(is_private_ip(&ip), "{ip:?}");
    }
    for ip in [v4(11, 0, 0, 1), v4(172, 32, 0, 1), v4(172, 15, 0, 1), v4(192, 169, 0, 1), v4(8, 8, 8, 8)] {
        assert!(!is_private_ip(&ip), "{ip:?}");
    }
    assert!(is_private_ip(&IpAddress::V6(0xfdff << 112)));
    assert!(is_private_ip(&IpAddress::V6(0xfebf << 112)));
    assert!(!is_private_ip(&IpAddress::V6(0xfec0 << 112)));
    assert!(!is_private_ip(&IpAddress::V6(0xfbff << 112)));
    let nets = read_networks(&vec!["10.1.2.3/8".into(), "bad".into(), "fe80::1/16".into()]);
    assert_eq!(nets.len(), 2);
    assert!(!is_blocked(&v4(10, 255, 0, 1), &nets));
    assert!(is_blocked(&v4(127, 0, 0, 1), &nets));
    assert!(!is_blocked(&IpAddress::V6(0xfe80 << 112), &nets));
    assert!(is_blocked(&IpAddress::V6(0xfe81 << 112), &nets));
}

fn asked(a: ReadAction) -> (String, String, u64) {
    match a {
        ReadAction::Send(c) => (c.call.url, c.key, c.timeout_secs),
        other => panic!("{other:?}"),
    }
}

#[test]
fn one_backend_after_the_other_is_asked() {
    let t = reader();
    let p = parts(Some("e.org"));
    let mut h = passed();
    assert_eq!(
        asked(t.fetch_parts(&p, "https://e.org/", true, &h)),
        ("https://r.jina.ai/https://e.org/".into(), "jk".into(), 20)
    );
    h.push(ReadAnswer::Reply(ReadReply::Text("1234".into())));
    assert_eq!(
        asked(t.fetch_parts(&p, "https://e.org/", true, &h)),
        ("https://metaso.cn/api/v1/reader".into(), "mk".into(), 20)
    );
    h.push(ReadAnswer::Reply(ReadReply::Refused { status: "500".into(), body: "x".repeat(300) }));
    assert_eq!(
        asked(t.fetch_parts(&p, "https://e.org/", true, &h)),
        ("http://crawl/crawl".into(), "ct".into(), u64::MAX)
    );
    assert!(matches!(
        t.fetch_parts(&p, "https://e.org/", true, &h),
        ReadAction::Send(c) if c.document
    ));
    h.push(ReadAnswer::Reply(ReadReply::Document(json(
        r#"{"results":[{"markdown":{"fit_markdown":"","raw_markdown":"ééé"}}]}"#,
    ))));
    match t.fetch_parts(&p, "https://e.org/", true, &h) {
        ReadAction::Done { page, fresh } => {
            assert!(fresh);
            assert_eq!(page.text_at("backend"), Some("crawl4ai"));
            assert_eq!(page.unsigned_at("length"), Some(6));
            assert_eq!(page.text_at("content"), Some("ééé"));
        },
        other => panic!("{other:?}"),
    }
    h.pop();
    h.push(ReadAnswer::Reply(ReadReply::Failed("gone".into())));
    let e = failed(t.fetch_parts(&p, "https://e.org/", true, &h));
    assert_eq!(
        e,
        [
            "all backends failed: metaso: Metaso 500 — ",
            &"x".repeat(200),
            "; crawl4ai: gone; pinchtab: Pinchtab not configured (token required)",
        ]
        .concat()
    );
}

#[test]
fn pages_that_were_fetched_are_handed_out_again() {
    let mut t = reader();
    let p = parts(Some("e.org"));
    let k = match t.fetch_parts(&p, "u", false, &passed()[..1].iter().map(|_| ReadAnswer::Literal(Some(IpAddress::V4(1)))).collect()) {
        ReadAction::Cached(k) => k,
        other => panic!("{other:?}"),
    };
    assert_eq!(k, "u:with_links=false");
    let minute = 60_000_000_000;
    t.cache_set(&k, json("7"), 10);
    assert_eq!(t.cache_get(&k, 10 + minute - 1).unwrap().as_u64(), Some(7));
    assert!(t.cache_get(&k, 10 + minute).is_none());
    assert!(t.cache_get("other", 10).is_none());
    let h = vec![
        ReadAnswer::Literal(Some(IpAddress::V4(1))),
        ReadAnswer::Cached(t.cache_get(&k, 11)),
    ];
    match t.fetch_parts(&p, "u", false, &h) {
        ReadAction::Done { page, fresh } => {
            assert!(!fresh);
            assert_eq!(page.as_u64(), Some(7));
        },
        other => panic!("{other:?}"),
    }
    for i in 0..150u32 {
        t.cache_set(&i.to_string(), json("1"), 20);
    }
    t.cache_set("late", json("1"), 30 + minute);
    assert!(t.cache_get("3", 21).is_none());
    assert!(t.cache_get("late", 31 + minute).is_some());
}

#[test]
fn nothing_is_kept_without_a_time_to_live() {
    let mut cfg = WebReadConfig::default();
    cfg.enabled = true;
    let mut t = WebReadTool::from_config_with_env_overrides(&cfg, &no_env()).unwrap();
    t.cache_set("k", json("1"), 0);
    assert!(t.cache_get("k", 0).is_none());
    assert!(failed(t.fetch("https://e.org", false, &vec![])).starts_with("No web_read backends"));
}

#[test]
fn replies_of_the_backends() {
    assert_eq!(metaso_content(&Some(json(r#"{"content":"c"}"#)), "raw"), "c");
    assert_eq!(metaso_content(&Some(json("[]")), "raw"), "raw");
    assert_eq!(metaso_content(&None, "raw"), "raw");
    let m = read_reply(Backend::Metaso, "u", &ReadReply::Text(r#"{"content":"c"}"#.into()));
    assert_eq!(m, Some(Ok("c".to_string())));
    assert_eq!(
        crawl_content(&json(r#"{"results":[{"success":false,"error_message":"e"}]}"#)),
        Err("Crawl4AI page error: e".to_string())
    );
    assert_eq!(crawl_content(&json("{}")), Ok(String::new()));
    assert_eq!(
        crawl_content(&json(r#"{"results":[{"markdown":"m"}]}"#)),
        Ok("m".to_string())
    );
    assert_eq!(
        read_reply(
            Backend::Crawl4ai,
            "u",
            &ReadReply::Refused { status: "404 Not Found".into(), body: "b".into() }
        ),
        Some(Err("Crawl4AI 404 Not Found — u".to_string()))
    );
    assert_eq!(read_reply(Backend::Crawl4ai, "u", &ReadReply::Text("t".into())), None);
    assert_eq!(fmt_result("b", "u", "ü").unsigned_at("length"), Some(2));
}

#[test]
fn parameters_of_a_read() {
    assert_eq!(
        read_params(&json(r#"{"url":" https://e.org ","with_links":true}"#)),
        Ok(("https://e.org".to_string(), true))
    );
    assert_eq!(read_params(&json(r#"{"url":" "}"#)), Err("missing 'url' parameter".to_string()));
    assert_eq!(read_params(&json("{}")), Err("missing 'url' parameter".to_string()));
}
