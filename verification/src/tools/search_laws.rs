//! What a search asks the providers and what its report holds, in terms of the arguments and of what
//! the providers answered.

use crate::json;
use crate::json::JsonView;
use crate::text;
use crate::tools::accounts;
use crate::tools::accounts::{ApiKeyProviderConfig, Environment};
use crate::tools::ranking;
use crate::tools::ranking::ResultView;
use crate::tools::requests;
use crate::tools::requests::{CallView, Reply};
use crate::tools::web_cn_search;
use crate::tools::web_cn_search::{BroadView, PlanView, Provider, WebCnSearchTool};
use vstd::prelude::*;

verus! {

// ---- the report ----

/// The first of the members that is a text, or nothing.
pub open spec fn first_of_two(d: JsonView, a: Seq<char>, b: Seq<char>) -> Option<Seq<char>> {
    if d.text_at(a) is Some {
        d.text_at(a)
    } else {
        d.text_at(b)
    }
}

/// A text, or the empty one.
pub open spec fn or_empty(t: Option<Seq<char>>) -> Seq<char> {
    match t {
        Some(x) => x,
        None => Seq::empty(),
    }
}

/// Whether a result shows what an item of a provider's answer holds: its title and its URL, which
/// must be there, and what there is of a snippet, a source and a time.
pub open spec fn shows(r: ResultView, d: JsonView, data: bool) -> bool {
    &&& d.text_at("title"@) == Some(r.title)
    &&& d.text_at("url"@) == Some(r.url)
    &&& r.source == or_empty(d.text_at("source"@))
    &&& data ==> r.snippet == or_empty(
        if first_of_two(d, "snippet"@, "description"@) is Some {
            first_of_two(d, "snippet"@, "description"@)
        } else {
            d.text_at("content"@)
        },
    )
    &&& !data ==> r.snippet == or_empty(first_of_two(d, "snippet"@, "desc"@))
    &&& data ==> r.time == or_empty(first_of_two(d, "time"@, "publishedTime"@))
    &&& !data ==> r.time == or_empty(d.text_at("time"@))
}

/// The items of a provider's answer: those of its list `data`, or those of its list `results`.
pub open spec fn items_of(outcome: Result<JsonView, Seq<char>>, data: bool) -> Seq<JsonView> {
    match outcome {
        Ok(j) => match j.items_at(if data {
            "data"@
        } else {
            "results"@
        }) {
            Some(items) => items,
            None => Seq::empty(),
        },
        Err(_) => Seq::empty(),
    }
}

/// Whether some provider found a result.
pub open spec fn is_found(outcomes: Seq<Result<JsonView, Seq<char>>>, r: ResultView) -> bool {
    exists|j: int, k: int, data: bool|
        0 <= j < outcomes.len() && 0 <= k < items_of(outcomes[j], data).len() && #[trigger] shows(
            r,
            items_of(outcomes[j], data)[k],
            data,
        )
}

proof fn lemma_row(item: JsonView, data: bool)
    ensures
        web_cn_search::row(item, data) matches Some(r) ==> shows(r, item, data),
        web_cn_search::row(item, data) is Some <==> item.text_at("title"@) is Some && item.text_at(
            "url"@,
        ) is Some,
{
}

proof fn lemma_rows(items: Seq<JsonView>, data: bool, i: int) -> (k: int)
    requires
        0 <= i < web_cn_search::rows(items, data).len(),
    ensures
        0 <= k < items.len(),
        shows(web_cn_search::rows(items, data)[i], items[k], data),
    decreases items.len(),
{
    let before = web_cn_search::rows(items.drop_last(), data);
    if i < before.len() {
        let k = lemma_rows(items.drop_last(), data, i);
        assert(items.drop_last()[k] == items[k]);
        k
    } else {
        lemma_row(items.last(), data);
        items.len() - 1
    }
}

proof fn lemma_found(outcomes: Seq<Result<JsonView, Seq<char>>>, i: int)
    requires
        0 <= i < web_cn_search::all_results(outcomes).len(),
    ensures
        is_found(outcomes, web_cn_search::all_results(outcomes)[i]),
    decreases outcomes.len(),
{
    let rest = outcomes.drop_last();
    let before = web_cn_search::all_results(rest);
    let r = web_cn_search::all_results(outcomes)[i];
    if i < before.len() {
        lemma_found(rest, i);
        let (j, k, data) = choose|j: int, k: int, data: bool|
            0 <= j < rest.len() && 0 <= k < items_of(rest[j], data).len() && #[trigger] shows(
                r,
                items_of(rest[j], data)[k],
                data,
            );
        assert(rest[j] == outcomes[j]);
        assert(shows(r, items_of(outcomes[j], data)[k], data));
    } else {
        let last = outcomes.len() - 1;
        if let Ok(doc) = outcomes.last() {
            let n = i - before.len();
            let first = web_cn_search::rows(items_of(outcomes[last], true), true);
            if n < first.len() {
                let k = lemma_rows(items_of(outcomes[last], true), true, n);
                assert(shows(r, items_of(outcomes[last], true)[k], true));
            } else {
                let k = lemma_rows(items_of(outcomes[last], false), false, n - first.len());
                assert(shows(r, items_of(outcomes[last], false)[k], false));
            }
        }
    }
}

/// Whether an item of a report says of a result what there is to say.
pub open spec fn tells(item: JsonView, r: ResultView) -> bool {
    &&& item.text_at("title"@) == Some(r.title)
    &&& item.text_at("url"@) == Some(r.url)
    &&& item.text_at("snippet"@) == Some(r.snippet)
    &&& item.text_at("source"@) == Some(r.source)
    &&& item.text_at("time"@) == Some(r.time)
}

proof fn lemma_tells(r: ResultView)
    ensures
        tells(web_cn_search::result_value(r), r),
{
    reveal_with_fuel(json::member_from, 6);
    reveal_strlit("title");
    reveal_strlit("url");
    reveal_strlit("snippet");
    reveal_strlit("source");
    reveal_strlit("time");
    let m = web_cn_search::result_value(r)->Object_0;
    assert(m.len() == 5);
    assert("title"@.len() == 5 && "url"@.len() == 3 && "snippet"@.len() == 7 && "source"@.len() == 6
        && "time"@.len() == 4);
    assert(json::member_from(m, "url"@, 0) == json::member_from(m, "url"@, 1));
    assert(json::member_from(m, "snippet"@, 0) == json::member_from(m, "snippet"@, 2));
    assert(json::member_from(m, "source"@, 0) == json::member_from(m, "source"@, 3));
    assert(json::member_from(m, "time"@, 0) == json::member_from(m, "time"@, 4));
}

/// Whether an item of a report tells of a result that some provider found.
pub open spec fn tells_of_found(outcomes: Seq<Result<JsonView, Seq<char>>>, item: JsonView) -> bool {
    exists|r: ResultView| #[trigger] tells(item, r) && is_found(outcomes, r)
}

/// Every result in a report is one that some provider found, with its title, its URL, its snippet, its
/// source and its time; there are as many as the report says, and no more than are wanted; and the
/// report repeats the query.
pub proof fn law_report(
    query: Seq<char>,
    limit: nat,
    outcomes: Seq<Result<JsonView, Seq<char>>>,
    report: JsonView,
)
    requires
        web_cn_search::is_report(query, limit, outcomes, report),
    ensures
        report.text_at("query"@) == Some(query),
        report.items_at("results"@) matches Some(items) && {
            &&& items.len() <= limit
            &&& report.unsigned_at("count"@) == Some(items.len() as u64)
            &&& items.len() == limit || items.len() == web_cn_search::all_results(outcomes).len()
            &&& forall|i: int|
                0 <= i < items.len() ==> tells_of_found(outcomes, #[trigger] items[i])
        },
{
    let found = web_cn_search::all_results(outcomes);
    let scores = ranking::scores_of(query, found);
    let best = choose|best: Seq<ResultView>|
        #[trigger] ranking::are_best(found, scores, limit, best) && report
            == web_cn_search::search_report(query, best, web_cn_search::all_errors(outcomes));
    ranking::law_best_size(found, scores, limit, best);
    lemma_report_members(query, best, web_cn_search::all_errors(outcomes));
    let items = web_cn_search::result_values(best);
    assert forall|i: int| 0 <= i < items.len() implies tells_of_found(
        outcomes,
        #[trigger] items[i],
    ) by {
        lemma_tells(best[i]);
        assert(found.contains(best[i]));
        let j = choose|j: int| 0 <= j < found.len() && found[j] == best[i];
        lemma_found(outcomes, j);
        assert(tells(items[i], best[i]));
    }
}

proof fn lemma_report_members(query: Seq<char>, best: Seq<ResultView>, errors: Seq<Seq<char>>)
    ensures
        ({
            let report = web_cn_search::search_report(query, best, errors);
            &&& report.text_at("query"@) == Some(query)
            &&& report.unsigned_at("count"@) == Some(best.len() as u64)
            &&& report.items_at("results"@) == Some(web_cn_search::result_values(best))
            &&& report.items_at("errors"@) == Some(json::text_values(errors))
        }),
{
    reveal_with_fuel(json::member_from, 6);
    reveal_strlit("query");
    reveal_strlit("count");
    reveal_strlit("results");
    reveal_strlit("errors");
    assert("query"@[0] == 'q');
    assert("count"@[0] == 'c');
    assert("results"@[0] == 'r');
    assert("errors"@[0] == 'e');
}

/// Of two results in a report, the one that comes first has no lower score for the query; and a result
/// that was found but is not in a report that is shorter than what was found is not better than those
/// that are.
pub proof fn law_report_order(
    query: Seq<char>,
    limit: nat,
    outcomes: Seq<Result<JsonView, Seq<char>>>,
    report: JsonView,
    i: int,
    j: int,
)
    requires
        web_cn_search::is_report(query, limit, outcomes, report),
        0 <= i < j < (report.items_at("results"@)->0).len(),
    ensures
        exists|a: ResultView, b: ResultView| #[trigger]
            tells((report.items_at("results"@)->0)[i], a) && #[trigger] tells(
                (report.items_at("results"@)->0)[j],
                b,
            ) && ranking::score_of(query, a) >= ranking::score_of(query, b),
{
    let found = web_cn_search::all_results(outcomes);
    let scores = ranking::scores_of(query, found);
    let best = choose|best: Seq<ResultView>|
        #[trigger] ranking::are_best(found, scores, limit, best) && report
            == web_cn_search::search_report(query, best, web_cn_search::all_errors(outcomes));
    lemma_report_members(query, best, web_cn_search::all_errors(outcomes));
    let order = choose|order: Seq<int>|
        #[trigger] ranking::is_ranking(scores, order) && best == ranking::picked(
            found,
            ranking::first_of(order, limit),
        );
    let items = web_cn_search::result_values(best);
    assert(items.len() == best.len());
    lemma_tells(best[i]);
    lemma_tells(best[j]);
    assert(ranking::comes_first(scores, order[i], order[j]));
    assert(best[i] == found[order[i]]);
    assert(best[j] == found[order[j]]);
    assert(tells(items[i], best[i]));
    assert(tells(items[j], best[j]));
}

/// Every provider that failed is named in the report by its message, and nothing else is.
pub proof fn law_report_errors(
    query: Seq<char>,
    limit: nat,
    outcomes: Seq<Result<JsonView, Seq<char>>>,
    report: JsonView,
    e: Seq<char>,
)
    requires
        web_cn_search::is_report(query, limit, outcomes, report),
    ensures
        report.items_at("errors"@) matches Some(items) && (items.contains(JsonView::Text(e))
            <==> outcomes.contains(Err::<JsonView, Seq<char>>(e))),
{
    let found = web_cn_search::all_results(outcomes);
    let scores = ranking::scores_of(query, found);
    let best = choose|best: Seq<ResultView>|
        #[trigger] ranking::are_best(found, scores, limit, best) && report
            == web_cn_search::search_report(query, best, web_cn_search::all_errors(outcomes));
    let errors = web_cn_search::all_errors(outcomes);
    lemma_report_members(query, best, errors);
    lemma_errors(outcomes, e);
    let items = json::text_values(errors);
    if items.contains(JsonView::Text(e)) {
        let i = choose|i: int| 0 <= i < items.len() && items[i] == JsonView::Text(e);
        assert(items[i] == JsonView::Text(errors[i]));
        assert(errors.contains(e));
    }
    if errors.contains(e) {
        let i = choose|i: int| 0 <= i < errors.len() && errors[i] == e;
        assert(items[i] == JsonView::Text(e));
    }
}

proof fn lemma_errors(outcomes: Seq<Result<JsonView, Seq<char>>>, e: Seq<char>)
    ensures
        web_cn_search::all_errors(outcomes).contains(e) <==> outcomes.contains(
            Err::<JsonView, Seq<char>>(e),
        ),
    decreases outcomes.len(),
{
    if outcomes.len() > 0 {
        let rest = outcomes.drop_last();
        lemma_errors(rest, e);
        let all = web_cn_search::all_errors(outcomes);
        let before = web_cn_search::all_errors(rest);
        let wanted = Err::<JsonView, Seq<char>>(e);
        if all.contains(e) {
            let i = choose|i: int| 0 <= i < all.len() && all[i] == e;
            if i < before.len() {
                assert(before[i] == e);
                assert(before.contains(e));
                let j = choose|j: int| 0 <= j < rest.len() && rest[j] == wanted;
                assert(outcomes[j] == wanted);
            } else {
                assert(outcomes[outcomes.len() - 1] == wanted);
            }
        }
        if outcomes.contains(wanted) {
            let j = choose|j: int| 0 <= j < outcomes.len() && outcomes[j] == wanted;
            if j < rest.len() {
                assert(rest[j] == wanted);
                assert(before.contains(e));
                let i = choose|i: int| 0 <= i < before.len() && before[i] == e;
                assert(all[i] == e);
            } else {
                assert(all[all.len() - 1] == e);
            }
        }
    }
}

/// Nothing that a provider found gets lost before the ranking: every item with a title and a URL is
/// among the results.
pub proof fn law_all_found(
    outcomes: Seq<Result<JsonView, Seq<char>>>,
    j: int,
    k: int,
    data: bool,
)
    requires
        0 <= j < outcomes.len(),
        0 <= k < items_of(outcomes[j], data).len(),
        items_of(outcomes[j], data)[k].text_at("title"@) is Some,
        items_of(outcomes[j], data)[k].text_at("url"@) is Some,
    ensures
        exists|i: int|
            0 <= i < web_cn_search::all_results(outcomes).len() && #[trigger] shows(
                web_cn_search::all_results(outcomes)[i],
                items_of(outcomes[j], data)[k],
                data,
            ),
    decreases outcomes.len(),
{
    let rest = outcomes.drop_last();
    let before = web_cn_search::all_results(rest);
    let all = web_cn_search::all_results(outcomes);
    let item = items_of(outcomes[j], data)[k];
    if j < rest.len() {
        assert(rest[j] == outcomes[j]);
        law_all_found(rest, j, k, data);
        let i = choose|i: int| 0 <= i < before.len() && #[trigger] shows(before[i], item, data);
        assert(all[i] == before[i]);
        assert(shows(all[i], item, data));
    } else {
        let n = lemma_row_kept(items_of(outcomes[j], data), data, k);
        let first = web_cn_search::rows(items_of(outcomes[j], true), true);
        let at = if data {
            before.len() + n
        } else {
            before.len() + first.len() + n
        };
        assert(all[at] == web_cn_search::rows(items_of(outcomes[j], data), data)[n]);
        assert(shows(all[at], item, data));
    }
}

proof fn lemma_row_kept(items: Seq<JsonView>, data: bool, k: int) -> (n: int)
    requires
        0 <= k < items.len(),
        items[k].text_at("title"@) is Some,
        items[k].text_at("url"@) is Some,
    ensures
        0 <= n < web_cn_search::rows(items, data).len(),
        shows(web_cn_search::rows(items, data)[n], items[k], data),
    decreases items.len(),
{
    lemma_row(items.last(), data);
    if k == items.len() - 1 {
        web_cn_search::rows(items, data).len() - 1
    } else {
        let n = lemma_row_kept(items.drop_last(), data, k);
        assert(items.drop_last()[k] == items[k]);
        n
    }
}

// ---- the requests ----

/// The query of a call, trimmed.
pub open spec fn asked_query(a: JsonView) -> Seq<char> {
    text::trim_of(or_empty(a.text_at("query"@)))
}

/// A number between one and `max`, as near to `n` as that allows.
pub open spec fn clipped(n: int, max: int) -> int {
    if n < 1 {
        1
    } else if n > max {
        max
    } else {
        n
    }
}

/// How many results a call asks for, as a 32-bit number.
pub open spec fn asked_limit(a: JsonView, max: int) -> int {
    clipped(
        match a.unsigned_at("limit"@) {
            Some(n) => (n as u32) as int,
            None => 5,
        },
        max,
    )
}

proof fn lemma_metaso_body(
    query: Seq<char>,
    size: u32,
    scope: Seq<char>,
    summary: bool,
    raw: bool,
    concise: bool,
)
    ensures
        ({
            let call = web_cn_search::metaso_search_of(query, size, scope, summary, raw, concise);
            &&& call.post
            &&& call.url == "https://metaso.cn/api/v1/search"@
            &&& call.body matches Some(body)
            &&& body.text_at("q"@) == Some(query)
            &&& body.unsigned_at("size"@) == Some(clipped(size as int, 100) as u64)
            &&& body.text_at("scope"@) == Some(scope)
            &&& body.truth_at("includeSummary"@) == Some(summary)
            &&& body.truth_at("includeRawContent"@) == Some(raw)
            &&& body.truth_at("conciseSnippet"@) == Some(concise)
        }),
{
    reveal_with_fuel(json::member_from, 7);
    reveal_strlit("q");
    reveal_strlit("size");
    reveal_strlit("scope");
    reveal_strlit("includeSummary");
    reveal_strlit("includeRawContent");
    reveal_strlit("conciseSnippet");
    let m = (web_cn_search::metaso_search_of(query, size, scope, summary, raw, concise).body->0)->Object_0;
    assert(m.len() == 6);
    assert("q"@.len() == 1 && "size"@.len() == 4 && "scope"@.len() == 5 && "includeSummary"@.len()
        == 14 && "includeRawContent"@.len() == 17 && "conciseSnippet"@.len() == 14);
    assert("includeSummary"@[0] == 'i');
    assert("conciseSnippet"@[0] == 'c');
    assert(json::member_from(m, "size"@, 0) == json::member_from(m, "size"@, 1));
    assert(json::member_from(m, "scope"@, 0) == json::member_from(m, "scope"@, 2));
    assert(json::member_from(m, "includeSummary"@, 0) == json::member_from(m, "includeSummary"@, 3));
    assert(json::member_from(m, "includeRawContent"@, 0) == json::member_from(
        m,
        "includeRawContent"@,
        4,
    ));
    assert(json::member_from(m, "conciseSnippet"@, 0) == json::member_from(m, "conciseSnippet"@, 5));
}

proof fn lemma_chat_body(messages: Seq<JsonView>, model: Seq<char>, format: Seq<char>)
    ensures
        ({
            let call = web_cn_search::metaso_chat_of(messages, model, format);
            &&& call.post
            &&& call.url == "https://metaso.cn/api/v1/chat/completions"@
            &&& call.body matches Some(body)
            &&& body.text_at("model"@) == Some(model)
            &&& body.items_at("messages"@) == Some(messages)
            &&& body.text_at("chat_format"@) == Some(format)
        }),
{
    reveal_with_fuel(json::member_from, 4);
    reveal_strlit("model");
    reveal_strlit("messages");
    reveal_strlit("chat_format");
    let m = (web_cn_search::metaso_chat_of(messages, model, format).body->0)->Object_0;
    assert(m.len() == 3);
    assert("model"@.len() == 5 && "messages"@.len() == 8 && "chat_format"@.len() == 11);
    assert(json::member_from(m, "messages"@, 0) == json::member_from(m, "messages"@, 1));
    assert(json::member_from(m, "chat_format"@, 0) == json::member_from(m, "chat_format"@, 2));
}

proof fn lemma_bocha_body(
    query: Seq<char>,
    freshness: Seq<char>,
    summary: bool,
    only: Option<Seq<char>>,
    without: Option<Seq<char>>,
)
    ensures
        ({
            let call = web_cn_search::bocha_search_of(query, freshness, summary, only, without);
            &&& call.post
            &&& call.url == "https://api.bocha.cn/v1/web-search"@
            &&& call.body matches Some(body)
            &&& body.text_at("query"@) == Some(query)
            &&& body.text_at("freshness"@) == Some(freshness)
            &&& body.truth_at("summary"@) == Some(summary)
            &&& body.text_at("include_domains"@) == only
            &&& body.text_at("exclude_domains"@) == without
        }),
{
    reveal_with_fuel(json::member_from, 6);
    reveal_strlit("query");
    reveal_strlit("freshness");
    reveal_strlit("summary");
    reveal_strlit("include_domains");
    reveal_strlit("exclude_domains");
    let m = (web_cn_search::bocha_search_of(query, freshness, summary, only, without).body->0)->Object_0;
    assert(m.len() == 5);
    assert("query"@.len() == 5 && "freshness"@.len() == 9 && "summary"@.len() == 7
        && "include_domains"@.len() == 15 && "exclude_domains"@.len() == 15);
    assert("include_domains"@[0] == 'i');
    assert("exclude_domains"@[0] == 'e');
    assert(json::member_from(m, "freshness"@, 0) == json::member_from(m, "freshness"@, 1));
    assert(json::member_from(m, "summary"@, 0) == json::member_from(m, "summary"@, 2));
    assert(json::member_from(m, "include_domains"@, 0) == json::member_from(m, "include_domains"@, 3));
    assert(json::member_from(m, "exclude_domains"@, 0) == json::member_from(m, "exclude_domains"@, 4));
}

/// Whether a value that is there and not blank is a parameter of that name.
pub open spec fn has_param(
    query: Seq<(Seq<char>, Seq<char>)>,
    name: Seq<char>,
    value: Option<Seq<char>>,
) -> bool {
    value matches Some(v) ==> (text::trim_of(v).len() > 0 ==> query.contains((name, v)))
}

proof fn lemma_with_param(
    params: Seq<(Seq<char>, Seq<char>)>,
    name: Seq<char>,
    value: Option<Seq<char>>,
)
    ensures
        has_param(web_cn_search::with_param(params, name, value), name, value),
        forall|p: (Seq<char>, Seq<char>)|
            params.contains(p) ==> #[trigger] web_cn_search::with_param(params, name, value).contains(
                p,
            ),
{
    let all = web_cn_search::with_param(params, name, value);
    if let Some(v) = value {
        if text::trim_of(v).len() > 0 {
            assert(all[params.len() as int] == (name, v));
        }
    }
    assert forall|p: (Seq<char>, Seq<char>)| params.contains(p) implies #[trigger] all.contains(p) by {
        let i = choose|i: int| 0 <= i < params.len() && params[i] == p;
        assert(all[i] == p);
    }
}

proof fn lemma_anspire_query(
    query: Seq<char>,
    top_k: u32,
    site: Option<Seq<char>>,
    from_time: Option<Seq<char>>,
    to_time: Option<Seq<char>>,
    pro: bool,
)
    ensures
        ({
            let call = web_cn_search::anspire_search_of(query, top_k, site, from_time, to_time, pro);
            &&& !call.post
            &&& call.url == (if pro {
                "https://plugin.anspire.cn/api/ntsearch/prosearch"@
            } else {
                "https://plugin.anspire.cn/api/ntsearch/search"@
            })
            &&& call.query.contains(("query"@, query))
            &&& call.query.contains(("top_k"@, text::decimal(clipped(top_k as int, 50) as nat)))
            &&& has_param(call.query, "Insite"@, site)
            &&& has_param(call.query, "FromTime"@, from_time)
            &&& has_param(call.query, "ToTime"@, to_time)
        }),
{
    let a = seq![
        ("query"@, query),
        ("top_k"@, text::decimal(web_cn_search::within(top_k as int, 50) as nat)),
    ];
    assert(a[0] == ("query"@, query));
    assert(a[1] == ("top_k"@, text::decimal(clipped(top_k as int, 50) as nat)));
    assert(a.contains(a[0]) && a.contains(a[1]));
    let b = web_cn_search::with_param(a, "Insite"@, site);
    let c = web_cn_search::with_param(b, "FromTime"@, from_time);
    lemma_with_param(a, "Insite"@, site);
    lemma_with_param(b, "FromTime"@, from_time);
    lemma_with_param(c, "ToTime"@, to_time);
}

proof fn lemma_jina_query(query: Seq<char>, count: u32, with_content: bool, site: Option<Seq<char>>)
    ensures
        ({
            let call = web_cn_search::jina_search_of(query, count, with_content, site);
            &&& !call.post
            &&& call.url == "https://s.jina.ai/"@
            &&& call.query.contains(("q"@, query))
            &&& call.query.contains(("num"@, text::decimal(clipped(count as int, 20) as nat)))
            &&& call.headers.contains(("x-respond-with"@, "no-content"@)) <==> !with_content
            &&& site matches Some(s) ==> call.headers.contains(("x-site"@, s))
        }),
{
    reveal_strlit("x-respond-with");
    reveal_strlit("accept");
    reveal_strlit("x-site");
    assert("x-respond-with"@.len() == 14 && "accept"@.len() == 6 && "x-site"@.len() == 6);
    let call = web_cn_search::jina_search_of(query, count, with_content, site);
    assert(call.query[0] == ("q"@, query));
    assert(call.query[3] == ("num"@, text::decimal(clipped(count as int, 20) as nat)));
    let brief = ("x-respond-with"@, "no-content"@);
    if !with_content {
        assert(call.headers[1] == brief);
    }
    if call.headers.contains(brief) {
        let i = choose|i: int| 0 <= i < call.headers.len() && call.headers[i] == brief;
        assert(call.headers[i].0.len() == 14);
    }
    if let Some(x) = site {
        let n = call.headers.len() - 1;
        assert(call.headers[n] == ("x-site"@, x));
    }
}

/// Whether a request is the one that an action and its arguments describe: it goes to the provider of
/// the action and carries the query and the other arguments.
pub open spec fn is_search(action: Seq<char>, a: JsonView, p: Provider, call: CallView) -> bool {
    let q = asked_query(a);
    if action == "metaso_search"@ {
        &&& p == Provider::Metaso
        &&& call.url == "https://metaso.cn/api/v1/search"@
        &&& call.body matches Some(body)
        &&& body.text_at("q"@) == Some(q)
        &&& body.unsigned_at("size"@) == Some(asked_limit(a, 100) as u64)
        &&& a.text_at("scope"@) matches Some(scope) ==> body.text_at("scope"@) == Some(scope)
        &&& a.truth_at("include_summary"@) matches Some(b) ==> body.truth_at("includeSummary"@)
            == Some(b)
        &&& a.truth_at("include_raw_content"@) matches Some(b) ==> body.truth_at(
            "includeRawContent"@,
        ) == Some(b)
        &&& a.truth_at("concise_snippet"@) matches Some(b) ==> body.truth_at("conciseSnippet"@)
            == Some(b)
    } else if action == "metaso_chat"@ {
        &&& p == Provider::Metaso
        &&& call.url == "https://metaso.cn/api/v1/chat/completions"@
        &&& call.body matches Some(body)
        &&& a.items_at("messages"@) is Some ==> body.items_at("messages"@) == a.items_at("messages"@)
        &&& a.items_at("messages"@) is None ==> (body.items_at("messages"@) matches Some(messages)
            && messages.len() == 1 && messages[0].text_at("content"@) == Some(q)
            && messages[0].text_at("role"@) == Some("user"@))
        &&& a.text_at("model"@) matches Some(m) ==> body.text_at("model"@) == Some(m)
    } else if action == "bocha_search"@ {
        &&& p == Provider::Bocha
        &&& call.url == "https://api.bocha.cn/v1/web-search"@
        &&& call.body matches Some(body)
        &&& body.text_at("query"@) == Some(q)
        &&& body.text_at("include_domains"@) == a.text_at("include_domains"@)
        &&& body.text_at("exclude_domains"@) == a.text_at("exclude_domains"@)
        &&& a.text_at("freshness"@) matches Some(f) ==> body.text_at("freshness"@) == Some(f)
        &&& a.truth_at("bocha_summary"@) matches Some(b) ==> body.truth_at("summary"@) == Some(b)
    } else if action == "anspire_search"@ || action == "anspire_prosearch"@ {
        &&& p == Provider::Anspire
        &&& action == "anspire_search"@ ==> call.url
            == "https://plugin.anspire.cn/api/ntsearch/search"@
        &&& action == "anspire_prosearch"@ ==> call.url
            == "https://plugin.anspire.cn/api/ntsearch/prosearch"@
        &&& call.query.contains(("query"@, q))
        &&& call.query.contains(("top_k"@, text::decimal(asked_limit(a, 50) as nat)))
        &&& has_param(call.query, "Insite"@, a.text_at("site"@))
        &&& has_param(call.query, "FromTime"@, a.text_at("from_time"@))
        &&& has_param(call.query, "ToTime"@, a.text_at("to_time"@))
    } else {
        &&& action == "jina_search"@ || action == "jina_site_search"@
        &&& p == Provider::Jina
        &&& call.url == "https://s.jina.ai/"@
        &&& call.query.contains(("q"@, q))
        &&& call.query.contains(("num"@, text::decimal(asked_limit(a, 20) as nat)))
        &&& action == "jina_site_search"@ ==> (a.text_at("site"@) matches Some(site)
            && call.headers.contains(("x-site"@, site)))
    }
}

proof fn lemma_actions()
    ensures
        "search"@.len() == 6,
        "metaso_search"@.len() == 13,
        "metaso_chat"@.len() == 11 && "metaso_chat"@[0] == 'm',
        "bocha_search"@.len() == 12,
        "anspire_search"@.len() == 14,
        "anspire_prosearch"@.len() == 17,
        "jina_search"@.len() == 11 && "jina_search"@[0] == 'j',
        "jina_site_search"@.len() == 16,
{
    reveal_strlit("search");
    reveal_strlit("metaso_search");
    reveal_strlit("metaso_chat");
    reveal_strlit("bocha_search");
    reveal_strlit("anspire_search");
    reveal_strlit("anspire_prosearch");
    reveal_strlit("jina_search");
    reveal_strlit("jina_site_search");
}

proof fn lemma_only_message(query: Seq<char>, a: JsonView)
    requires
        a.items_at("messages"@) is None,
    ensures
        ({
            let messages = web_cn_search::messages_of(a, query);
            &&& messages.len() == 1
            &&& messages[0].text_at("content"@) == Some(query)
            &&& messages[0].text_at("role"@) == Some("user"@)
        }),
{
    reveal_with_fuel(json::member_from, 3);
    reveal_strlit("role");
    reveal_strlit("content");
    let m = web_cn_search::messages_of(a, query)[0]->Object_0;
    assert("role"@.len() == 4 && "content"@.len() == 7);
    assert(json::member_from(m, "content"@, 0) == json::member_from(m, "content"@, 1));
}

proof fn lemma_clipped_twice(n: int, max: int)
    requires
        max >= 1,
    ensures
        clipped(clipped(n, max), max) == clipped(n, max),
        web_cn_search::within(n, max) == clipped(n, max),
{
}

/// A call that asks one provider asks the one that its action names, and the request carries the query,
/// trimmed, and what else the arguments say.
pub proof fn law_search_request(a: JsonView, p: Provider, call: CallView)
    requires
        web_cn_search::plan_of(true, a) == Ok::<PlanView, Seq<char>>(PlanView::One(p, call)),
    ensures
        asked_query(a).len() > 0,
        is_search(or_empty(a.text_at("action"@)), a, p, call),
{
    lemma_actions();
    let q = asked_query(a);
    let limit = web_cn_search::u32_of(a, "limit"@, 5) as int;
    lemma_clipped_twice(limit, 100);
    lemma_clipped_twice(limit, 50);
    lemma_clipped_twice(limit, 20);
    lemma_metaso_body(
        q,
        web_cn_search::within(limit, 100) as u32,
        web_cn_search::text_or(a.text_at("scope"@), "webpage"@),
        web_cn_search::bool_of(a, "include_summary"@, true),
        web_cn_search::bool_of(a, "include_raw_content"@, false),
        web_cn_search::bool_of(a, "concise_snippet"@, false),
    );
    lemma_chat_body(
        web_cn_search::messages_of(a, q),
        web_cn_search::text_or(a.text_at("model"@), "fast"@),
        web_cn_search::text_or(a.text_at("chat_format"@), "chat_completions"@),
    );
    if a.items_at("messages"@) is None {
        lemma_only_message(q, a);
    }
    lemma_bocha_body(
        q,
        web_cn_search::text_or(a.text_at("freshness"@), "noLimit"@),
        web_cn_search::bool_of(a, "bocha_summary"@, true),
        a.text_at("include_domains"@),
        a.text_at("exclude_domains"@),
    );
    lemma_anspire_query(
        q,
        web_cn_search::within(limit, 50) as u32,
        a.text_at("site"@),
        a.text_at("from_time"@),
        a.text_at("to_time"@),
        false,
    );
    lemma_anspire_query(
        q,
        web_cn_search::within(limit, 50) as u32,
        a.text_at("site"@),
        a.text_at("from_time"@),
        a.text_at("to_time"@),
        true,
    );
    let content = web_cn_search::bool_of(a, "with_content"@, false);
    lemma_jina_query(q, web_cn_search::within(limit, 20) as u32, content, None);
    lemma_jina_query(q, web_cn_search::within(limit, 20) as u32, content, a.text_at("site"@));
}

/// A call succeeds where it has a query and an action that is known, and no action at all means a
/// search over all providers; only the search on one site needs the site besides.
pub proof fn law_search_refused(accounts: bool, a: JsonView)
    ensures
        ({
            let action = match a.text_at("action"@) {
                Some(x) => x,
                None => "search"@,
            };
            let known = action == "search"@ || action == "metaso_search"@ || action == "metaso_chat"@
                || action == "bocha_search"@ || action == "anspire_search"@ || action
                == "anspire_prosearch"@ || action == "jina_search"@ || action == "jina_site_search"@;
            &&& web_cn_search::plan_of(accounts, a) is Ok <==> accounts && known && asked_query(a).len()
                > 0 && (action == "jina_site_search"@ ==> a.text_at("site"@) is Some)
            &&& web_cn_search::plan_of(accounts, a) matches Ok(plan) ==> (plan is Broad <==> action
                == "search"@)
        }),
{
    lemma_actions();
}

/// A search over all providers is for the query of the call, and for as many results as it wants.
pub proof fn law_broad_search(a: JsonView, b: BroadView)
    requires
        web_cn_search::plan_of(true, a) == Ok::<PlanView, Seq<char>>(PlanView::Broad(b)),
    ensures
        b.query == asked_query(a),
        a.unsigned_at("limit"@) matches Some(n) ==> (1 <= n <= 50 ==> b.limit == n),
        a.unsigned_at("limit"@) is None ==> b.limit == 5,
        1 <= b.limit <= 50,
        b.site == a.text_at("site"@),
        b.freshness == a.text_at("freshness"@),
{
    lemma_actions();
}

/// Whether a request of a search over all providers carries its query to a provider.
pub open spec fn asks_for(b: BroadView, p: Provider, call: CallView) -> bool {
    match p {
        Provider::Metaso => {
            &&& call.url == "https://metaso.cn/api/v1/search"@
            &&& call.body matches Some(body)
            &&& body.text_at("q"@) == Some(b.query)
        },
        Provider::Bocha => {
            &&& call.url == "https://api.bocha.cn/v1/web-search"@
            &&& call.body matches Some(body)
            &&& body.text_at("query"@) == Some(b.query)
            &&& body.text_at("include_domains"@) == b.site
        },
        Provider::Anspire => {
            &&& call.url == "https://plugin.anspire.cn/api/ntsearch/search"@
            &&& call.query.contains(("query"@, b.query))
            &&& has_param(call.query, "Insite"@, b.site)
        },
        Provider::Jina => {
            &&& call.url == "https://s.jina.ai/"@
            &&& call.query.contains(("q"@, b.query))
            &&& b.site matches Some(s) ==> call.headers.contains(("x-site"@, s))
        },
    }
}

/// The keys of a provider.
pub open spec fn has_keys(t: WebCnSearchTool, p: Provider) -> bool {
    match p {
        Provider::Metaso => t.metaso.keys().len() > 0,
        Provider::Bocha => t.bocha.keys().len() > 0,
        Provider::Anspire => t.anspire.keys().len() > 0,
        Provider::Jina => t.jina.keys().len() > 0,
    }
}

/// A search over all providers asks every provider that has a key once, and no other, and each for the
/// query.
pub proof fn law_all_asked(t: WebCnSearchTool, b: BroadView, p: Provider)
    ensures
        has_keys(t, p) <==> exists|i: int|
            0 <= i < t.broad_calls(b).len() && (#[trigger] t.broad_calls(b)[i]).0 == p,
        forall|i: int|
            0 <= i < t.broad_calls(b).len() ==> asks_for(
                b,
                (#[trigger] t.broad_calls(b)[i]).0,
                t.broad_calls(b)[i].1,
            ),
        forall|i: int, j: int|
            0 <= i < j < t.broad_calls(b).len() ==> (#[trigger] t.broad_calls(b)[i]).0 != (
            #[trigger] t.broad_calls(b)[j]).0,
{
    lemma_metaso_body(b.query, b.per, "webpage"@, true, false, true);
    lemma_bocha_body(
        b.query,
        web_cn_search::text_or(b.freshness, "noLimit"@),
        true,
        b.site,
        None,
    );
    lemma_anspire_query(b.query, b.per, b.site, None, None, false);
    lemma_jina_query(b.query, b.per, false, b.site);
    let all = t.broad_calls(b);
    let m = if has_keys(t, Provider::Metaso) {
        1int
    } else {
        0
    };
    let c = if has_keys(t, Provider::Bocha) {
        m + 1
    } else {
        m
    };
    let a = if has_keys(t, Provider::Anspire) {
        c + 1
    } else {
        c
    };
    if has_keys(t, Provider::Metaso) {
        assert(all[0].0 == Provider::Metaso);
    }
    if has_keys(t, Provider::Bocha) {
        assert(all[m].0 == Provider::Bocha);
    }
    if has_keys(t, Provider::Anspire) {
        assert(all[c].0 == Provider::Anspire);
    }
    if has_keys(t, Provider::Jina) {
        assert(all[a].0 == Provider::Jina);
    }
}

/// A provider is asked with keys of its own only.
pub proof fn law_own_keys(t: WebCnSearchTool)
    ensures
        t.keys_of(Provider::Metaso) == t.metaso.keys(),
        t.keys_of(Provider::Bocha) == t.bocha.keys(),
        t.keys_of(Provider::Anspire) == t.anspire.keys(),
        t.keys_of(Provider::Jina) == t.jina.keys(),
{
}

/// The document of a reply is what its body spells; a reply without one is a failure, which tells the
/// status and what came with it.
pub proof fn law_reply(label: Seq<char>, reply: Reply)
    ensures
        web_cn_search::settled(label, reply) is Ok <==> (reply matches Reply::Body(bytes)
            && json::json_document(bytes@) is Ok),
        reply matches Reply::Body(bytes) ==> (json::json_document(bytes@) matches Ok(j)
            ==> web_cn_search::settled(label, reply) == Ok::<JsonView, Seq<char>>(j)),
        reply matches Reply::Failed(e) ==> web_cn_search::settled(label, reply) == Err::<
            JsonView,
            Seq<char>,
        >(e@),
        reply matches Reply::Refused { code, status, body } ==> web_cn_search::settled(label, reply)
            == Err::<JsonView, Seq<char>>(label + " "@ + status@ + " — "@ + body@),
{
}

/// The keys of a provider are those of its own settings that are switched on and not blank; only where
/// there are none does the environment give one.
pub proof fn law_provider_keys(
    p: ApiKeyProviderConfig,
    env: Environment,
    variable: Seq<char>,
    name: Seq<char>,
    i: int,
)
    requires
        0 <= i < web_cn_search::provider_keys(p, env, variable, name).len(),
    ensures
        ({
            let key = web_cn_search::provider_keys(p, env, variable, name)[i].1;
            ||| p.enabled && exists|j: int|
                0 <= j < p.accounts@.len() && (#[trigger] p.accounts@[j]).api_key@ == key
                    && p.accounts@[j].enabled
            ||| env.value(variable) == Some(key) && (p.enabled ==> forall|j: int|
                0 <= j < p.accounts@.len() ==> !(#[trigger] p.accounts@[j]).enabled || text::trim_of(
                    p.accounts@[j].api_key@,
                ).len() == 0)
        }),
{
    if p.enabled {
        if accounts::usable_keys(p.accounts@).len() > 0 {
            lemma_usable_from(p.accounts@, i);
        } else {
            lemma_none_usable(p.accounts@);
        }
    }
}

proof fn lemma_usable_from(entries: Seq<accounts::ApiKeyEntry>, i: int)
    requires
        0 <= i < accounts::usable_keys(entries).len(),
    ensures
        exists|j: int|
            0 <= j < entries.len() && (#[trigger] entries[j]).api_key@ == accounts::usable_keys(
                entries,
            )[i].1 && entries[j].enabled,
    decreases entries.len(),
{
    let rest = entries.drop_last();
    let before = accounts::usable_keys(rest);
    if i < before.len() {
        lemma_usable_from(rest, i);
        let j = choose|j: int|
            0 <= j < rest.len() && (#[trigger] rest[j]).api_key@ == before[i].1 && rest[j].enabled;
        assert(entries[j] == rest[j]);
    } else {
        assert(entries[entries.len() - 1] == entries.last());
    }
}

proof fn lemma_none_usable(entries: Seq<accounts::ApiKeyEntry>)
    requires
        accounts::usable_keys(entries).len() == 0,
    ensures
        forall|j: int|
            0 <= j < entries.len() ==> !(#[trigger] entries[j]).enabled || text::trim_of(
                entries[j].api_key@,
            ).len() == 0,
    decreases entries.len(),
{
    if entries.len() > 0 {
        let rest = entries.drop_last();
        lemma_none_usable(rest);
        assert forall|j: int| 0 <= j < entries.len() implies !(#[trigger] entries[j]).enabled
            || text::trim_of(entries[j].api_key@).len() == 0 by {
            if j < rest.len() {
                assert(rest[j] == entries[j]);
            }
        }
    }
}

// ---- the ranking ----

/// A domain that is trusted much scores above one that is trusted somewhat, that above an unknown one,
/// and that above one that is trusted little.
pub proof fn law_trust(high: Seq<char>, medium: Seq<char>, other: Seq<char>, low: Seq<char>)
    requires
        text::ends(high, "gov.cn"@) || text::ends(high, "edu.cn"@) || text::ends(high, "people.com.cn"@)
            || text::ends(high, "xinhuanet.com"@) || text::ends(high, "cnki.net"@),
        !ranking::high_trust(medium),
        text::ends(medium, "thepaper.cn"@) || text::ends(medium, "caixin.com"@) || text::ends(
            medium,
            "guancha.cn"@,
        ),
        !ranking::high_trust(other) && !ranking::medium_trust(other) && !ranking::low_trust(other),
        !ranking::high_trust(low) && !ranking::medium_trust(low),
        text::ends(low, "baijiahao.baidu.com"@) || text::ends(low, "sohu.com"@) || text::ends(
            low,
            "toutiao.com"@,
        ) || text::ends(low, "csdn.net"@) || text::ends(low, "mp.weixin.qq.com"@),
    ensures
        ranking::domain_score(high) > ranking::domain_score(medium),
        ranking::domain_score(medium) > ranking::domain_score(other),
        ranking::domain_score(other) > ranking::domain_score(low),
        ranking::domain_score(other) == 0,
{
}

/// What is hours old scores above what is days old, that above what is months old, and that above what
/// has no such time.
pub proof fn law_recency(hours: Seq<char>, days: Seq<char>, months: Seq<char>, other: Seq<char>)
    requires
        text::has(hours, "hour"@) || text::has(hours, "小时"@),
        text::has(days, "day"@) || text::has(days, "天"@),
        !text::has(days, "hour"@) && !text::has(days, "小时"@),
        text::has(months, "month"@) || text::has(months, "月"@),
        !text::has(months, "hour"@) && !text::has(months, "小时"@) && !text::has(months, "day"@)
            && !text::has(months, "天"@),
        !text::has(other, "hour"@) && !text::has(other, "小时"@) && !text::has(other, "day"@)
            && !text::has(other, "天"@) && !text::has(other, "month"@) && !text::has(other, "月"@),
    ensures
        ranking::recency_score(hours) > ranking::recency_score(days),
        ranking::recency_score(days) > ranking::recency_score(months),
        ranking::recency_score(months) > ranking::recency_score(other),
        ranking::recency_score(other) == 0,
{
}

/// A search over all providers wants up to fifty results, and twice as many of each provider, but no
/// fewer than five and no more than ten.
pub proof fn law_share(a: JsonView)
    ensures
        web_cn_search::broad_of(a) matches Ok(PlanView::Broad(b)) ==> {
            &&& 1 <= b.limit <= 50
            &&& 5 <= b.per <= 10
            &&& 2 * b.limit < 5 ==> b.per == 5
            &&& 2 * b.limit > 10 ==> b.per == 10
            &&& 5 <= 2 * b.limit <= 10 ==> b.per == 2 * b.limit
            &&& b.site == a.text_at("site"@)
            &&& b.freshness == a.text_at("freshness"@)
        },
{
}

/// As many words count as stand in the title.
pub proof fn law_hits(words: Seq<Seq<char>>, title: Seq<char>)
    ensures
        ranking::hits(words, title) == words.filter(|w: Seq<char>| text::has(title, w)).len(),
    decreases words.len(),
{
    reveal(Seq::filter);
    if words.len() > 0 {
        law_hits(words.drop_last(), title);
    }
}

/// A result is scored by its domain, its time and how many words of the query stand in its title,
/// whatever the letter case; what it says and where it comes from do not count.
pub proof fn law_score(query: Seq<char>, r: ResultView)
    ensures
        ({
            let title = text::lowercase(r.title);
            let found = text::words_of(text::lowercase(query)).filter(
                |w: Seq<char>| text::has(title, w),
            ).len();
            ranking::score_of(query, r) == ranking::total_score(
                ranking::domain_score(text::lowercase(ranking::domain_of(r.url))),
                ranking::recency_score(r.time),
                ranking::title_score(found),
            )
        }),
        forall|snippet: Seq<char>, source: Seq<char>|
            ranking::score_of(query, r) == #[trigger] ranking::score_of(
                query,
                (ResultView { snippet, source, ..r }),
            ),
{
    law_hits(text::words_of(text::lowercase(query)), text::lowercase(r.title));
}

} // verus!
