//! Search results and the order in which they are shown.
//!
//! A score is a sum of single-precision numbers. Every one of them is a multiple of 2^-27, so
//! scores are kept as whole numbers of that unit and rounded the way single precision rounds.

use crate::text;
use vstd::prelude::*;

verus! {

/// A search result.
#[derive(Debug)]
pub struct SearchResult {
    pub title: String,
    pub url: String,
    pub snippet: String,
    pub source: String,
    pub time: String,
}

/// What a search result holds.
pub struct ResultView {
    pub title: Seq<char>,
    pub url: Seq<char>,
    pub snippet: Seq<char>,
    pub source: Seq<char>,
    pub time: Seq<char>,
}

impl View for SearchResult {
    type V = ResultView;

    open spec fn view(&self) -> ResultView {
        ResultView {
            title: self.title@,
            url: self.url@,
            snippet: self.snippet@,
            source: self.source@,
            time: self.time@,
        }
    }
}

/// What a list of search results holds.
pub open spec fn result_views(results: Seq<SearchResult>) -> Seq<ResultView> {
    results.map_values(|r: SearchResult| r@)
}

impl SearchResult {
    /// A copy of the result.
    pub fn copy(&self) -> (r: SearchResult)
        ensures
            r@ == self@,
    {
        SearchResult {
            title: self.title.clone(),
            url: self.url.clone(),
            snippet: self.snippet.clone(),
            source: self.source.clone(),
            time: self.time.clone(),
        }
    }
}

// ---- single precision ----

/// The number of values that 24 bits can tell apart.
pub const MANTISSA: u128 = 16_777_216;

/// The distance between neighbouring single-precision numbers near `a`, where whole numbers below
/// 2^24 are all exact.
pub open spec fn step(a: nat) -> nat
    decreases a,
{
    if a < 16_777_216 {
        1
    } else {
        2 * step(a / 2)
    }
}

/// The single-precision number nearest to `a`; of two equally near ones the even one.
pub open spec fn nearest(a: nat) -> nat {
    let u = step(a);
    let q = a / u;
    let rest = a % u;
    if 2 * rest > u || (2 * rest == u && q % 2 == 1) {
        (q + 1) * u
    } else {
        q * u
    }
}

/// The single-precision number nearest to `n`.
pub open spec fn single(n: int) -> int {
    if n < 0 {
        -(nearest((-n) as nat) as int)
    } else {
        nearest(n as nat) as int
    }
}

proof fn lemma_step(a: nat)
    ensures
        1 <= step(a),
        a >= 1 ==> step(a) <= a,
    decreases a,
{
    if a >= 16_777_216 {
        lemma_step(a / 2);
    }
}

proof fn lemma_nearest(a: nat)
    ensures
        nearest(a) <= 2 * a,
{
    lemma_step(a);
    let u = step(a) as int;
    let q = a as int / u;
    vstd::arithmetic::div_mod::lemma_fundamental_div_mod(a as int, u);
    vstd::arithmetic::div_mod::lemma_mod_bound(a as int, u);
    if a == 0 {
        assert(u == 1);
        assert(nearest(0) == 0);
    } else {
        assert(q * u <= a && (q + 1) * u <= a + u) by (nonlinear_arith)
            requires
                a == u * q + a as int % u,
                0 <= a as int % u,
        ;
        assert(step(a) <= a);
        assert((q + 1) * u <= 2 * a);
    }
}

/// The single-precision number nearest to `a`.
fn round_nearest(a: u128) -> (r: u128)
    requires
        a <= 0x1000_0000_0000_0000_0000_0000_0000,
    ensures
        r == nearest(a as nat),
        r <= 2 * a,
{
    let mut u: u128 = 1;
    let mut b: u128 = a;
    while b >= MANTISSA
        invariant
            step(a as nat) == u * step(b as nat),
            1 <= u,
            u * b <= a,
            a <= 0x1000_0000_0000_0000_0000_0000_0000,
        decreases b,
    {
        proof {
            lemma_step((b / 2) as nat);
            assert(u * 2 <= a) by (nonlinear_arith)
                requires
                    u * b <= a,
                    b >= 2,
                    u >= 1,
            ;
            assert((u * 2) * (b / 2) <= u * b) by (nonlinear_arith)
                requires
                    2 * (b / 2) <= b,
                    u >= 1,
            ;
            let h = step((b / 2) as nat);
            assert(u * (2 * h) == (u * 2) * h) by (nonlinear_arith);
        }
        u = u * 2;
        b = b / 2;
    }
    proof {
        assert(step(b as nat) == 1);
        assert(u * 1 == u) by (nonlinear_arith);
        lemma_nearest(a as nat);
        lemma_step(a as nat);
        vstd::arithmetic::div_mod::lemma_fundamental_div_mod(a as int, u as int);
        vstd::arithmetic::div_mod::lemma_mod_bound(a as int, u as int);
        assert(u <= a + 1);
        assert((a / u) * u <= a && (a / u + 1) * u <= a + u) by (nonlinear_arith)
            requires
                a == u * (a / u) + a % u,
                0 <= a % u,
        ;
    }
    let q: u128 = a / u;
    let rest: u128 = a % u;
    assert(q <= a) by (nonlinear_arith)
        requires
            q * u <= a,
            u >= 1,
            q >= 0,
    ;
    if 2 * rest > u || (2 * rest == u && q % 2 == 1) {
        (q + 1) * u
    } else {
        q * u
    }
}

/// The single-precision number nearest to `n`.
fn round_single(n: i128) -> (r: i128)
    requires
        -0x1000_0000_0000_0000_0000_0000_0000 <= n <= 0x1000_0000_0000_0000_0000_0000_0000,
    ensures
        r == single(n as int),
        n >= 0 ==> 0 <= r <= 2 * n,
        n < 0 ==> 2 * n <= r <= 0,
{
    if n < 0 {
        -(round_nearest((-n) as u128) as i128)
    } else {
        round_nearest(n as u128) as i128
    }
}


// ---- scores ----

/// The part of a URL between its scheme and its path.
pub open spec fn domain_of(url: Seq<char>) -> Seq<char> {
    let rest = match text::find_in(url, "//"@) {
        Some(n) => url.skip(n + 2),
        None => url,
    };
    rest.take(text::lead(rest, text::all_but('/')) as int)
}

/// The part of a URL between its scheme and its path.
pub fn url_domain(url: &str) -> (r: &str)
    ensures
        r@ == domain_of(url@),
{
    let rest = match text::find(url, "//") {
        Some(n) => {
            let total: usize = url.unicode_len();
            proof {
                reveal_strlit("//");
            }
            url.substring_char(n + 2, total)
        },
        None => url,
    };
    let cs = text::chars_of(rest);
    let mut i: usize = 0;
    while i < cs.len() && cs[i] != '/'
        invariant
            cs@ == rest@,
            i <= cs@.len(),
            forall|j: int| 0 <= j < i ==> text::all_but('/')(#[trigger] rest@[j]),
        decreases cs@.len() - i,
    {
        i += 1;
    }
    proof {
        text::lemma_lead(rest@, text::all_but('/'), i as int);
        assert(rest@.take(i as int) =~= rest@.subrange(0, i as int));
    }
    rest.substring_char(0, i)
}

/// Domains that are trusted much.
pub open spec fn high_trust(domain: Seq<char>) -> bool {
    ||| text::ends(domain, "gov.cn"@)
    ||| text::ends(domain, "moe.gov.cn"@)
    ||| text::ends(domain, "people.com.cn"@)
    ||| text::ends(domain, "news.cn"@)
    ||| text::ends(domain, "xinhuanet.com"@)
    ||| text::ends(domain, "gmw.cn"@)
    ||| text::ends(domain, "qstheory.cn"@)
    ||| text::ends(domain, "jyb.cn"@)
    ||| text::ends(domain, "edu.cn"@)
    ||| text::ends(domain, "cnki.net"@)
    ||| text::ends(domain, "cssn.cn"@)
    ||| text::ends(domain, "cass.cn"@)
}

/// Domains that are trusted somewhat.
pub open spec fn medium_trust(domain: Seq<char>) -> bool {
    ||| text::ends(domain, "thepaper.cn"@)
    ||| text::ends(domain, "caixin.com"@)
    ||| text::ends(domain, "guancha.cn"@)
    ||| text::ends(domain, "chinanews.com.cn"@)
    ||| text::ends(domain, "jyb.com.cn"@)
}

/// Domains that are trusted little.
pub open spec fn low_trust(domain: Seq<char>) -> bool {
    ||| text::ends(domain, "baijiahao.baidu.com"@)
    ||| text::ends(domain, "sohu.com"@)
    ||| text::ends(domain, "toutiao.com"@)
    ||| text::ends(domain, "csdn.net"@)
    ||| text::ends(domain, "mp.weixin.qq.com"@)
}

/// The score of a domain in lower case: two, one, minus three tenths or nothing.
pub open spec fn domain_score(domain: Seq<char>) -> int {
    if high_trust(domain) {
        268_435_456
    } else if medium_trust(domain) {
        134_217_728
    } else if low_trust(domain) {
        -40_265_320
    } else {
        0
    }
}

/// The score of a domain in lower case.
pub fn score_domain_name(domain: &str) -> (r: i128)
    ensures
        r == domain_score(domain@),
{
    if text::ends_with(domain, "gov.cn") || text::ends_with(domain, "moe.gov.cn") || text::ends_with(domain, "people.com.cn") || text::ends_with(domain, "news.cn") || text::ends_with(domain, "xinhuanet.com") || text::ends_with(domain, "gmw.cn") || text::ends_with(domain, "qstheory.cn") || text::ends_with(domain, "jyb.cn") || text::ends_with(domain, "edu.cn") || text::ends_with(domain, "cnki.net") || text::ends_with(domain, "cssn.cn") || text::ends_with(domain, "cass.cn") {
        268_435_456
    } else if text::ends_with(domain, "thepaper.cn") || text::ends_with(domain, "caixin.com") || text::ends_with(domain, "guancha.cn") || text::ends_with(domain, "chinanews.com.cn") || text::ends_with(domain, "jyb.com.cn") {
        134_217_728
    } else if text::ends_with(domain, "baijiahao.baidu.com") || text::ends_with(domain, "sohu.com") || text::ends_with(domain, "toutiao.com") || text::ends_with(domain, "csdn.net") || text::ends_with(domain, "mp.weixin.qq.com") {
        -40_265_320
    } else {
        0
    }
}

/// The score of a URL: that of its domain, whatever the letter case.
pub fn score_domain(url: &str) -> (r: i128)
    ensures
        r == domain_score(text::lowercase(domain_of(url@))),
        -40_265_320 <= r <= 268_435_456,
{
    let domain = text::to_lowercase(url_domain(url));
    score_domain_name(domain.as_str())
}

/// The score of a time that a provider gives: eight tenths for hours, four tenths for days, one
/// tenth for months.
pub open spec fn recency_score(time: Seq<char>) -> int {
    if text::has(time, "hour"@) || text::has(time, "小时"@) {
        107_374_184
    } else if text::has(time, "day"@) || text::has(time, "天"@) {
        53_687_092
    } else if text::has(time, "month"@) || text::has(time, "月"@) {
        13_421_773
    } else {
        0
    }
}

/// The score of a time that a provider gives.
pub fn score_recency(time: &str) -> (r: i128)
    ensures
        r == recency_score(time@),
        0 <= r <= 107_374_184,
{
    if text::contains(time, "hour") || text::contains(time, "小时") {
        107_374_184
    } else if text::contains(time, "day") || text::contains(time, "天") {
        53_687_092
    } else if text::contains(time, "month") || text::contains(time, "月") {
        13_421_773
    } else {
        0
    }
}

/// How many of the words stand in the title.
pub open spec fn hits(words: Seq<Seq<char>>, title: Seq<char>) -> nat
    decreases words.len(),
{
    if words.len() == 0 {
        0
    } else {
        hits(words.drop_last(), title) + (if text::has(title, words.last()) {
            1nat
        } else {
            0
        })
    }
}

/// The score of a title for a number of words found in it: four tenths for each.
pub open spec fn title_score(found: nat) -> int {
    single(single(found as int) * 53_687_092)
}

/// How many words of the query stand in the title.
pub fn count_hits(query: &str, title: &str) -> (r: usize)
    ensures
        r == hits(text::words_of(query@), title@),
{
    let words = text::split_words(query);
    let ghost all = text::words_of(query@);
    let mut n: usize = 0;
    let mut i: usize = 0;
    while i < words.len()
        invariant
            i <= words@.len(),
            n <= i,
            all == text::views(words@),
            n == hits(all.take(i as int), title@),
        decreases words@.len() - i,
    {
        assert(all.take(i + 1).drop_last() =~= all.take(i as int));
        assert(all.take(i + 1).last() == words@[i as int]@);
        if text::contains(title, words[i].as_str()) {
            n += 1;
        }
        i += 1;
    }
    assert(all.take(i as int) =~= all);
    n
}

/// The score of a title for a number of words found in it.
fn score_found(found: usize) -> (r: i128)
    ensures
        r == title_score(found as nat),
        0 <= r <= 0x1000_0000_0000_0000_0000_0000,
{
    let n: i128 = round_single(found as i128);
    assert(n * 53_687_092 <= 0x2_0000_0000_0000_0000 * 53_687_092) by (nonlinear_arith)
        requires
            n <= 0x2_0000_0000_0000_0000,
    ;
    round_single(n * 53_687_092)
}

/// The score of a title for a query, whatever the letter case.
pub fn score_title(query: &str, title: &str) -> (r: i128)
    ensures
        r == title_score(hits(text::words_of(text::lowercase(query@)), text::lowercase(title@))),
        0 <= r <= 0x1000_0000_0000_0000_0000_0000,
{
    let q = text::to_lowercase(query);
    let t = text::to_lowercase(title);
    score_found(count_hits(q.as_str(), t.as_str()))
}

/// The sum of three scores, added from the left.
pub open spec fn total_score(domain: int, recency: int, title: int) -> int {
    single(single(domain + recency) + title)
}

/// The score of a result for a query.
pub open spec fn score_of(query: Seq<char>, r: ResultView) -> int {
    total_score(
        domain_score(text::lowercase(domain_of(r.url))),
        recency_score(r.time),
        title_score(hits(text::words_of(text::lowercase(query)), text::lowercase(r.title))),
    )
}

/// The score of a result for a query.
pub fn score(query: &str, result: &SearchResult) -> (r: i128)
    ensures
        r == score_of(query@, result@),
{
    let d: i128 = score_domain(result.url.as_str());
    let t: i128 = score_recency(result.time.as_str());
    let n: i128 = score_title(query, result.title.as_str());
    let first: i128 = round_single(d + t);
    round_single(first + n)
}

/// The scores of results for a query.
pub open spec fn scores_of(query: Seq<char>, results: Seq<ResultView>) -> Seq<int> {
    results.map_values(|r: ResultView| score_of(query, r))
}

// ---- the order ----

/// Whether the result at `x` comes before the one at `y`: it has the higher score, or the same
/// score and came first.
pub open spec fn comes_first(scores: Seq<int>, x: int, y: int) -> bool {
    scores[x] > scores[y] || (scores[x] == scores[y] && x < y)
}

/// Whether `order` lists the positions of the scores from the best to the worst, equal ones as
/// they came.
pub open spec fn is_ranking(scores: Seq<int>, order: Seq<int>) -> bool {
    &&& order.len() == scores.len()
    &&& forall|i: int| 0 <= i < order.len() ==> 0 <= #[trigger] order[i] < scores.len()
    &&& forall|i: int, j: int|
        0 <= i < j < order.len() ==> comes_first(scores, #[trigger] order[i], #[trigger] order[j])
}

proof fn lemma_covers(scores: Seq<int>, order: Seq<int>, x: int) -> (i: int)
    requires
        is_ranking(scores, order),
        0 <= x < scores.len(),
    ensures
        0 <= i < order.len(),
        order[i] == x,
{
    let n = scores.len() as int;
    assert(order.no_duplicates()) by {
        assert forall|i: int, j: int| 0 <= i < j < order.len() implies order[i] != order[j] by {
            assert(comes_first(scores, order[i], order[j]));
        }
    }
    order.unique_seq_to_set();
    vstd::set_lib::lemma_int_range(0, n);
    let all = vstd::set_lib::set_int_range(0, n);
    assert(order.to_set().subset_of(all));
    vstd::set_lib::lemma_len_subset(order.to_set(), all);
    vstd::set_lib::lemma_subset_equality(order.to_set(), all);
    assert(all.contains(x));
    assert(order.to_set().contains(x));
    choose|i: int| 0 <= i < order.len() && order[i] == x
}

proof fn lemma_same_start(scores: Seq<int>, a: Seq<int>, b: Seq<int>, k: int)
    requires
        is_ranking(scores, a),
        is_ranking(scores, b),
        0 <= k <= a.len(),
    ensures
        forall|i: int| 0 <= i < k ==> a[i] == b[i],
    decreases k,
{
    if k > 0 {
        lemma_same_start(scores, a, b, k - 1);
        let m = k - 1;
        let p = lemma_covers(scores, b, a[m]);
        let q = lemma_covers(scores, a, b[m]);
        if p < m {
            assert(a[p] == b[p]);
            assert(comes_first(scores, a[p], a[m]));
        }
        if q < m {
            assert(a[q] == b[q]);
            assert(comes_first(scores, b[q], b[m]));
        }
        if p > m && q > m {
            assert(comes_first(scores, b[m], b[p]));
            assert(comes_first(scores, a[m], a[q]));
        }
    }
}

/// Scores have one ranking only.
pub proof fn law_one_ranking(scores: Seq<int>, a: Seq<int>, b: Seq<int>)
    requires
        is_ranking(scores, a),
        is_ranking(scores, b),
    ensures
        a == b,
{
    lemma_same_start(scores, a, b, a.len() as int);
    assert(a =~= b);
}

/// What a list of positions holds.
pub open spec fn positions(order: Seq<usize>) -> Seq<int> {
    order.map_values(|i: usize| i as int)
}

/// What a list of scores holds.
pub open spec fn score_values(scores: Seq<i128>) -> Seq<int> {
    scores.map_values(|i: i128| i as int)
}

/// The positions of the scores from the best to the worst, equal ones as they came.
pub fn ranking(scores: &Vec<i128>) -> (r: Vec<usize>)
    ensures
        is_ranking(score_values(scores@), positions(r@)),
{
    let ghost all = score_values(scores@);
    let mut order: Vec<usize> = Vec::new();
    let mut i: usize = 0;
    while i < scores.len()
        invariant
            i <= scores@.len(),
            all == score_values(scores@),
            order@.len() == i,
            forall|a: int| 0 <= a < order@.len() ==> #[trigger] order@[a] < i,
            forall|a: int, b: int|
                0 <= a < b < order@.len() ==> comes_first(
                    all,
                    #[trigger] order@[a] as int,
                    #[trigger] order@[b] as int,
                ),
        decreases scores@.len() - i,
    {
        let mut at: usize = 0;
        while at < order.len() && scores[order[at]] >= scores[i]
            invariant
                i < scores@.len(),
                at <= order@.len(),
                all == score_values(scores@),
                forall|a: int| 0 <= a < order@.len() ==> #[trigger] order@[a] < i,
                forall|a: int| 0 <= a < at ==> comes_first(all, #[trigger] order@[a] as int, i as int),
            decreases order@.len() - at,
        {
            at += 1;
        }
        let ghost before = order@;
        order.insert(at, i);
        proof {
            assert forall|a: int, b: int| 0 <= a < b < order@.len() implies comes_first(
                all,
                #[trigger] order@[a] as int,
                #[trigger] order@[b] as int,
            ) by {
                assert(order@ == before.insert(at as int, i));
                if at < before.len() {
                    assert(all[before[at as int] as int] < all[i as int]);
                }
                if a == at {
                    let c = before[b - 1];
                    assert(order@[b] == c);
                    if b - 1 > at {
                        assert(comes_first(all, before[at as int] as int, c as int));
                    }
                } else if b == at {
                    assert(order@[a] == before[a]);
                } else {
                    let x = if a < at {
                        a
                    } else {
                        a - 1
                    };
                    let y = if b < at {
                        b
                    } else {
                        b - 1
                    };
                    assert(order@[a] == before[x]);
                    assert(order@[b] == before[y]);
                    assert(comes_first(all, before[x] as int, before[y] as int));
                }
            }
        }
        i += 1;
    }
    proof {
        let p = positions(order@);
        assert forall|a: int, b: int| 0 <= a < b < p.len() implies comes_first(
            all,
            #[trigger] p[a],
            #[trigger] p[b],
        ) by {
            assert(comes_first(all, order@[a] as int, order@[b] as int));
        }
    }
    order
}

/// The results at the positions that `order` lists.
pub open spec fn picked(results: Seq<ResultView>, order: Seq<int>) -> Seq<ResultView> {
    order.map_values(|i: int| results[i])
}

/// The first `limit` positions.
pub open spec fn first_of(order: Seq<int>, limit: nat) -> Seq<int> {
    order.take(
        if limit <= order.len() {
            limit as int
        } else {
            order.len() as int
        },
    )
}

/// Whether `best` holds the at most `limit` best of the results, the best first and equal ones as
/// they came.
pub open spec fn are_best(
    results: Seq<ResultView>,
    scores: Seq<int>,
    limit: nat,
    best: Seq<ResultView>,
) -> bool {
    exists|order: Seq<int>|
        #[trigger] is_ranking(scores, order) && best == picked(results, first_of(order, limit))
}

/// The at most `limit` best of the results by the given scores, the best first and equal ones as
/// they came.
pub fn take_best(results: &Vec<SearchResult>, scores: &Vec<i128>, limit: usize) -> (r: Vec<
    SearchResult,
>)
    requires
        results@.len() == scores@.len(),
    ensures
        are_best(result_views(results@), score_values(scores@), limit as nat, result_views(r@)),
{
    let order = ranking(scores);
    let ghost all = positions(order@);
    assert(is_ranking(score_values(scores@), all));
    let n: usize = if limit <= order.len() {
        limit
    } else {
        order.len()
    };
    let mut out: Vec<SearchResult> = Vec::new();
    let mut i: usize = 0;
    while i < n
        invariant
            i <= n <= order@.len(),
            out@.len() == i,
            all == positions(order@),
            results@.len() == scores@.len(),
            is_ranking(score_values(scores@), all),
            forall|k: int| 0 <= k < i ==> (#[trigger] out@[k])@ == results@[all[k]]@,
        decreases n - i,
    {
        assert(all[i as int] == order@[i as int]);
        out.push(results[order[i]].copy());
        i += 1;
    }
    proof {
        let p = picked(result_views(results@), first_of(all, limit as nat));
        assert(result_views(out@) =~= p) by {
            assert forall|k: int| 0 <= k < n implies result_views(out@)[k] == p[k] by {
                assert(out@[k]@ == results@[all[k]]@);
                assert(0 <= all[k] < results@.len());
            }
        }
    }
    out
}

/// The at most `limit` best results for a query, the best first and equal ones as they came.
pub fn rerank(results: &Vec<SearchResult>, query: &str, limit: usize) -> (r: Vec<SearchResult>)
    ensures
        are_best(
            result_views(results@),
            scores_of(query@, result_views(results@)),
            limit as nat,
            result_views(r@),
        ),
{
    let mut scores: Vec<i128> = Vec::new();
    let mut i: usize = 0;
    while i < results.len()
        invariant
            i <= results@.len(),
            scores@.len() == i,
            forall|k: int| 0 <= k < i ==> #[trigger] scores@[k] == score_of(query@, results@[k]@),
        decreases results@.len() - i,
    {
        scores.push(score(query, &results[i]));
        i += 1;
    }
    assert(score_values(scores@) =~= scores_of(query@, result_views(results@)));
    take_best(results, &scores, limit)
}

/// A list of best results is as long as the limit allows and holds results only.
pub proof fn law_best_size(
    results: Seq<ResultView>,
    scores: Seq<int>,
    limit: nat,
    best: Seq<ResultView>,
)
    requires
        results.len() == scores.len(),
        are_best(results, scores, limit, best),
    ensures
        best.len() == (if limit <= results.len() {
            limit
        } else {
            results.len()
        }),
        forall|i: int| 0 <= i < best.len() ==> results.contains(#[trigger] best[i]),
{
    let order = choose|order: Seq<int>|
        #[trigger] is_ranking(scores, order) && best == picked(results, first_of(order, limit));
    assert forall|i: int| 0 <= i < best.len() implies results.contains(#[trigger] best[i]) by {
        assert(best[i] == results[order[i]]);
    }
}

/// A result that is not among the best comes after every one of them.
pub proof fn law_best_first(
    results: Seq<ResultView>,
    scores: Seq<int>,
    limit: nat,
    best: Seq<ResultView>,
    left_out: int,
    i: int,
)
    requires
        results.len() == scores.len(),
        are_best(results, scores, limit, best),
        0 <= left_out < results.len(),
        !best.contains(results[left_out]),
        0 <= i < best.len(),
    ensures
        exists|y: int|
            0 <= y < results.len() && results[y] == best[i] && #[trigger] comes_first(
                scores,
                y,
                left_out,
            ),
{
    let order = choose|order: Seq<int>|
        #[trigger] is_ranking(scores, order) && best == picked(results, first_of(order, limit));
    let p = lemma_covers(scores, order, left_out);
    if p < best.len() {
        assert(best[p] == results[left_out]);
        assert(best.contains(results[left_out]));
    }
    assert(comes_first(scores, order[i], order[p]));
}

} // verus!
