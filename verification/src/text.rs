//! Text primitives: Unicode strings seen as sequences of characters.

use vstd::prelude::*;

verus! {

/// `String::push` appends the given character to the end of the string.
pub assume_specification[ String::push ](s: &mut String, c: char)
    ensures
        final(s)@ == old(s)@.push(c),
;

/// The characters with the Unicode property `White_Space`.
pub open spec fn is_white(c: char) -> bool {
    let n = c as u32;
    ||| 0x09 <= n <= 0x0d
    ||| n == 0x20
    ||| n == 0x85
    ||| n == 0xa0
    ||| n == 0x1680
    ||| 0x2000 <= n <= 0x200a
    ||| n == 0x2028
    ||| n == 0x2029
    ||| n == 0x202f
    ||| n == 0x205f
    ||| n == 0x3000
}

/// Whether `c` is white space.
pub fn is_whitespace(c: char) -> (r: bool)
    ensures
        r == is_white(c),
{
    let n: u32 = c as u32;
    (0x09 <= n && n <= 0x0d) || n == 0x20 || n == 0x85 || n == 0xa0 || n == 0x1680
        || (0x2000 <= n && n <= 0x200a) || n == 0x2028 || n == 0x2029 || n == 0x202f || n == 0x205f
        || n == 0x3000
}

/// The characters of `s`, in order.
pub fn chars_of(s: &str) -> (r: Vec<char>)
    ensures
        r@ == s@,
{
    let mut out: Vec<char> = Vec::new();
    for c in it: s.chars()
        invariant
            out@ == s@.take(it.index()),
            it.seq() == s@,
    {
        proof {
            assert(s@.take(it.index() + 1) == s@.take(it.index()).push(s@[it.index()]));
        }
        out.push(c);
    }
    assert(s@.take(s@.len() as int) == s@);
    out
}

/// `std::str::from_utf8` accepts exactly the well-formed UTF-8 byte sequences, and hands out the
/// characters that they encode.
#[verifier::external_body]
pub(crate) fn utf8_text(bytes: &[u8]) -> (r: Option<String>)
    ensures
        r is Some <==> vstd::utf8::valid_utf8(bytes@),
        r matches Some(s) ==> s@ == vstd::utf8::decode_utf8(bytes@),
{
    match std::str::from_utf8(bytes) {
        Ok(s) => Some(s.to_string()),
        Err(_) => None,
    }
}

// ---- runs of characters ----

/// The length of the longest prefix of `s` in which every character satisfies `p`.
pub open spec fn lead(s: Seq<char>, p: spec_fn(char) -> bool) -> nat
    decreases s.len(),
{
    if s.len() > 0 && p(s[0]) {
        1 + lead(s.skip(1), p)
    } else {
        0
    }
}

/// The length of the longest suffix of `s` in which every character satisfies `p`.
pub open spec fn trail(s: Seq<char>, p: spec_fn(char) -> bool) -> nat
    decreases s.len(),
{
    if s.len() > 0 && p(s.last()) {
        1 + trail(s.drop_last(), p)
    } else {
        0
    }
}

/// The run at the start of `s` is the one that ends where `p` first fails.
pub proof fn lemma_lead(s: Seq<char>, p: spec_fn(char) -> bool, n: int)
    requires
        0 <= n <= s.len(),
        forall|i: int| 0 <= i < n ==> p(#[trigger] s[i]),
        n == s.len() || !p(s[n]),
    ensures
        lead(s, p) == n,
    decreases s.len(),
{
    if n > 0 {
        assert(p(s[0]));
        assert forall|i: int| 0 <= i < n - 1 implies p(#[trigger] s.skip(1)[i]) by {
            assert(s.skip(1)[i] == s[i + 1]);
        }
        lemma_lead(s.skip(1), p, n - 1);
    }
}

/// What the run at the start of `s` is.
pub proof fn lemma_lead_bounds(s: Seq<char>, p: spec_fn(char) -> bool)
    ensures
        lead(s, p) <= s.len(),
        forall|i: int| 0 <= i < lead(s, p) ==> p(#[trigger] s[i]),
        lead(s, p) < s.len() ==> !p(s[lead(s, p) as int]),
    decreases s.len(),
{
    if s.len() > 0 && p(s[0]) {
        lemma_lead_bounds(s.skip(1), p);
        assert forall|i: int| 0 <= i < lead(s, p) implies p(#[trigger] s[i]) by {
            if i > 0 {
                assert(s[i] == s.skip(1)[i - 1]);
            }
        }
    }
}

/// The run at the end of `s` is the one that starts after the last place where `p` fails.
pub proof fn lemma_trail(s: Seq<char>, p: spec_fn(char) -> bool, n: int)
    requires
        0 <= n <= s.len(),
        forall|i: int| s.len() - n <= i < s.len() ==> p(#[trigger] s[i]),
        n == s.len() || !p(s[s.len() - n - 1]),
    ensures
        trail(s, p) == n,
    decreases s.len(),
{
    if n > 0 {
        assert(p(s[s.len() - 1]));
        lemma_trail(s.drop_last(), p, n - 1);
    }
}

/// What the run at the end of `s` is.
pub proof fn lemma_trail_bounds(s: Seq<char>, p: spec_fn(char) -> bool)
    ensures
        trail(s, p) <= s.len(),
        forall|i: int| s.len() - trail(s, p) <= i < s.len() ==> p(#[trigger] s[i]),
        trail(s, p) < s.len() ==> !p(s[s.len() - trail(s, p) - 1]),
    decreases s.len(),
{
    if s.len() > 0 && p(s.last()) {
        lemma_trail_bounds(s.drop_last(), p);
        assert forall|i: int| s.len() - trail(s, p) <= i < s.len() implies p(#[trigger] s[i]) by {
            if i < s.len() - 1 {
                assert(s[i] == s.drop_last()[i]);
            }
        }
    }
}

/// White space, as a predicate.
pub open spec fn white() -> spec_fn(char) -> bool {
    |c: char| is_white(c)
}

/// Anything but white space, as a predicate.
pub open spec fn not_white() -> spec_fn(char) -> bool {
    |c: char| !is_white(c)
}

/// Exactly the character `x`, as a predicate.
pub open spec fn exactly(x: char) -> spec_fn(char) -> bool {
    |c: char| c == x
}

/// Any character but `x`, as a predicate.
pub open spec fn all_but(x: char) -> spec_fn(char) -> bool {
    |c: char| c != x
}

/// `s` without its leading white space.
pub open spec fn trim_start_of(s: Seq<char>) -> Seq<char> {
    s.skip(lead(s, white()) as int)
}

/// `s` without its trailing white space.
pub open spec fn trim_end_of(s: Seq<char>) -> Seq<char> {
    s.take(s.len() - trail(s, white()))
}

/// `s` without white space at either end.
pub open spec fn trim_of(s: Seq<char>) -> Seq<char> {
    trim_end_of(trim_start_of(s))
}

/// `s` without any `x` at its start.
pub open spec fn trim_start_char_of(s: Seq<char>, x: char) -> Seq<char> {
    s.skip(lead(s, exactly(x)) as int)
}

/// `s` without any `x` at its end.
pub open spec fn trim_end_char_of(s: Seq<char>, x: char) -> Seq<char> {
    s.take(s.len() - trail(s, exactly(x)))
}

/// `s` without any `x` at either end.
pub open spec fn trim_char_of(s: Seq<char>, x: char) -> Seq<char> {
    trim_end_char_of(trim_start_char_of(s, x), x)
}

/// `s` without its leading white space.
pub fn trim_start(s: &str) -> (r: &str)
    ensures
        r@ == trim_start_of(s@),
{
    let cs = chars_of(s);
    let mut i: usize = 0;
    while i < cs.len() && is_whitespace(cs[i])
        invariant
            cs@ == s@,
            i <= cs@.len(),
            forall|j: int| 0 <= j < i ==> white()(#[trigger] s@[j]),
        decreases cs@.len() - i,
    {
        i += 1;
    }
    proof {
        lemma_lead(s@, white(), i as int);
    }
    s.substring_char(i, cs.len())
}

/// `s` without its trailing white space.
pub fn trim_end(s: &str) -> (r: &str)
    ensures
        r@ == trim_end_of(s@),
{
    let cs = chars_of(s);
    let mut n: usize = cs.len();
    while n > 0 && is_whitespace(cs[n - 1])
        invariant
            cs@ == s@,
            n <= cs@.len(),
            forall|j: int| n <= j < cs@.len() ==> white()(#[trigger] s@[j]),
        decreases n,
    {
        n -= 1;
    }
    proof {
        lemma_trail(s@, white(), s@.len() - n);
    }
    s.substring_char(0, n)
}

/// `s` without white space at either end.
pub fn trim(s: &str) -> (r: &str)
    ensures
        r@ == trim_of(s@),
{
    trim_end(trim_start(s))
}

/// `s` without any `x` at its start.
pub fn trim_start_char(s: &str, x: char) -> (r: &str)
    ensures
        r@ == trim_start_char_of(s@, x),
{
    let cs = chars_of(s);
    let mut i: usize = 0;
    while i < cs.len() && cs[i] == x
        invariant
            cs@ == s@,
            i <= cs@.len(),
            forall|j: int| 0 <= j < i ==> exactly(x)(#[trigger] s@[j]),
        decreases cs@.len() - i,
    {
        i += 1;
    }
    proof {
        lemma_lead(s@, exactly(x), i as int);
    }
    s.substring_char(i, cs.len())
}

/// `s` without any `x` at its end.
pub fn trim_end_char(s: &str, x: char) -> (r: &str)
    ensures
        r@ == trim_end_char_of(s@, x),
{
    let cs = chars_of(s);
    let mut n: usize = cs.len();
    while n > 0 && cs[n - 1] == x
        invariant
            cs@ == s@,
            n <= cs@.len(),
            forall|j: int| n <= j < cs@.len() ==> exactly(x)(#[trigger] s@[j]),
        decreases n,
    {
        n -= 1;
    }
    proof {
        lemma_trail(s@, exactly(x), s@.len() - n);
    }
    s.substring_char(0, n)
}

/// `s` without any `x` at either end.
pub fn trim_char(s: &str, x: char) -> (r: &str)
    ensures
        r@ == trim_char_of(s@, x),
{
    trim_end_char(trim_start_char(s, x), x)
}

// ---- comparing and searching ----

/// Whether two strings hold the same characters.
pub fn str_eq(a: &str, b: &str) -> (r: bool)
    ensures
        r == (a@ == b@),
{
    let x = chars_of(a);
    let y = chars_of(b);
    if x.len() != y.len() {
        return false;
    }
    let mut i: usize = 0;
    while i < x.len()
        invariant
            x@ == a@,
            y@ == b@,
            i <= x@.len(),
            x@.len() == y@.len(),
            forall|j: int| 0 <= j < i ==> x@[j] == y@[j],
        decreases x@.len() - i,
    {
        if x[i] != y[i] {
            assert(a@[i as int] != b@[i as int]);
            return false;
        }
        i += 1;
    }
    assert(a@ =~= b@);
    true
}

/// Whether `p` stands in `s` at the position `i`.
pub open spec fn occurs_at(s: Seq<char>, p: Seq<char>, i: int) -> bool {
    0 <= i && i + p.len() <= s.len() && s.subrange(i, i + p.len()) == p
}

/// The first position at or after `i` at which `p` stands in `s`.
pub open spec fn find_from(s: Seq<char>, p: Seq<char>, i: int) -> Option<int>
    decreases s.len() + 1 - i,
{
    if i < 0 || i + p.len() > s.len() {
        None
    } else if occurs_at(s, p, i) {
        Some(i)
    } else {
        find_from(s, p, i + 1)
    }
}

/// The first position at which `p` stands in `s`.
pub open spec fn find_in(s: Seq<char>, p: Seq<char>) -> Option<int> {
    find_from(s, p, 0)
}

/// Whether `p` stands somewhere in `s`.
pub open spec fn has(s: Seq<char>, p: Seq<char>) -> bool {
    find_in(s, p) is Some
}

/// Whether `s` starts with `p`.
pub open spec fn begins(s: Seq<char>, p: Seq<char>) -> bool {
    occurs_at(s, p, 0)
}

/// Whether `s` ends with `p`.
pub open spec fn ends(s: Seq<char>, p: Seq<char>) -> bool {
    occurs_at(s, p, s.len() - p.len())
}

/// The first place is where `p` stands and does not stand before.
pub proof fn lemma_find(s: Seq<char>, p: Seq<char>, i: int)
    requires
        0 <= i,
    ensures
        find_from(s, p, i) matches Some(n) ==> i <= n && occurs_at(s, p, n) && (forall|k: int|
            i <= k < n ==> !#[trigger] occurs_at(s, p, k)),
        find_from(s, p, i) is None ==> (forall|k: int| i <= k ==> !#[trigger] occurs_at(s, p, k)),
    decreases s.len() + 1 - i,
{
    if i + p.len() <= s.len() && !occurs_at(s, p, i) {
        lemma_find(s, p, i + 1);
    }
}

fn matches_at(s: &Vec<char>, p: &Vec<char>, i: usize) -> (r: bool)
    requires
        i <= s@.len(),
    ensures
        r == occurs_at(s@, p@, i as int),
{
    let n: usize = s.len();
    if p.len() > n - i {
        return false;
    }
    let mut k: usize = 0;
    while k < p.len()
        invariant
            n == s@.len(),
            k <= p@.len(),
            i + p@.len() <= s@.len(),
            forall|j: int| 0 <= j < k ==> s@[i + j] == p@[j],
        decreases p@.len() - k,
    {
        if s[i + k] != p[k] {
            assert(s@.subrange(i as int, i + p@.len())[k as int] != p@[k as int]);
            return false;
        }
        k += 1;
    }
    assert(s@.subrange(i as int, i + p@.len()) =~= p@);
    true
}

/// The first position, counted in characters, at which `p` stands in `s`.
pub fn find(s: &str, p: &str) -> (r: Option<usize>)
    ensures
        r matches Some(n) ==> find_in(s@, p@) == Some(n as int) && n + p@.len() <= s@.len(),
        r is None <==> find_in(s@, p@) is None,
{
    let cs = chars_of(s);
    let ps = chars_of(p);
    let mut i: usize = 0;
    while i <= cs.len() && ps.len() <= cs.len() - i
        invariant
            cs@ == s@,
            ps@ == p@,
            find_from(s@, p@, 0) == find_from(s@, p@, i as int),
            i <= cs@.len() + 1,
        decreases cs@.len() + 1 - i,
    {
        if matches_at(&cs, &ps, i) {
            return Some(i);
        }
        if i == cs.len() {
            assert(find_from(s@, p@, i + 1) is None);
            return None;
        }
        i += 1;
    }
    None
}

/// Whether `p` stands somewhere in `s`.
pub fn contains(s: &str, p: &str) -> (r: bool)
    ensures
        r == has(s@, p@),
{
    find(s, p).is_some()
}

/// Whether `s` starts with `p`.
pub fn starts_with(s: &str, p: &str) -> (r: bool)
    ensures
        r == begins(s@, p@),
{
    matches_at(&chars_of(s), &chars_of(p), 0)
}

/// Whether `s` ends with `p`.
pub fn ends_with(s: &str, p: &str) -> (r: bool)
    ensures
        r == ends(s@, p@),
{
    let cs = chars_of(s);
    let ps = chars_of(p);
    if ps.len() > cs.len() {
        return false;
    }
    matches_at(&cs, &ps, cs.len() - ps.len())
}

/// What follows the prefix `p` of `s`, if `s` starts with it.
pub fn strip_prefix<'a>(s: &'a str, p: &str) -> (r: Option<&'a str>)
    ensures
        r is Some <==> begins(s@, p@),
        r matches Some(t) ==> t@ == s@.skip(p@.len() as int),
{
    let n: usize = s.unicode_len();
    if starts_with(s, p) {
        Some(s.substring_char(p.unicode_len(), n))
    } else {
        None
    }
}

// ---- taking apart and putting together ----

/// What a list of strings holds.
pub open spec fn views(v: Seq<String>) -> Seq<Seq<char>> {
    v.map_values(|x: String| x@)
}

/// Puts a text at the end of a list.
pub fn push_line(lines: &mut Vec<String>, line: String)
    ensures
        views(final(lines)@) == views(old(lines)@).push(line@),
{
    let ghost before = views(lines@);
    lines.push(line);
    assert(views(lines@) =~= before.push(line@));
}

/// The maximal runs of `s` without white space, in order.
pub open spec fn words_of(s: Seq<char>) -> Seq<Seq<char>>
    decreases s.len(),
{
    let t = trim_start_of(s);
    let n = lead(t, not_white());
    proof {
        lemma_lead_bounds(s, white());
        lemma_lead_bounds(t, not_white());
    }
    if t.len() == 0 || n == 0 {
        Seq::empty()
    } else {
        seq![t.take(n as int)] + words_of(t.skip(n as int))
    }
}

/// The maximal runs of `s` without white space, in order.
pub fn split_words(s: &str) -> (r: Vec<String>)
    ensures
        views(r@) == words_of(s@),
{
    let cs = chars_of(s);
    let mut out: Vec<String> = Vec::new();
    let mut pos: usize = 0;
    assert(s@.skip(0) =~= s@);
    assert(views(out@) + words_of(s@) =~= words_of(s@));
    loop
        invariant
            cs@ == s@,
            pos <= cs@.len(),
            views(out@) + words_of(s@.skip(pos as int)) == words_of(s@),
        ensures
            views(out@) == words_of(s@),
        decreases cs@.len() - pos,
    {
        let mut i: usize = pos;
        let ghost rest = s@.skip(pos as int);
        while i < cs.len() && is_whitespace(cs[i])
            invariant
                cs@ == s@,
                pos <= i <= cs@.len(),
                rest == s@.skip(pos as int),
                forall|j: int| 0 <= j < i - pos ==> white()(#[trigger] rest[j]),
            decreases cs@.len() - i,
        {
            i += 1;
        }
        proof {
            lemma_lead(rest, white(), i - pos);
        }
        let ghost t = s@.skip(i as int);
        assert(trim_start_of(rest) =~= t);
        if i == cs.len() {
            assert(words_of(rest) =~= Seq::<Seq<char>>::empty());
            assert(views(out@) + words_of(rest) =~= views(out@));
            break;
        }
        let mut j: usize = i;
        while j < cs.len() && !is_whitespace(cs[j])
            invariant
                cs@ == s@,
                i <= j <= cs@.len(),
                t == s@.skip(i as int),
                forall|k: int| 0 <= k < j - i ==> not_white()(#[trigger] t[k]),
            decreases cs@.len() - j,
        {
            j += 1;
        }
        proof {
            lemma_lead(t, not_white(), j - i);
        }
        assert(j > i);
        let word = s.substring_char(i, j).to_string();
        assert(word@ =~= t.take(j - i));
        assert(t.skip(j - i) =~= s@.skip(j as int));
        let ghost before = views(out@);
        out.push(word);
        assert(views(out@) =~= before.push(word@));
        assert(views(out@) + words_of(s@.skip(j as int)) =~= before + words_of(rest));
        pos = j;
    }
    out
}

/// The first maximal run of `s` without white space; empty if there is none.
pub open spec fn first_word_of(s: Seq<char>) -> Seq<char> {
    let t = trim_start_of(s);
    t.take(lead(t, not_white()) as int)
}

/// The first run is the first of the runs.
pub proof fn lemma_first_word(s: Seq<char>)
    ensures
        words_of(s).len() == 0 <==> first_word_of(s).len() == 0,
        words_of(s).len() > 0 ==> words_of(s)[0] == first_word_of(s),
{
    let t = trim_start_of(s);
    lemma_lead_bounds(s, white());
    lemma_lead_bounds(t, not_white());
}

/// A trimmed text starts and ends with something other than white space.
pub proof fn lemma_trimmed(s: Seq<char>)
    ensures
        trim_of(s).len() > 0 ==> !is_white(trim_of(s)[0]) && !is_white(trim_of(s).last()),
        trim_of(s).len() <= s.len(),
{
    let t = trim_start_of(s);
    lemma_lead_bounds(s, white());
    lemma_trail_bounds(t, white());
    if trim_of(s).len() > 0 {
        let n = lead(s, white()) as int;
        assert(trim_of(s)[0] == s[n]);
        assert(!white()(s[n]));
        let k = t.len() - trail(t, white()) - 1;
        assert(trim_of(s).last() == t[k]);
        assert(!white()(t[k]));
    }
}

/// A text that starts with something other than white space keeps its start when trimmed.
pub proof fn lemma_trim_start_id(s: Seq<char>)
    requires
        s.len() == 0 || !is_white(s[0]),
    ensures
        trim_start_of(s) == s,
{
    lemma_lead(s, white(), 0);
    assert(s.skip(0) =~= s);
}

/// A text without white space at its ends stays the same when trimmed.
pub proof fn lemma_trim_id(s: Seq<char>)
    requires
        s.len() == 0 || (!is_white(s[0]) && !is_white(s.last())),
    ensures
        trim_of(s) == s,
{
    lemma_trim_start_id(s);
    lemma_trail(s, white(), 0);
    assert(s.take(s.len() as int) =~= s);
}

/// A text that is not blank has a first word.
pub proof fn lemma_trimmed_has_word(s: Seq<char>)
    ensures
        trim_of(s).len() > 0 ==> words_of(trim_of(s)).len() > 0,
{
    let t = trim_of(s);
    lemma_trimmed(s);
    if t.len() > 0 {
        lemma_trim_start_id(t);
        lemma_lead_bounds(t, not_white());
        assert(not_white()(t[0]));
        assert(lead(t, not_white()) > 0);
    }
}

/// The first maximal run of `s` without white space; empty if there is none.
pub fn first_word(s: &str) -> (r: &str)
    ensures
        r@ == first_word_of(s@),
{
    let t = trim_start(s);
    let cs = chars_of(t);
    let mut i: usize = 0;
    while i < cs.len() && !is_whitespace(cs[i])
        invariant
            cs@ == t@,
            i <= cs@.len(),
            forall|j: int| 0 <= j < i ==> not_white()(#[trigger] t@[j]),
        decreases cs@.len() - i,
    {
        i += 1;
    }
    proof {
        lemma_lead(t@, not_white(), i as int);
    }
    t.substring_char(0, i)
}

/// The pieces of `s` between the occurrences of `sep`.
pub open spec fn pieces_of(s: Seq<char>, sep: char) -> Seq<Seq<char>>
    decreases s.len(),
{
    let n = lead(s, all_but(sep));
    proof {
        lemma_lead_bounds(s, all_but(sep));
    }
    if n >= s.len() {
        seq![s]
    } else {
        seq![s.take(n as int)] + pieces_of(s.skip((n + 1) as int), sep)
    }
}

/// There is always a first piece.
pub proof fn lemma_pieces(s: Seq<char>, sep: char)
    ensures
        pieces_of(s, sep).len() >= 1,
{
}

/// The pieces of `s` between the occurrences of `sep`.
pub fn split_char(s: &str, sep: char) -> (r: Vec<String>)
    ensures
        views(r@) == pieces_of(s@, sep),
{
    let cs = chars_of(s);
    let mut out: Vec<String> = Vec::new();
    let mut pos: usize = 0;
    assert(s@.skip(0) =~= s@);
    assert(views(out@) + pieces_of(s@, sep) =~= pieces_of(s@, sep));
    loop
        invariant_except_break
            pos <= cs@.len(),
            views(out@) + pieces_of(s@.skip(pos as int), sep) == pieces_of(s@, sep),
        invariant
            cs@ == s@,
        ensures
            views(out@) == pieces_of(s@, sep),
        decreases cs@.len() - pos,
    {
        let ghost rest = s@.skip(pos as int);
        let mut i: usize = pos;
        while i < cs.len() && cs[i] != sep
            invariant
                cs@ == s@,
                pos <= i <= cs@.len(),
                rest == s@.skip(pos as int),
                forall|j: int| 0 <= j < i - pos ==> all_but(sep)(#[trigger] rest[j]),
            decreases cs@.len() - i,
        {
            i += 1;
        }
        proof {
            lemma_lead(rest, all_but(sep), i - pos);
        }
        let piece = s.substring_char(pos, i).to_string();
        assert(piece@ =~= rest.take(i - pos));
        let ghost before = views(out@);
        out.push(piece);
        assert(views(out@) =~= before.push(piece@));
        if i == cs.len() {
            assert(piece@ =~= rest);
            assert(views(out@) =~= before + pieces_of(rest, sep));
            break;
        }
        assert(rest.skip(i - pos + 1) =~= s@.skip(i + 1));
        assert(views(out@) + pieces_of(s@.skip(i + 1), sep) =~= before + pieces_of(rest, sep));
        pos = i + 1;
    }
    out
}

/// The strings one after the other, with `sep` between them.
pub open spec fn join_of(parts: Seq<Seq<char>>, sep: Seq<char>) -> Seq<char>
    decreases parts.len(),
{
    if parts.len() == 0 {
        Seq::empty()
    } else if parts.len() == 1 {
        parts[0]
    } else {
        join_of(parts.drop_last(), sep) + sep + parts.last()
    }
}

/// The strings one after the other, with `sep` between them.
pub fn join(parts: &Vec<String>, sep: &str) -> (r: String)
    ensures
        r@ == join_of(views(parts@), sep@),
{
    let mut out = String::new();
    let ghost all = views(parts@);
    let mut i: usize = 0;
    assert(out@ =~= join_of(all.take(0), sep@));
    while i < parts.len()
        invariant
            i <= parts@.len(),
            all == views(parts@),
            out@ == join_of(all.take(i as int), sep@),
        decreases parts@.len() - i,
    {
        let ghost before = out@;
        if i > 0 {
            out.append(sep);
        }
        out.append(parts[i].as_str());
        assert(all.take(i + 1).drop_last() =~= all.take(i as int));
        assert(all.take(i + 1).last() == parts@[i as int]@);
        if i == 0 {
            assert(before =~= Seq::<char>::empty());
            assert(out@ =~= all.take(1)[0]);
        }
        i += 1;
    }
    assert(all.take(i as int) =~= all);
    out
}

/// The strings of `parts` one after the other.
pub open spec fn concat_of(parts: Seq<Seq<char>>) -> Seq<char>
    decreases parts.len(),
{
    if parts.len() == 0 {
        Seq::empty()
    } else {
        concat_of(parts.drop_last()) + parts.last()
    }
}

// ---- letter case ----

/// The lower-case counterpart of an ASCII letter; any other character unchanged.
pub open spec fn lower_char(c: char) -> char {
    if 'A' <= c && c <= 'Z' {
        (c as u32 + 32) as char
    } else {
        c
    }
}

/// `s` with its ASCII letters in lower case.
pub open spec fn lower_of(s: Seq<char>) -> Seq<char> {
    s.map_values(|c: char| lower_char(c))
}

/// `s` with its ASCII letters in lower case.
pub fn to_ascii_lowercase(s: &str) -> (r: String)
    ensures
        r@ == lower_of(s@),
{
    let cs = chars_of(s);
    let mut out = String::new();
    let mut i: usize = 0;
    while i < cs.len()
        invariant
            cs@ == s@,
            i <= cs@.len(),
            out@ == lower_of(s@.take(i as int)),
        decreases cs@.len() - i,
    {
        let c: char = cs[i];
        let lower: char = if 'A' <= c && c <= 'Z' {
            (c as u8 + 32) as char
        } else {
            c
        };
        assert(lower == lower_char(c));
        out.push(lower);
        assert(out@ =~= lower_of(s@.take(i + 1)));
        i += 1;
    }
    assert(s@.take(i as int) =~= s@);
    out
}

/// What `str::to_lowercase` makes of a text.
pub uninterp spec fn lowercase(s: Seq<char>) -> Seq<char>;

/// `str::to_lowercase` writes a text in lower case after the tables of Unicode; the result is
/// called `lowercase`. Of a text in ASCII it changes the letters `A` to `Z` alone.
#[verifier::external_body]
pub(crate) fn to_lowercase(s: &str) -> (r: String)
    ensures
        r@ == lowercase(s@),
        (forall|i: int| 0 <= i < s@.len() ==> (#[trigger] s@[i] as u32) < 128) ==> r@ == lower_of(
            s@,
        ),
{
    s.to_lowercase()
}

/// What `String::from_utf8_lossy` makes of a byte sequence.
pub uninterp spec fn lossy(bytes: Seq<u8>) -> Seq<char>;

/// `String::from_utf8_lossy` decodes bytes and puts a replacement character where they are no
/// UTF-8; the result is called `lossy`. Valid UTF-8 is decoded as it is.
#[verifier::external_body]
pub(crate) fn lossy_text(bytes: &[u8]) -> (r: String)
    ensures
        r@ == lossy(bytes@),
        vstd::utf8::valid_utf8(bytes@) ==> r@ == vstd::utf8::decode_utf8(bytes@),
{
    String::from_utf8_lossy(bytes).into_owned()
}

// ---- decimal numbers ----

/// The digit `d`.
pub open spec fn digit_char(d: nat) -> char {
    (48 + d) as char
}

/// The decimal numeral of `n`.
pub open spec fn decimal(n: nat) -> Seq<char>
    decreases n,
{
    if n < 10 {
        seq![digit_char(n)]
    } else {
        decimal(n / 10).push(digit_char(n % 10))
    }
}

/// The decimal numeral of a signed number.
pub open spec fn signed_decimal(n: int) -> Seq<char> {
    if n < 0 {
        seq!['-'] + decimal((-n) as nat)
    } else {
        decimal(n as nat)
    }
}

/// The decimal numeral of `n`.
pub fn decimal_wide(n: u128) -> (r: String)
    ensures
        r@ == decimal(n as nat),
    decreases n,
{
    if n < 10 {
        let mut out = String::new();
        out.push((48 + n as u8) as char);
        assert(out@ =~= decimal(n as nat));
        out
    } else {
        let mut out = decimal_wide(n / 10);
        out.push((48 + (n % 10) as u8) as char);
        out
    }
}

/// The decimal numeral of `n`.
pub fn decimal_text(n: u64) -> (r: String)
    ensures
        r@ == decimal(n as nat),
{
    decimal_wide(n as u128)
}

/// The decimal numeral of a signed number.
pub fn signed_decimal_text(n: i64) -> (r: String)
    ensures
        r@ == signed_decimal(n as int),
{
    if n < 0 {
        let mut out = String::new();
        out.push('-');
        let magnitude: u64 = (-(n as i128)) as u64;
        out.append(decimal_text(magnitude).as_str());
        assert(out@ =~= signed_decimal(n as int));
        out
    } else {
        decimal_text(n as u64)
    }
}

/// Whether every character is a decimal digit.
pub open spec fn all_digits(s: Seq<char>) -> bool {
    forall|i: int| 0 <= i < s.len() ==> '0' <= #[trigger] s[i] && s[i] <= '9'
}

/// The number that a sequence of digits stands for.
pub open spec fn digits_value(s: Seq<char>) -> nat
    decreases s.len(),
{
    if s.len() == 0 {
        0
    } else {
        digits_value(s.drop_last()) * 10 + (s.last() as nat - 48) as nat
    }
}

/// The number that `s` spells, with an optional plus sign.
pub open spec fn number_of(s: Seq<char>) -> Option<nat> {
    let d = if s.len() > 1 && s[0] == '+' {
        s.skip(1)
    } else {
        s
    };
    if d.len() > 0 && all_digits(d) {
        Some(digits_value(d))
    } else {
        None
    }
}

/// The number that `s` spells, if it is at most `max`.
pub open spec fn number_up_to(s: Seq<char>, max: nat) -> Option<nat> {
    match number_of(s) {
        Some(n) => if n <= max {
            Some(n)
        } else {
            None
        },
        None => None,
    }
}

/// The signed 32-bit number that `s` spells.
pub open spec fn signed_of(s: Seq<char>) -> Option<int> {
    if s.len() > 1 && s[0] == '-' {
        if all_digits(s.skip(1)) && digits_value(s.skip(1)) <= 0x8000_0000 {
            Some(-digits_value(s.skip(1)))
        } else {
            None
        }
    } else {
        match number_up_to(s, 0x7fff_ffff) {
            Some(n) => Some(n as int),
            None => None,
        }
    }
}

proof fn lemma_digits_grow(s: Seq<char>, i: int)
    requires
        0 <= i <= s.len(),
        all_digits(s),
    ensures
        digits_value(s.take(i)) <= digits_value(s),
    decreases s.len(),
{
    if i < s.len() {
        assert(s.drop_last().take(i) =~= s.take(i));
        lemma_digits_grow(s.drop_last(), i);
    } else {
        assert(s.take(i) =~= s);
    }
}

/// The numeral of a number spells that number.
pub proof fn law_decimal_inverse(n: nat)
    ensures
        number_of(decimal(n)) == Some(n),
{
    lemma_decimal(n);
    assert(decimal(n)[0] != '+');
}

/// A numeral is made of digits and stands for its number.
pub proof fn lemma_decimal(n: nat)
    ensures
        decimal(n).len() > 0,
        all_digits(decimal(n)),
        digits_value(decimal(n)) == n,
    decreases n,
{
    if n < 10 {
        let s = decimal(n);
        assert(s.drop_last() =~= Seq::<char>::empty());
        assert(digits_value(s.drop_last()) == 0);
    } else {
        lemma_decimal(n / 10);
        assert(decimal(n).drop_last() =~= decimal(n / 10));
    }
}

fn parse_digits(cs: &Vec<char>, from: usize, max: u64) -> (r: Option<u64>)
    requires
        from <= cs@.len(),
    ensures
        ({
            let d = cs@.skip(from as int);
            if d.len() > 0 && all_digits(d) && digits_value(d) <= max {
                r == Some(digits_value(d) as u64)
            } else {
                r is None
            }
        }),
{
    let ghost d = cs@.skip(from as int);
    if from == cs.len() {
        return None;
    }
    let mut n: u64 = 0;
    let mut i: usize = from;
    while i < cs.len()
        invariant
            from <= i <= cs@.len(),
            d == cs@.skip(from as int),
            n == digits_value(d.take(i - from)),
            n <= max,
            all_digits(d.take(i - from)),
        decreases cs@.len() - i,
    {
        let c: char = cs[i];
        assert(d[i - from] == c);
        if c < '0' || c > '9' {
            return None;
        }
        let digit: u8 = c as u8 - 48;
        let next: u128 = n as u128 * 10 + digit as u128;
        assert(d.take(i - from + 1).drop_last() =~= d.take(i - from));
        assert(next == digits_value(d.take(i - from + 1)));
        if next > max as u128 {
            proof {
                if all_digits(d) {
                    lemma_digits_grow(d, i - from + 1);
                }
            }
            return None;
        }
        n = next as u64;
        assert forall|k: int| 0 <= k < i - from + 1 implies '0' <= #[trigger] d.take(i - from + 1)[k]
            && d.take(i - from + 1)[k] <= '9' by {
            if k < i - from {
                assert(d.take(i - from)[k] == d[k]);
            }
        }
        i += 1;
    }
    assert(d.take(i - from) =~= d);
    Some(n)
}

/// The unsigned number up to `max` that `s` spells.
pub fn parse_up_to(s: &str, max: u64) -> (r: Option<u64>)
    ensures
        r matches Some(n) ==> number_up_to(s@, max as nat) == Some(n as nat),
        r is None <==> number_up_to(s@, max as nat) is None,
{
    let cs = chars_of(s);
    let from: usize = if cs.len() > 1 && cs[0] == '+' {
        1
    } else {
        0
    };
    assert(s@.skip(0) =~= s@);
    parse_digits(&cs, from, max)
}

/// The 64-bit number that `s` spells.
pub fn parse_u64(s: &str) -> (r: Option<u64>)
    ensures
        r matches Some(n) ==> number_up_to(s@, u64::MAX as nat) == Some(n as nat),
        r is None <==> number_up_to(s@, u64::MAX as nat) is None,
{
    parse_up_to(s, u64::MAX)
}

/// The machine-sized number that `s` spells.
pub fn parse_usize(s: &str) -> (r: Option<usize>)
    ensures
        r matches Some(n) ==> number_up_to(s@, usize::MAX as nat) == Some(n as nat),
        r is None <==> number_up_to(s@, usize::MAX as nat) is None,
{
    match parse_up_to(s, usize::MAX as u64) {
        Some(n) => Some(n as usize),
        None => None,
    }
}

/// The signed 32-bit number that `s` spells.
pub fn parse_i32(s: &str) -> (r: Option<i32>)
    ensures
        r matches Some(n) ==> signed_of(s@) == Some(n as int),
        r is None <==> signed_of(s@) is None,
{
    let cs = chars_of(s);
    if cs.len() > 1 && cs[0] == '-' {
        match parse_digits(&cs, 1, 0x8000_0000) {
            Some(n) => Some((-(n as i64)) as i32),
            None => None,
        }
    } else {
        match parse_up_to(s, 0x7fff_ffff) {
            Some(n) => Some(n as i32),
            None => None,
        }
    }
}

} // verus!
