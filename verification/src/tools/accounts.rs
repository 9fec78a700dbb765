//! API keys and where they come from.

use crate::channel;
use crate::json;
use crate::text;
use vstd::prelude::*;

verus! {

/// A key for a provider.
#[derive(Debug)]
pub struct ApiKeyEntry {
    pub name: String,
    pub api_key: String,
    pub enabled: bool,
}

/// A provider and its keys.
#[derive(Debug)]
pub struct ApiKeyProviderConfig {
    pub enabled: bool,
    pub accounts: Vec<ApiKeyEntry>,
}

impl Default for ApiKeyProviderConfig {
    fn default() -> (r: Self)
        ensures
            !r.enabled,
            r.accounts@.len() == 0,
    {
        ApiKeyProviderConfig { enabled: false, accounts: Vec::new() }
    }
}

/// Whether an entry can be used: it is enabled and its key is not blank.
pub open spec fn is_usable(e: ApiKeyEntry) -> bool {
    e.enabled && text::trim_of(e.api_key@).len() > 0
}

fn can_be_used(e: &ApiKeyEntry) -> (r: bool)
    ensures
        r == is_usable(*e),
{
    e.enabled && text::trim(e.api_key.as_str()).unicode_len() > 0
}

/// The names and keys of the entries that can be used, in order.
pub open spec fn usable_keys(entries: Seq<ApiKeyEntry>) -> Seq<(Seq<char>, Seq<char>)>
    decreases entries.len(),
{
    if entries.len() == 0 {
        Seq::empty()
    } else {
        let before = usable_keys(entries.drop_last());
        if is_usable(entries.last()) {
            before.push((entries.last().name@, entries.last().api_key@))
        } else {
            before
        }
    }
}

/// The keys of a provider, handed out in turn.
#[derive(Debug)]
pub struct AccountPool {
    keys: Vec<(String, String)>,
    counter: usize,
}

impl AccountPool {
    /// The names and keys, in order.
    pub closed spec fn keys(self) -> Seq<(Seq<char>, Seq<char>)> {
        crate::web_url::pairs_view(self.keys@)
    }

    /// How many keys were handed out in turn, as far as a machine word counts.
    pub closed spec fn handed_out(self) -> usize {
        self.counter
    }

    /// The key whose turn it is, if there is any.
    pub open spec fn in_turn(self) -> Option<Seq<char>> {
        if self.keys().len() == 0 {
            None
        } else {
            Some(self.keys()[turn(self.keys().len(), self.handed_out() as nat, 0) as int].1)
        }
    }

    /// The count after a key was handed out: one more, and from the start again after the largest
    /// machine word. Without keys none is handed out.
    pub open spec fn handed_out_next(self) -> int {
        if self.keys().len() == 0 {
            self.handed_out() as int
        } else if self.handed_out() == usize::MAX {
            0
        } else {
            self.handed_out() + 1
        }
    }

    /// The keys of the entries that can be used.
    pub fn new(entries: &Vec<ApiKeyEntry>) -> (r: Self)
        ensures
            r.keys() == usable_keys(entries@),
            r.handed_out() == 0,
    {
        let mut keys: Vec<(String, String)> = Vec::new();
        let mut i: usize = 0;
        assert(crate::web_url::pairs_view(keys@) =~= usable_keys(entries@.take(0)));
        while i < entries.len()
            invariant
                i <= entries@.len(),
                crate::web_url::pairs_view(keys@) == usable_keys(entries@.take(i as int)),
            decreases entries@.len() - i,
        {
            assert(entries@.take(i + 1).drop_last() =~= entries@.take(i as int));
            if can_be_used(&entries[i]) {
                let ghost before = crate::web_url::pairs_view(keys@);
                let p = (entries[i].name.clone(), entries[i].api_key.clone());
                keys.push(p);
                assert(crate::web_url::pairs_view(keys@) =~= before.push((p.0@, p.1@)));
            }
            i += 1;
        }
        assert(entries@.take(i as int) =~= entries@);
        AccountPool { keys, counter: 0 }
    }

    /// A pool without keys.
    pub fn none() -> (r: Self)
        ensures
            r.keys() == Seq::<(Seq<char>, Seq<char>)>::empty(),
            r.handed_out() == 0,
    {
        let r = AccountPool { keys: Vec::new(), counter: 0 };
        assert(r.keys() =~= Seq::<(Seq<char>, Seq<char>)>::empty());
        r
    }

    /// The pool of one key, if it is not blank.
    pub fn from_env(name: &str, api_key: &str) -> (r: Self)
        ensures
            r.keys() == (if text::trim_of(api_key@).len() > 0 {
                seq![(name@, api_key@)]
            } else {
                Seq::empty()
            }),
            r.handed_out() == 0,
    {
        let mut keys: Vec<(String, String)> = Vec::new();
        if text::trim(api_key).unicode_len() > 0 {
            keys.push((name.to_string(), api_key.to_string()));
        }
        let r = AccountPool { keys, counter: 0 };
        assert(r.keys() =~= if text::trim_of(api_key@).len() > 0 {
            seq![(name@, api_key@)]
        } else {
            Seq::empty()
        });
        r
    }

    /// Whether there is no key.
    pub fn is_empty(&self) -> (r: bool)
        ensures
            r == (self.keys().len() == 0),
    {
        self.keys.len() == 0
    }

    /// The number of keys.
    pub fn len(&self) -> (r: usize)
        ensures
            r == self.keys().len(),
    {
        self.keys.len()
    }

    /// The next key in turn.
    pub fn next_key(&mut self) -> (r: Option<String>)
        ensures
            final(self).keys() == old(self).keys(),
            channel::opt_view(r) == old(self).in_turn(),
            final(self).handed_out() == old(self).handed_out_next(),
    {
        let n: usize = self.keys.len();
        if n == 0 {
            return None;
        }
        let i: usize = self.counter % n;
        self.counter = if self.counter == usize::MAX {
            0
        } else {
            self.counter + 1
        };
        Some(self.keys[i].1.clone())
    }

    /// The key at a position, counted round and round.
    pub fn key_at(&self, offset: usize) -> (r: Option<&str>)
        ensures
            json::text_view(r) == (if self.keys().len() == 0 {
                None
            } else {
                Some(self.keys()[turn(self.keys().len(), offset as nat, 0) as int].1)
            }),
    {
        let n: usize = self.keys.len();
        if n == 0 {
            return None;
        }
        let i: usize = offset % n;
        Some(self.keys[i].1.as_str())
    }
}

/// Every key of a pool can be used: none is blank.
pub proof fn law_usable_keys(entries: Seq<ApiKeyEntry>, i: int)
    requires
        0 <= i < usable_keys(entries).len(),
    ensures
        text::trim_of(usable_keys(entries)[i].1).len() > 0,
        exists|j: int|
            0 <= j < entries.len() && is_usable(#[trigger] entries[j]) && entries[j].api_key@
                == usable_keys(entries)[i].1,
    decreases entries.len(),
{
    let rest = entries.drop_last();
    let before = usable_keys(rest);
    if i < before.len() {
        law_usable_keys(rest, i);
        let j = choose|j: int|
            0 <= j < rest.len() && is_usable(#[trigger] rest[j]) && rest[j].api_key@
                == before[i].1;
        assert(is_usable(entries[j]));
    } else {
        assert(is_usable(entries[entries.len() - 1]));
    }
}

/// Which of `n` keys has its turn after `counter` calls and `more` further ones.
pub open spec fn turn(n: nat, counter: nat, more: nat) -> nat {
    (counter + more) % n
}

/// As many calls in a row as there are keys hand out every key, as long as the count of calls
/// fits in a machine word.
pub proof fn law_round_robin(keys: Seq<(Seq<char>, Seq<char>)>, counter: usize, i: nat)
    requires
        keys.len() > 0,
        i < keys.len(),
        counter + keys.len() <= usize::MAX,
    ensures
        exists|more: nat|
            more < keys.len() && #[trigger] turn(keys.len(), counter as nat, more) == i,
{
    let n = keys.len() as int;
    let c = counter as int;
    vstd::arithmetic::div_mod::lemma_fundamental_div_mod(c, n);
    vstd::arithmetic::div_mod::lemma_mod_bound(c, n);
    let d = if i >= c % n {
        i - c % n
    } else {
        i + n - c % n
    };
    let q = if i >= c % n {
        c / n
    } else {
        c / n + 1
    };
    assert(c + d == n * q + i) by (nonlinear_arith)
        requires
            c == n * (c / n) + c % n,
            i >= c % n ==> d == i - c % n && q == c / n,
            i < c % n ==> d == i + n - c % n && q == c / n + 1,
    ;
    vstd::arithmetic::div_mod::lemma_mod_multiples_vanish(q, i as int, n);
    vstd::arithmetic::div_mod::lemma_small_mod(i, n as nat);
    assert(turn(keys.len(), counter as nat, d as nat) == i);
}

// ---- the environment ----

/// The value of the first pair with that name, at or after `i`.
pub open spec fn value_from(pairs: Seq<(Seq<char>, Seq<char>)>, name: Seq<char>, i: int) -> Option<
    Seq<char>,
>
    decreases pairs.len() - i,
{
    if i < 0 || i >= pairs.len() {
        None
    } else if pairs[i].0 == name {
        Some(pairs[i].1)
    } else {
        value_from(pairs, name, i + 1)
    }
}

/// The variables of the process and those that the configuration adds to them.
#[derive(Debug)]
pub struct Environment {
    pub process: Vec<(String, String)>,
    pub overrides: Vec<(String, String)>,
}

impl Environment {
    /// The value of a variable: that of the process, else the added one.
    pub open spec fn value(self, name: Seq<char>) -> Option<Seq<char>> {
        match value_from(crate::web_url::pairs_view(self.process@), name, 0) {
            Some(v) => Some(v),
            None => value_from(crate::web_url::pairs_view(self.overrides@), name, 0),
        }
    }
}

fn find_value(pairs: &Vec<(String, String)>, name: &str) -> (r: Option<String>)
    ensures
        channel::opt_view(r) == value_from(crate::web_url::pairs_view(pairs@), name@, 0),
{
    let ghost all = crate::web_url::pairs_view(pairs@);
    let mut i: usize = 0;
    while i < pairs.len()
        invariant
            i <= pairs@.len(),
            all == crate::web_url::pairs_view(pairs@),
            value_from(all, name@, 0) == value_from(all, name@, i as int),
        decreases pairs@.len() - i,
    {
        assert(all[i as int] == (pairs@[i as int].0@, pairs@[i as int].1@));
        if text::str_eq(pairs[i].0.as_str(), name) {
            return Some(pairs[i].1.clone());
        }
        i += 1;
    }
    None
}

/// The value of a variable: that of the process, else the added one.
pub fn env_value_with_overrides(env: &Environment, key: &str) -> (r: Option<String>)
    ensures
        channel::opt_view(r) == env.value(key@),
{
    match find_value(&env.process, key) {
        Some(v) => Some(v),
        None => find_value(&env.overrides, key),
    }
}

/// The first key of a provider that can be used, if the provider is enabled.
pub open spec fn first_key_of(p: ApiKeyProviderConfig) -> Option<Seq<char>> {
    if p.enabled && usable_keys(p.accounts@).len() > 0 {
        Some(usable_keys(p.accounts@)[0].1)
    } else {
        None
    }
}

proof fn lemma_first_usable(entries: Seq<ApiKeyEntry>, n: int)
    requires
        0 <= n < entries.len(),
        is_usable(entries[n]),
        forall|i: int| 0 <= i < n ==> !is_usable(#[trigger] entries[i]),
    ensures
        usable_keys(entries).len() > 0,
        usable_keys(entries)[0].1 == entries[n].api_key@,
    decreases entries.len(),
{
    let rest = entries.drop_last();
    if n == entries.len() - 1 {
        lemma_none_usable(rest);
    } else {
        assert(rest[n] == entries[n]);
        assert forall|i: int| 0 <= i < n implies !is_usable(#[trigger] rest[i]) by {
            assert(rest[i] == entries[i]);
        }
        lemma_first_usable(rest, n);
    }
}

proof fn lemma_none_usable(entries: Seq<ApiKeyEntry>)
    requires
        forall|i: int| 0 <= i < entries.len() ==> !is_usable(#[trigger] entries[i]),
    ensures
        usable_keys(entries).len() == 0,
    decreases entries.len(),
{
    if entries.len() > 0 {
        let rest = entries.drop_last();
        assert(!is_usable(entries[entries.len() - 1]));
        assert forall|i: int| 0 <= i < rest.len() implies !is_usable(#[trigger] rest[i]) by {
            assert(rest[i] == entries[i]);
        }
        lemma_none_usable(rest);
    }
}

/// The first key of a provider that can be used, if the provider is enabled.
pub fn first_enabled_key(provider: &ApiKeyProviderConfig) -> (r: Option<&str>)
    ensures
        json::text_view(r) == first_key_of(*provider),
{
    if !provider.enabled {
        return None;
    }
    let mut i: usize = 0;
    while i < provider.accounts.len()
        invariant
            i <= provider.accounts@.len(),
            provider.enabled,
            forall|j: int| 0 <= j < i ==> !is_usable(#[trigger] provider.accounts@[j]),
        decreases provider.accounts@.len() - i,
    {
        if can_be_used(&provider.accounts[i]) {
            proof {
                lemma_first_usable(provider.accounts@, i as int);
            }
            return Some(provider.accounts[i].api_key.as_str());
        }
        i += 1;
    }
    proof {
        lemma_none_usable(provider.accounts@);
    }
    None
}

} // verus!
