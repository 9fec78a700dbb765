//! The accounts of the channel and the health of their connections.

use crate::assoc;
use crate::assoc::Table;
use crate::channel;
use crate::channel::ChannelError;
use crate::feishu::config::FeishuAccountConfig;
use crate::text;
use vstd::prelude::*;

verus! {

/// How long the result of a probe is reused: thirty seconds.
pub const PROBE_CACHE_NANOS: u128 = 30_000_000_000;

/// The accounts that run.
pub struct FeishuPlugin {
    accounts: Table<FeishuAccountConfig>,
    probes: Table<CachedProbe>,
}

/// How the connection of an account is.
#[derive(Debug)]
pub struct ChannelHealthSnapshot {
    pub connected: bool,
    pub account_id: String,
    pub details: Option<String>,
}

/// The result of a probe and when it was made, in nanoseconds on the monotonic clock.
struct CachedProbe {
    token_ok: bool,
    ws_connected: bool,
    at: u128,
}

impl View for FeishuPlugin {
    type V = Map<Seq<char>, FeishuAccountConfig>;

    closed spec fn view(&self) -> Map<Seq<char>, FeishuAccountConfig> {
        self.accounts@
    }
}

/// What a probe found.
pub open spec fn health_of(account: Seq<char>, token_ok: bool, ws_connected: bool) -> (
    bool,
    Seq<char>,
    Option<Seq<char>>,
) {
    let connected = token_ok && ws_connected;
    (
        connected,
        account,
        Some(
            if connected {
                "ok"@
            } else if !token_ok {
                "auth failed"@
            } else {
                "ws disconnected"@
            },
        ),
    )
}

/// What a snapshot holds.
pub open spec fn snapshot_view(s: ChannelHealthSnapshot) -> (bool, Seq<char>, Option<Seq<char>>) {
    (s.connected, s.account_id@, channel::opt_view(s.details))
}

/// What a probe found: the connection is up if the token is good and the connection is open.
pub fn health_snapshot(account_id: &str, token_ok: bool, ws_connected: bool) -> (r:
    ChannelHealthSnapshot)
    ensures
        snapshot_view(r) == health_of(account_id@, token_ok, ws_connected),
{
    let connected = token_ok && ws_connected;
    let details = if connected {
        "ok"
    } else if !token_ok {
        "auth failed"
    } else {
        "ws disconnected"
    };
    ChannelHealthSnapshot {
        connected,
        account_id: account_id.to_string(),
        details: Some(details.to_string()),
    }
}

/// Whether an account can be started: it has an app id and a secret.
pub open spec fn has_credentials(config: FeishuAccountConfig) -> bool {
    config.app_id@.len() > 0 && config.app_secret@.len() > 0
}

impl FeishuPlugin {
    /// No account occurs twice.
    pub closed spec fn wf(self) -> bool {
        self.accounts.wf() && self.probes.wf()
    }

    /// The probe of an account that is kept: whether the token was good, whether the connection
    /// was open, and when that was.
    pub closed spec fn kept_probe(self, account: Seq<char>) -> Option<(bool, bool, u128)> {
        match assoc::in_map(self.probes@, account) {
            Some(p) => Some((p.token_ok, p.ws_connected, p.at)),
            None => None,
        }
    }

    /// No accounts.
    pub fn new() -> (r: Self)
        ensures
            r.wf(),
            r@ == Map::<Seq<char>, FeishuAccountConfig>::empty(),
            forall|a: Seq<char>| r.kept_probe(a) is None,
    {
        FeishuPlugin { accounts: Table::new(), probes: Table::new() }
    }

    /// The name of the channel kind.
    pub fn id(&self) -> (r: &'static str)
        ensures
            r@ == "feishu"@,
    {
        "feishu"
    }

    /// What the user sees of the channel kind.
    pub fn name(&self) -> (r: &'static str)
        ensures
            r@ == "Feishu"@,
    {
        "Feishu"
    }

    /// The accounts that run, each once.
    pub fn account_ids(&self) -> (r: Vec<String>)
        requires
            self.wf(),
        ensures
            forall|id: Seq<char>| text::views(r@).contains(id) <==> #[trigger] self@.dom().contains(id),
            text::views(r@).no_duplicates(),
    {
        self.accounts.keys()
    }

    /// Whether an account runs.
    pub fn has_account(&self, account_id: &str) -> (r: bool)
        ensures
            r == self@.dom().contains(account_id@),
    {
        self.accounts.contains(account_id)
    }

    /// The configuration of an account.
    pub fn account_config(&self, account_id: &str) -> (r: Option<&FeishuAccountConfig>)
        ensures
            assoc::value_of(r) == assoc::in_map(self@, account_id@),
    {
        self.accounts.get(account_id)
    }

    /// Gives a running account another configuration.
    pub fn update_account_config(&mut self, account_id: &str, config: FeishuAccountConfig) -> (r:
        Result<(), ChannelError<String>>)
        requires
            old(self).wf(),
        ensures
            final(self).wf(),
            r is Ok <==> old(self)@.dom().contains(account_id@),
            r is Ok ==> final(self)@ == old(self)@.insert(account_id@, config),
            r matches Err(e) ==> e@ == ChannelError::UnknownAccount(account_id@) && final(self)@
                == old(self)@,
            forall|a: Seq<char>| final(self).kept_probe(a) == old(self).kept_probe(a),
    {
        if self.accounts.contains(account_id) {
            self.accounts.insert(account_id, config);
            Ok(())
        } else {
            Err(ChannelError::UnknownAccount(account_id.to_string()))
        }
    }

    /// Starts an account: it needs an app id and a secret. One that runs already is replaced.
    pub fn start_account(&mut self, account_id: &str, config: FeishuAccountConfig) -> (r: Result<
        (),
        ChannelError<String>,
    >)
        requires
            old(self).wf(),
        ensures
            final(self).wf(),
            r is Ok <==> has_credentials(config),
            r is Ok ==> final(self)@ == old(self)@.insert(account_id@, config),
            r matches Err(e) ==> e@ == ChannelError::InvalidInput(
                "feishu app_id and app_secret are required"@,
            ) && final(self)@ == old(self)@,
            forall|a: Seq<char>| final(self).kept_probe(a) == old(self).kept_probe(a),
    {
        if config.app_id.as_str().unicode_len() == 0 || config.app_secret.as_str().unicode_len()
            == 0 {
            return Err(channel::invalid_input("feishu app_id and app_secret are required"));
        }
        self.accounts.insert(account_id, config);
        Ok(())
    }

    /// Stops an account; says whether it ran.
    pub fn stop_account(&mut self, account_id: &str) -> (r: bool)
        requires
            old(self).wf(),
        ensures
            final(self).wf(),
            r == old(self)@.dom().contains(account_id@),
            final(self)@ == old(self)@.remove(account_id@),
            forall|a: Seq<char>| final(self).kept_probe(a) == old(self).kept_probe(a),
    {
        self.accounts.remove(account_id).is_some()
    }

    /// The result of an earlier probe that can be reused at the time `now`.
    pub fn cached_probe(&self, account_id: &str, now: u128) -> (r: Option<ChannelHealthSnapshot>)
        ensures
            match self.kept_probe(account_id@) {
                Some((token_ok, ws_connected, at)) => if now - at < PROBE_CACHE_NANOS {
                    r matches Some(s) && snapshot_view(s) == health_of(
                        account_id@,
                        token_ok,
                        ws_connected,
                    )
                } else {
                    r is None
                },
                None => r is None,
            },
    {
        match self.probes.get(account_id) {
            Some(p) => {
                if now < p.at || now - p.at < PROBE_CACHE_NANOS {
                    Some(health_snapshot(account_id, p.token_ok, p.ws_connected))
                } else {
                    None
                }
            },
            None => None,
        }
    }

    /// What is known of an account before it is probed at the time `now`: the result of an earlier
    /// probe that can be reused, or nothing where the account has to be asked.
    pub fn start_probe(&self, account_id: &str, now: u128) -> (r: Result<
        Option<ChannelHealthSnapshot>,
        ChannelError<String>,
    >)
        requires
            self.wf(),
        ensures
            match self.kept_probe(account_id@) {
                Some((token_ok, ws_connected, at)) if now - at < PROBE_CACHE_NANOS => {
                    r matches Ok(Some(s)) && snapshot_view(s) == health_of(
                        account_id@,
                        token_ok,
                        ws_connected,
                    )
                },
                _ => if self@.dom().contains(account_id@) {
                    r matches Ok(None)
                } else {
                    r matches Err(e) && e@ == ChannelError::UnknownAccount(account_id@)
                },
            },
    {
        let cached = self.cached_probe(account_id, now);
        if cached.is_none() && !self.accounts.contains(account_id) {
            return Err(ChannelError::UnknownAccount(account_id.to_string()));
        }
        Ok(cached)
    }

    /// What a probe found that ended at the time `now`; it is kept for later.
    pub fn finish_probe(
        &mut self,
        account_id: &str,
        token_ok: bool,
        ws_connected: bool,
        now: u128,
    ) -> (r: ChannelHealthSnapshot)
        requires
            old(self).wf(),
        ensures
            final(self).wf(),
            final(self)@ == old(self)@,
            snapshot_view(r) == health_of(account_id@, token_ok, ws_connected),
            final(self).kept_probe(account_id@) == Some((token_ok, ws_connected, now)),
            forall|a: Seq<char>|
                a != account_id@ ==> final(self).kept_probe(a) == old(self).kept_probe(a),
    {
        self.probes.insert(account_id, CachedProbe { token_ok, ws_connected, at: now });
        health_snapshot(account_id, token_ok, ws_connected)
    }
}

impl Default for FeishuPlugin {
    fn default() -> (r: Self)
        ensures
            r.wf(),
            r@ == Map::<Seq<char>, FeishuAccountConfig>::empty(),
            forall|a: Seq<char>| r.kept_probe(a) is None,
    {
        FeishuPlugin::new()
    }
}

} // verus!
