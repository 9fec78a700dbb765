//! The configuration of a bot account.

use vstd::prelude::*;

verus! {

/// Who may write to the bot directly.
#[derive(Debug, Clone, Copy, PartialEq, Eq, Structural)]
pub enum DmPolicy {
    Open,
    Allowlist,
    Disabled,
}

/// In which groups the bot answers.
#[derive(Debug, Clone, Copy, PartialEq, Eq, Structural)]
pub enum GroupPolicy {
    Open,
    Allowlist,
    Disabled,
}

/// When the bot answers in a group.
#[derive(Debug, Clone, Copy, PartialEq, Eq, Structural)]
pub enum MentionMode {
    /// Only when it is mentioned.
    Mention,
    Always,
    Never,
}

impl Default for DmPolicy {
    fn default() -> (r: Self)
        ensures
            r == DmPolicy::Allowlist,
    {
        DmPolicy::Allowlist
    }
}

impl Default for GroupPolicy {
    fn default() -> (r: Self)
        ensures
            r == GroupPolicy::Open,
    {
        GroupPolicy::Open
    }
}

impl Default for MentionMode {
    fn default() -> (r: Self)
        ensures
            r == MentionMode::Mention,
    {
        MentionMode::Mention
    }
}

/// The configuration of a bot account.
pub struct FeishuAccountConfig {
    /// The app's id from the developer console.
    pub app_id: String,
    /// The app's secret from the developer console.
    pub app_secret: String,
    /// Where the API is.
    pub base_url: String,
    /// A connection address of its own; empty to ask the API for one.
    pub ws_endpoint: String,
    pub dm_policy: DmPolicy,
    pub group_policy: GroupPolicy,
    pub mention_mode: MentionMode,
    /// Who may write directly under the allow-list policy.
    pub allowlist: Vec<String>,
    /// The groups that the bot answers in under the allow-list policy.
    pub group_allowlist: Vec<String>,
    pub model: Option<String>,
    pub model_provider: Option<String>,
    pub agent_id: Option<String>,
    /// Whether users may switch the agent.
    pub allow_agent_switch: bool,
    /// After how many days an idle session is archived; zero means never.
    pub session_auto_archive_days: u64,
}

impl Default for FeishuAccountConfig {
    fn default() -> (r: Self)
        ensures
            r.app_id@ == ""@,
            r.app_secret@ == ""@,
            r.base_url@ == "https://open.feishu.cn"@,
            r.ws_endpoint@ == ""@,
            r.dm_policy == DmPolicy::Allowlist,
            r.group_policy == GroupPolicy::Open,
            r.mention_mode == MentionMode::Mention,
            r.allowlist@.len() == 0,
            r.group_allowlist@.len() == 0,
            r.model is None,
            r.model_provider is None,
            r.agent_id is None,
            !r.allow_agent_switch,
            r.session_auto_archive_days == 30,
    {
        FeishuAccountConfig {
            app_id: "".to_string(),
            app_secret: "".to_string(),
            base_url: "https://open.feishu.cn".to_string(),
            ws_endpoint: "".to_string(),
            dm_policy: DmPolicy::default(),
            group_policy: GroupPolicy::default(),
            mention_mode: MentionMode::default(),
            allowlist: Vec::new(),
            group_allowlist: Vec::new(),
            model: None,
            model_provider: None,
            agent_id: None,
            allow_agent_switch: false,
            session_auto_archive_days: 30,
        }
    }
}

} // verus!
