//! The options of a run and how defaults and credentials are resolved.
use vstd::prelude::*;
use vstd::string::*;

use crate::contracts::{GateName, GateSet};
use crate::text::{blank, is_blank};

verus! {

pub const DEFAULT_MODEL: &'static str = "gpt-5.3-codex";

pub const DEFAULT_MAX_ITERATIONS: u32 = 3;

pub const DEFAULT_TIMEOUT_MINUTES: u64 = 45;

pub const DEFAULT_SPAWN_CAP: usize = 5;

pub const DEFAULT_CHILD_INLINE_TIMEOUT_MINUTES: u64 = 10;

pub const DEFAULT_SMALL_CHILD_MINUTES: u32 = 20;

pub const DEFAULT_HINDSIGHT_BANK: &'static str = "agent-loop";

/// The base URL of the local proxy that a proxy key alone selects.
pub const VIBEPROXY_BASE_URL: &'static str = "http://127.0.0.1:8318";

/// How strict a run is.
#[derive(Debug, Clone, Copy, PartialEq, Eq, Structural)]
pub enum LoopProfile {
    /// Ordinary delivery: every gate blocks.
    Delivery,
    /// Exploration: clippy does not block.
    Discovery,
    /// Production hardening.
    Hardening,
}

/// How the summary of a run is retained in the memory service.
#[derive(Debug, Clone, Copy, PartialEq, Eq, Structural)]
pub enum RetainMode {
    /// Wait until the summary is stored.
    Sync,
    /// Ask the service to store the summary in the background.
    Async,
    /// Do not retain a summary.
    Off,
}

/// Who carries out the project commands of a run.
#[derive(Debug, Clone, Copy, PartialEq, Eq, Structural)]
pub enum ExecutionDriver {
    /// An external agent, to which the loop hands the commands.
    Agent,
}

/// The options of `agent-loop run`.
#[derive(Debug, Clone)]
pub struct RunCommand {
    pub task: Option<String>,
    pub bootstrap: Option<String>,
    pub max_iterations: u32,
    pub timeout_minutes: u64,
    pub spawn_cap: usize,
    pub child_inline_timeout_minutes: u64,
    pub small_child_threshold_minutes: u32,
    pub model: Option<String>,
    pub hindsight_bank: String,
    pub driver: ExecutionDriver,
    pub profile: LoopProfile,
    pub non_blocking_gates: Vec<GateName>,
    pub retain_mode: RetainMode,
    pub json_events: bool,
    pub dry_run: bool,
}

/// The view of an optional string.
pub open spec fn opt_view(o: Option<String>) -> Option<Seq<char>> {
    match o {
        Some(s) => Some(s@),
        None => None,
    }
}

/// An optional string that is dropped when it is blank.
pub open spec fn non_blank(o: Option<Seq<char>>) -> Option<Seq<char>> {
    match o {
        Some(s) => if is_blank(s) {
            None
        } else {
            Some(s)
        },
        None => None,
    }
}

/// The gates that do not block under a profile, whatever the options add.
pub open spec fn profile_non_blocking(profile: LoopProfile, g: GateName) -> bool {
    profile == LoopProfile::Discovery && g == GateName::Clippy
}

/// The model of a run: the one given, unless it is missing or blank.
pub open spec fn model_choice(model: Option<Seq<char>>) -> Seq<char> {
    match non_blank(model) {
        Some(m) => m,
        None => DEFAULT_MODEL@,
    }
}

/// The API key: the OpenAI key when it is set and not blank, else the proxy key.
pub open spec fn api_key_choice(openai: Option<Seq<char>>, vibeproxy: Option<Seq<char>>) -> Option<
    Seq<char>,
> {
    match non_blank(openai) {
        Some(k) => Some(k),
        None => non_blank(vibeproxy),
    }
}

/// The base URL: the one given when it is set and not blank, else the local proxy
/// when a proxy key is set and not blank, else none.
pub open spec fn base_url_choice(base_url: Option<Seq<char>>, vibeproxy: Option<Seq<char>>) -> Option<
    Seq<char>,
> {
    match non_blank(base_url) {
        Some(u) => Some(u),
        None => match non_blank(vibeproxy) {
            Some(_) => Some(VIBEPROXY_BASE_URL@),
            None => None,
        },
    }
}

/// An optional string, dropped when blank.
pub fn filter_non_blank(o: Option<String>) -> (r: Option<String>)
    ensures
        opt_view(r) == non_blank(opt_view(o)),
{
    match o {
        Some(s) => if blank(s.as_str()) {
            None
        } else {
            Some(s)
        },
        None => None,
    }
}

impl RunCommand {
    /// The model given by flag or environment, or the default one.
    pub fn resolved_model(&self) -> (r: String)
        ensures
            r@ == model_choice(opt_view(self.model)),
    {
        match filter_non_blank(self.model.clone()) {
            Some(m) => m,
            None => String::from_str(DEFAULT_MODEL),
        }
    }

    /// The bootstrap goal, unless it is missing or blank.
    pub fn resolved_bootstrap_goal(&self) -> (r: Option<String>)
        ensures
            opt_view(r) == non_blank(opt_view(self.bootstrap)),
    {
        filter_non_blank(self.bootstrap.clone())
    }

    /// The gates named as non-blocking, together with those that the profile
    /// makes non-blocking.
    pub fn resolved_non_blocking_gates(&self) -> (r: GateSet)
        ensures
            forall|g: GateName| #[trigger]
                r.has(g) <==> (self.non_blocking_gates@.contains(g) || profile_non_blocking(
                    self.profile,
                    g,
                )),
    {
        let mut r = GateSet::new();
        if matches!(self.profile, LoopProfile::Discovery) {
            r.insert(GateName::Clippy);
        }
        let mut i: usize = 0;
        while i < self.non_blocking_gates.len()
            invariant
                i <= self.non_blocking_gates@.len(),
                forall|g: GateName| #[trigger]
                    r.has(g) <==> (self.non_blocking_gates@.take(i as int).contains(g)
                        || profile_non_blocking(self.profile, g)),
            decreases self.non_blocking_gates.len() - i,
        {
            let g = self.non_blocking_gates[i];
            r.insert(g);
            let ghost before = self.non_blocking_gates@.take(i as int);
            let ghost after = self.non_blocking_gates@.take(i + 1);
            assert(after =~= before.push(g));
            assert forall|h: GateName| after.contains(h) <==> (before.contains(h) || h == g) by {
                if after.contains(h) && h != g {
                    let k = choose|k: int| 0 <= k < after.len() && after[k] == h;
                    assert(before[k] == h);
                }
                if before.contains(h) {
                    let k = choose|k: int| 0 <= k < before.len() && before[k] == h;
                    assert(after[k] == h);
                }
                if h == g {
                    assert(after[i as int] == h);
                }
            }
            i = i + 1;
        }
        assert(self.non_blocking_gates@.take(self.non_blocking_gates@.len() as int)
            =~= self.non_blocking_gates@);
        r
    }
}

/// The API key: the OpenAI key first, the proxy key when it is missing or blank.
pub fn resolve_openai_api_key(
    openai_api_key: Option<String>,
    vibeproxy_api_key: Option<String>,
) -> (r: Option<String>)
    ensures
        opt_view(r) == api_key_choice(opt_view(openai_api_key), opt_view(vibeproxy_api_key)),
{
    match filter_non_blank(openai_api_key) {
        Some(k) => Some(k),
        None => filter_non_blank(vibeproxy_api_key),
    }
}

/// The base URL: the one given first, the local proxy when only a proxy key is set.
pub fn resolve_openai_base_url(
    openai_base_url: Option<String>,
    vibeproxy_api_key: Option<String>,
) -> (r: Option<String>)
    ensures
        opt_view(r) == base_url_choice(opt_view(openai_base_url), opt_view(vibeproxy_api_key)),
{
    match filter_non_blank(openai_base_url) {
        Some(u) => Some(u),
        None => match filter_non_blank(vibeproxy_api_key) {
            Some(_) => Some(String::from_str(VIBEPROXY_BASE_URL)),
            None => None,
        },
    }
}

/// A set OpenAI key always wins over the proxy key.
pub proof fn lemma_openai_key_first(openai: Seq<char>, vibeproxy: Option<Seq<char>>)
    requires
        !is_blank(openai),
    ensures
        api_key_choice(Some(openai), vibeproxy) == Some(openai),
{
}

/// A set base URL always wins over the proxy fallback.
pub proof fn lemma_base_url_first(base_url: Seq<char>, vibeproxy: Option<Seq<char>>)
    requires
        !is_blank(base_url),
    ensures
        base_url_choice(Some(base_url), vibeproxy) == Some(base_url),
{
}

/// A proxy key alone selects both the proxy key and the local proxy URL.
pub proof fn lemma_proxy_key_alone(vibeproxy: Seq<char>)
    requires
        !is_blank(vibeproxy),
    ensures
        api_key_choice(None, Some(vibeproxy)) == Some(vibeproxy),
        base_url_choice(None, Some(vibeproxy)) == Some(VIBEPROXY_BASE_URL@),
{
}

/// A model that is given and not blank always wins over the default.
pub proof fn lemma_model_override_first(model: Seq<char>)
    requires
        !is_blank(model),
    ensures
        model_choice(Some(model)) == model,
{
}

} // verus!
