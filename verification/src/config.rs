//! The settings of the dashboard store.

use crate::entry;
use crate::text;
use vstd::prelude::*;

verus! {

/// The directory that dashboards are mounted in, unless another is set.
pub const DEFAULT_DIR: &'static str = "/etc/vedavid/dashboards";

/// The seconds between two polls of the directory, unless others are set.
pub const DEFAULT_POLL: u64 = 30;

/// What bounds a scan.
#[derive(Debug, Clone, Copy, PartialEq, Eq, Structural)]
pub struct Limits {
    pub max_dashboards: usize,
    pub max_dashboard_bytes: u64,
    pub max_directory_bytes: u64,
}

/// The limits that hold unless others are set: a hundred dashboards, 256 KiB for
/// each file and 4 MiB for the directory.
pub open spec fn default_limits() -> Limits {
    Limits {
        max_dashboards: 100,
        max_dashboard_bytes: 262144,
        max_directory_bytes: 4194304,
    }
}

impl Default for Limits {
    fn default() -> (r: Self)
        ensures
            r == default_limits(),
    {
        Limits {
            max_dashboards: 100,
            max_dashboard_bytes: 256 * 1024,
            max_directory_bytes: 4 * 1024 * 1024,
        }
    }
}

/// The settings of the dashboard store.
#[derive(Debug)]
pub struct Config {
    pub enabled: bool,
    pub path: String,
    /// The seconds between two polls of the directory.
    pub poll: u64,
    pub builtins: bool,
    pub cluster_label: String,
    /// Counted, never read: the directory is flat and carries no provenance.
    pub sources: Vec<String>,
    pub limits: Limits,
}

/// What a [`Config`] stands for.
#[verifier::ext_equal]
pub struct ConfigView {
    pub enabled: bool,
    pub path: Seq<char>,
    pub poll: u64,
    pub builtins: bool,
    pub cluster_label: Seq<char>,
    pub sources: Seq<Seq<char>>,
    pub limits: Limits,
}

impl View for Config {
    type V = ConfigView;

    open spec fn view(&self) -> ConfigView {
        ConfigView {
            enabled: self.enabled,
            path: self.path@,
            poll: self.poll,
            builtins: self.builtins,
            cluster_label: self.cluster_label@,
            sources: text::views(self.sources@),
            limits: self.limits,
        }
    }
}

impl Clone for Config {
    fn clone(&self) -> (r: Self)
        ensures
            r@ == self@,
    {
        let mut sources: Vec<String> = Vec::new();
        let mut i: usize = 0;
        while i < self.sources.len()
            invariant
                i <= self.sources.len(),
                sources.len() == i,
                forall|k: int| 0 <= k < i ==> (#[trigger] sources@[k])@ == self.sources@[k]@,
            decreases self.sources.len() - i,
        {
            sources.push(self.sources[i].clone());
            i = i + 1;
        }
        assert(text::views(sources@) =~= text::views(self.sources@));
        Config {
            enabled: self.enabled,
            path: self.path.clone(),
            poll: self.poll,
            builtins: self.builtins,
            cluster_label: self.cluster_label.clone(),
            sources,
            limits: self.limits,
        }
    }
}

/// The settings that hold unless others are set.
pub open spec fn default_config() -> ConfigView {
    ConfigView {
        enabled: true,
        path: "/etc/vedavid/dashboards"@,
        poll: 30,
        builtins: true,
        cluster_label: Seq::empty(),
        sources: Seq::empty(),
        limits: default_limits(),
    }
}

impl Default for Config {
    fn default() -> (r: Self)
        ensures
            r@ == default_config(),
    {
        let r = Config {
            enabled: true,
            path: DEFAULT_DIR.to_owned(),
            poll: DEFAULT_POLL,
            builtins: true,
            cluster_label: String::new(),
            sources: Vec::new(),
            limits: Limits::default(),
        };
        assert(text::views(r.sources@) =~= Seq::<Seq<char>>::empty());
        r
    }
}

/// The values of the environment variables that hold settings. One that is not
/// set, or is no text, is `None`.
#[derive(Debug, Default)]
pub struct Environment {
    /// `VEDAVID_DASHBOARDS_ENABLED`
    pub enabled: Option<String>,
    /// `VEDAVID_DASHBOARD_DIR`
    pub dir: Option<String>,
    /// `VEDAVID_DASHBOARD_POLL_SECONDS`
    pub poll_seconds: Option<String>,
    /// `VEDAVID_DASHBOARD_BUILTINS`
    pub builtins: Option<String>,
    /// `VEDAVID_CLUSTER_LABEL`
    pub cluster_label: Option<String>,
    /// `VEDAVID_DASHBOARD_SOURCES`
    pub sources: Option<String>,
    /// `VEDAVID_MAX_DASHBOARDS`
    pub max_dashboards: Option<String>,
    /// `VEDAVID_MAX_DASHBOARD_BYTES`
    pub max_dashboard_bytes: Option<String>,
    /// `VEDAVID_MAX_DIRECTORY_BYTES`
    pub max_directory_bytes: Option<String>,
}

/// A switch is on unless its variable says `false`; a variable that is not set
/// leaves it as it is.
pub open spec fn switch(value: Option<Seq<char>>, fallback: bool) -> bool {
    match value {
        Some(v) => v != "false"@,
        None => fallback,
    }
}

/// A number is the one that its variable writes; one that is not set, or writes no
/// number, leaves it as it is.
pub open spec fn quantity(value: Option<Seq<char>>, fallback: u64) -> u64 {
    match value {
        Some(v) => match text::parsed_u64(v) {
            Some(n) => n,
            None => fallback,
        },
        None => fallback,
    }
}

/// A text is the one in its variable; one that is not set leaves it as it is.
pub open spec fn wording(value: Option<Seq<char>>, fallback: Seq<char>) -> Seq<char> {
    match value {
        Some(v) => v,
        None => fallback,
    }
}

/// The settings that the environment makes of the defaults.
pub open spec fn configured(env: Environment) -> ConfigView {
    let d = default_config();
    ConfigView {
        enabled: switch(entry::optional(env.enabled), d.enabled),
        path: wording(entry::optional(env.dir), d.path),
        poll: quantity(entry::optional(env.poll_seconds), d.poll),
        builtins: switch(entry::optional(env.builtins), d.builtins),
        cluster_label: wording(entry::optional(env.cluster_label), d.cluster_label),
        sources: match env.sources {
            Some(list) => text::listed_names(list@),
            None => d.sources,
        },
        limits: Limits {
            max_dashboards: quantity(
                entry::optional(env.max_dashboards),
                d.limits.max_dashboards as u64,
            ) as usize,
            max_dashboard_bytes: quantity(
                entry::optional(env.max_dashboard_bytes),
                d.limits.max_dashboard_bytes,
            ),
            max_directory_bytes: quantity(
                entry::optional(env.max_directory_bytes),
                d.limits.max_directory_bytes,
            ),
        },
    }
}

/// A switch, as its variable sets it.
fn switch_from(value: &Option<String>, fallback: bool) -> (r: bool)
    ensures
        r == switch(entry::optional(*value), fallback),
{
    match value {
        Some(v) => !text::is_same(v.as_str(), "false"),
        None => fallback,
    }
}

/// A number, as its variable sets it.
fn quantity_from(value: &Option<String>, fallback: u64) -> (r: u64)
    ensures
        r == quantity(entry::optional(*value), fallback),
{
    match value {
        Some(v) => match text::parse_u64(v.as_str()) {
            Some(n) => n,
            None => fallback,
        },
        None => fallback,
    }
}

/// A text, as its variable sets it.
fn wording_from(value: Option<String>, fallback: String) -> (r: String)
    ensures
        r@ == wording(entry::optional(value), fallback@),
{
    match value {
        Some(v) => v,
        None => fallback,
    }
}

impl ConfigView {
    /// Whether the settings leave no dashboard that could ever be served.
    pub open spec fn serves_nothing(self) -> bool {
        self.enabled && !self.builtins && self.sources.len() == 0
    }
}

impl Config {
    /// The settings that the environment makes of the defaults.
    pub fn from_env(env: Environment) -> (r: Self)
        ensures
            r@ == configured(env),
    {
        let d = Config::default();
        let sources = match &env.sources {
            Some(list) => text::names(list.as_str()),
            None => d.sources,
        };
        Config {
            enabled: switch_from(&env.enabled, d.enabled),
            path: wording_from(env.dir, d.path),
            poll: quantity_from(&env.poll_seconds, d.poll),
            builtins: switch_from(&env.builtins, d.builtins),
            cluster_label: wording_from(env.cluster_label, d.cluster_label),
            sources,
            limits: Limits {
                max_dashboards: quantity_from(
                    &env.max_dashboards,
                    d.limits.max_dashboards as u64,
                ) as usize,
                max_dashboard_bytes: quantity_from(
                    &env.max_dashboard_bytes,
                    d.limits.max_dashboard_bytes,
                ),
                max_directory_bytes: quantity_from(
                    &env.max_directory_bytes,
                    d.limits.max_directory_bytes,
                ),
            },
        }
    }

    /// A connector that could serve no dashboard at all is a misconfiguration,
    /// not a degraded mode.
    pub fn validate(&self) -> (r: Result<(), String>)
        ensures
            r is Err <==> self@.serves_nothing(),
            r matches Err(message) ==> message@
                == "dashboards.enabled is true with no sources and builtins disabled, so no dashboard could ever be served"@,
    {
        if self.enabled && !self.builtins && self.sources.len() == 0 {
            return Err(
                "dashboards.enabled is true with no sources and builtins disabled, so no dashboard could ever be served".to_owned(),
            );
        }
        Ok(())
    }
}

} // verus!
