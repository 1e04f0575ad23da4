//! The configuration the cleaner is built from.

use vstd::prelude::*;

verus! {

/// The whole configuration.
#[derive(Debug)]
pub struct DysonConfig {
    /// The registry to clean.
    pub registry: RegistryConfig,
    /// The accounts whose workloads are scanned for image references.
    pub scans: Vec<ScanConfig>,
    /// Where to report results, if anywhere.
    pub notifier: Option<NotifierConfig>,
}

/// The registry to clean.
#[derive(Debug)]
pub struct RegistryConfig {
    /// A display name.
    pub name: Option<String>,
    /// The credentials profile to use.
    pub profile_name: String,
    /// Glob patterns of repositories to skip entirely.
    pub excludes: Option<Vec<String>>,
    /// Filter rules, all of which an image must pass.
    pub filters: Option<Vec<RepositoryFilterConfig>>,
}

/// One filter rule.
#[derive(Debug)]
pub struct RepositoryFilterConfig {
    /// Glob pattern of the repositories the rule applies to.
    pub pattern: String,
    /// Minimum age in days of an image the rule lets through (0 if absent).
    pub days_after: Option<u64>,
    /// Glob patterns of tags the rule never lets through.
    pub ignore_tag_patterns: Option<Vec<String>>,
}

/// Where to report results.
#[derive(Debug)]
pub struct NotifierConfig {
    /// A chat webhook.
    pub slack: SlackNotifierConfig,
}

/// A chat webhook to report to.
#[derive(Debug)]
pub struct SlackNotifierConfig {
    /// The webhook endpoint.
    pub webhook_url: String,
    /// The name to post as.
    pub username: Option<String>,
    /// The channel to post to.
    pub channel: Option<String>,
    /// The icon to post with.
    pub icon_url: Option<String>,
}

/// One account to scan for image references.
#[derive(Debug)]
pub struct ScanConfig {
    /// A display name.
    pub name: Option<String>,
    /// The credentials profile to use.
    pub profile_name: String,
}

/// `o` holds a string with the characters `s`.
pub open spec fn holds_text(o: Option<String>, s: Seq<char>) -> bool {
    o matches Some(t) && t@ == s
}

/// The characters of each string of `v`.
pub open spec fn texts_of(v: Seq<String>) -> Seq<Seq<char>> {
    v.map_values(|t: String| t@)
}

/// `o` holds a list of strings with the characters `s`.
pub open spec fn holds_texts(o: Option<Vec<String>>, s: Seq<Seq<char>>) -> bool {
    o matches Some(v) && texts_of(v@) == s
}

impl DysonConfig {
    /// A configuration to start from.
    pub fn example_config() -> (r: DysonConfig)
        ensures
            holds_text(r.registry.name, "my-registry"@),
            r.registry.profile_name@ == "profile1"@,
            holds_texts(r.registry.excludes, seq!["exclude/*"@]),
            r.registry.filters is Some,
            r.registry.filters->0@.len() == 1,
            r.registry.filters->0@[0].pattern@ == "*"@,
            r.registry.filters->0@[0].days_after == Some(30u64),
            holds_texts(r.registry.filters->0@[0].ignore_tag_patterns, seq!["latest"@]),
            r.scans@.len() == 1,
            holds_text(r.scans@[0].name, "scan-target"@),
            r.scans@[0].profile_name@ == "profile2"@,
            r.notifier is Some,
            r.notifier->0.slack.webhook_url@ == "https://hooks.slack.com/services/xxx/yyy/zzz"@,
            holds_text(r.notifier->0.slack.username, "dyson-bot"@),
            holds_text(r.notifier->0.slack.channel, "random"@),
            r.notifier->0.slack.icon_url is None,
    {
        let excludes = vec!["exclude/*".to_owned()];
        let ignore_tag_patterns = vec!["latest".to_owned()];
        assert(texts_of(excludes@) =~= seq!["exclude/*"@]);
        assert(texts_of(ignore_tag_patterns@) =~= seq!["latest"@]);
        DysonConfig {
            registry: RegistryConfig {
                name: Some("my-registry".to_owned()),
                profile_name: "profile1".to_owned(),
                excludes: Some(excludes),
                filters: Some(
                    vec![
                        RepositoryFilterConfig {
                            pattern: "*".to_owned(),
                            days_after: Some(30),
                            ignore_tag_patterns: Some(ignore_tag_patterns),
                        },
                    ],
                ),
            },
            scans: vec![
                ScanConfig { name: Some("scan-target".to_owned()), profile_name: "profile2".to_owned() },
            ],
            notifier: Some(
                NotifierConfig {
                    slack: SlackNotifierConfig {
                        webhook_url: "https://hooks.slack.com/services/xxx/yyy/zzz".to_owned(),
                        username: Some("dyson-bot".to_owned()),
                        channel: Some("random".to_owned()),
                        icon_url: None,
                    },
                },
            ),
        }
    }
}

} // verus!
