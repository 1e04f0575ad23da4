use std::collections::HashSet;
use std::time::SystemTime;

use aws_smithy_types::date_time::Format;
use aws_smithy_types::DateTime;
use dyson::config::RepositoryFilterConfig;
use dyson::filter::{ImageFilter, ImageFilterItem, RepositoryExcluder};
use dyson::image::{EcrImageDetail, EcrImageId, Timestamp};
use dyson::pattern::GlobPattern;
use dyson::provider::ImageProviderErrorKind;

fn timestamp_of(t: SystemTime) -> Timestamp {
    match t.duration_since(SystemTime::UNIX_EPOCH) {
        Ok(d) => Timestamp::new(d.as_secs() as i64, d.subsec_nanos()),
        Err(e) => {
            let d = e.duration();
            if d.subsec_nanos() == 0 {
                Timestamp::new(-(d.as_secs() as i64), 0)
            } else {
                Timestamp::new(-(d.as_secs() as i64) - 1, 1_000_000_000 - d.subsec_nanos())
            }
        }
    }
}

fn date(s: &str) -> Timestamp {
    let d = DateTime::from_str(s, Format::DateTime).unwrap();
    Timestamp::new(d.secs(), d.subsec_nanos())
}

fn pattern(p: &str) -> GlobPattern {
    GlobPattern::new(p).unwrap()
}

#[test]
fn filter_test() {
    struct TestCase {
        name: String,
        excluder: Option<RepositoryExcluder>,
        filter: ImageFilter,
        now: SystemTime,
        input: Vec<EcrImageDetail>,
        expected: HashSet<EcrImageId>,
    }

    let cases = vec![
        TestCase {
            name: "All images will be target if no filters".to_string(),
            excluder: None,
            filter: ImageFilter { filters: vec![] },
            now: SystemTime::UNIX_EPOCH,
            input: vec![EcrImageDetail::new(
                "registry_id",
                "region",
                "repository_name",
                "image_tag",
                date("1970-01-01T00:00:00Z"),
            )],
            expected: HashSet::from([EcrImageId::new(
                "registry_id",
                "region",
                "repository_name",
                "image_tag",
            )]),
        },
        TestCase {
            name: "If repository name does not match, image will be target".to_string(),
            excluder: None,
            filter: ImageFilter {
                filters: vec![ImageFilterItem {
                    pattern: pattern("dummy-*"),
                    days_after: 0,
                    ignore_tag_patterns: vec![],
                }],
            },
            now: SystemTime::UNIX_EPOCH,
            input: vec![EcrImageDetail::new(
                "registry_id",
                "region",
                "repository_name",
                "image_tag",
                date("1970-01-01T00:00:00Z"),
            )],
            expected: HashSet::from([EcrImageId::new(
                "registry_id",
                "region",
                "repository_name",
                "image_tag",
            )]),
        },
        TestCase {
            name: "Repository name is matched, but the image is too new to be deleted".to_string(),
            excluder: None,
            filter: ImageFilter {
                filters: vec![ImageFilterItem {
                    pattern: pattern("match-*"),
                    days_after: 30,
                    ignore_tag_patterns: vec![],
                }],
            },
            now: SystemTime::UNIX_EPOCH,
            input: vec![EcrImageDetail::new(
                "registry_id",
                "region",
                "match-2",
                "image_tag",
                date("1969-12-03T00:00:00Z"),
            )],
            expected: Default::default(),
        },
        TestCase {
            name: "Repository name is matched, and the image is old enough to be deleted".to_string(),
            excluder: None,
            filter: ImageFilter {
                filters: vec![ImageFilterItem {
                    pattern: pattern("match-*"),
                    days_after: 30,
                    ignore_tag_patterns: vec![],
                }],
            },
            now: SystemTime::UNIX_EPOCH,
            input: vec![EcrImageDetail::new(
                "registry_id",
                "region",
                "match-2",
                "image_tag",
                // UNIX_EPOCH - 31 days. this image is old enough to be deleted
                date("1969-12-01T00:00:00Z"),
            )],
            expected: HashSet::from([EcrImageId::new(
                "registry_id",
                "region",
                "match-2",
                "image_tag",
            )]),
        },
        TestCase {
            name: "Repository name is matched, and the image is old enough to be deleted, but the tag matches ignore_tag_pattern".to_string(),
            excluder: None,
            filter: ImageFilter {
                filters: vec![ImageFilterItem {
                    pattern: pattern("match-*"),
                    days_after: 30,
                    ignore_tag_patterns: vec![pattern("ignore1-*"), pattern("ignore2-*")],
                }],
            },
            now: SystemTime::UNIX_EPOCH,
            input: vec![EcrImageDetail::new(
                "registry_id",
                "region",
                "match-2",
                // this tag matches ignore_tag_pattern
                "ignore2-tag",
                // UNIX_EPOCH - 31 days. this image is old enough to be deleted
                date("1969-12-01T00:00:00Z"),
            )],
            expected: Default::default(),
        },
        TestCase {
            name: "If repository name matches multiple filters, images will be target if all filter matches".to_string(),
            excluder: None,
            filter: ImageFilter {
                filters: vec![
                    ImageFilterItem {
                        pattern: pattern("match-*"),
                        days_after: 50,
                        ignore_tag_patterns: vec![],
                    },
                    ImageFilterItem {
                        pattern: pattern("match-*"),
                        days_after: 30,
                        ignore_tag_patterns: vec![],
                    },
                ],
            },
            now: SystemTime::UNIX_EPOCH,
            input: vec![EcrImageDetail::new(
                "registry_id",
                "region",
                "match-1",
                // this tag matches ignore_tag_pattern
                "ignore2-tag",
                // UNIX_EPOCH - 31 days. this image matches one filter, but not all filters
                date("1969-12-01T00:00:00Z"),
            )],
            expected: Default::default(),
        },
        TestCase {
            name: "Repository is excluded by excluder".to_string(),
            excluder: Some(RepositoryExcluder {
                patterns: vec![pattern("match-*")],
            }),
            filter: ImageFilter { filters: vec![] },
            now: SystemTime::UNIX_EPOCH,
            input: vec![EcrImageDetail::new(
                "registry_id",
                "region",
                "match-2",
                "image_tag",
                // UNIX_EPOCH - 31 days. this image is old enough to be deleted
                date("1969-12-01T00:00:00Z"),
            )],
            expected: HashSet::new(),
        },
    ];

    for case in cases {
        let now = timestamp_of(case.now);
        let actual = case
            .input
            .into_iter()
            .filter(|image| {
                if let Some(excluder) = &case.excluder {
                    return !excluder.is_excluded(&image.id.repository_name);
                }
                true
            })
            .filter(|image| case.filter.is_match(image, now))
            .map(|image| image.id)
            .collect::<HashSet<_>>();

        assert_eq!(actual, case.expected, "{}", case.name);
    }
}

fn rule(p: &str, days: Option<u64>, ignore: Option<Vec<&str>>) -> RepositoryFilterConfig {
    RepositoryFilterConfig {
        pattern: p.to_string(),
        days_after: days,
        ignore_tag_patterns: ignore.map(|v| v.into_iter().map(|s| s.to_string()).collect()),
    }
}

const DAY: i64 = 86_400;

#[test]
fn age_scenario_thirty_days() {
    let filter = ImageFilter::try_new(&[rule("match-*", Some(30), None)]).unwrap();
    let now = Timestamp::from_secs(0);
    let old = EcrImageDetail::new("r", "g", "match-2", "t", Timestamp::from_secs(-31 * DAY));
    let young = EcrImageDetail::new("r", "g", "match-2", "t", Timestamp::from_secs(-3 * DAY));
    assert!(filter.is_match(&old, now));
    assert!(!filter.is_match(&young, now));
}

#[test]
fn ignored_tag_scenario() {
    let filter =
        ImageFilter::try_new(&[rule("match-*", Some(30), Some(vec!["ignore2-*"]))]).unwrap();
    let now = Timestamp::from_secs(0);
    let image = EcrImageDetail::new("r", "g", "match-2", "ignore2-tag", Timestamp::from_secs(-31 * DAY));
    assert!(!filter.is_match(&image, now));
    let other = EcrImageDetail::new("r", "g", "match-2", "keep-tag", Timestamp::from_secs(-31 * DAY));
    assert!(filter.is_match(&other, now));
}

#[test]
fn age_boundary_is_inclusive() {
    let item = ImageFilterItem::try_new(&rule("*", Some(30), None)).unwrap();
    let now = Timestamp::new(1_000_000, 250);
    let cutoff = Timestamp::new(1_000_000 - 30 * DAY, 250);
    let just_after = Timestamp::new(1_000_000 - 30 * DAY, 251);
    assert!(item.is_match(&EcrImageDetail::new("r", "g", "n", "t", cutoff), now));
    assert!(!item.is_match(&EcrImageDetail::new("r", "g", "n", "t", just_after), now));
}

#[test]
fn absent_age_means_zero_days() {
    let item = ImageFilterItem::try_new(&rule("*", None, None)).unwrap();
    assert_eq!(item.days_after, 0);
    let now = Timestamp::from_secs(100);
    assert!(item.is_match(&EcrImageDetail::new("r", "g", "n", "t", Timestamp::from_secs(100)), now));
    assert!(!item.is_match(&EcrImageDetail::new("r", "g", "n", "t", Timestamp::new(100, 1)), now));
}

#[test]
fn rule_for_other_repositories_imposes_nothing() {
    let filter =
        ImageFilter::try_new(&[rule("other-*", Some(10_000), Some(vec!["*"]))]).unwrap();
    let image = EcrImageDetail::new("r", "g", "mine", "t", Timestamp::from_secs(0));
    assert!(filter.is_match(&image, Timestamp::from_secs(0)));
}

#[test]
fn overlapping_rules_must_all_agree() {
    let filter = ImageFilter::try_new(&[
        rule("match-*", Some(50), None),
        rule("*-1", Some(30), None),
    ])
    .unwrap();
    let now = Timestamp::from_secs(0);
    let forty = EcrImageDetail::new("r", "g", "match-1", "t", Timestamp::from_secs(-40 * DAY));
    let sixty = EcrImageDetail::new("r", "g", "match-1", "t", Timestamp::from_secs(-60 * DAY));
    assert!(!filter.is_match(&forty, now));
    assert!(filter.is_match(&sixty, now));
}

#[test]
fn largest_age_does_not_overflow() {
    let item = ImageFilterItem::try_new(&rule("*", Some(u64::MAX), None)).unwrap();
    let image = EcrImageDetail::new("r", "g", "n", "t", Timestamp::new(i64::MIN, 0));
    assert!(!item.is_match(&image, Timestamp::new(i64::MAX, 999_999_999)));
}

#[test]
fn select_images_keeps_eligible_ones() {
    let filter = ImageFilter::try_new(&[rule("*", Some(1), Some(vec!["latest"]))]).unwrap();
    let now = Timestamp::from_secs(10 * DAY);
    let images = vec![
        EcrImageDetail::new("r", "g", "a", "v1", Timestamp::from_secs(0)),
        EcrImageDetail::new("r", "g", "a", "latest", Timestamp::from_secs(0)),
        EcrImageDetail::new("r", "g", "b", "v2", Timestamp::from_secs(10 * DAY)),
        EcrImageDetail::new("r", "g", "b", "v3", Timestamp::from_secs(8 * DAY)),
    ];
    let selected: HashSet<EcrImageId> = filter.select_images(&images, now).into_iter().collect();
    assert_eq!(
        selected,
        HashSet::from([EcrImageId::new("r", "g", "a", "v1"), EcrImageId::new("r", "g", "b", "v3")])
    );
}

#[test]
fn excluded_repository_never_enters_the_candidates() {
    let excluder = RepositoryExcluder::new(&["match-*".to_string()]).unwrap();
    assert!(excluder.is_excluded("match-2"));
    assert!(!excluder.is_excluded("other"));
    let repos = vec!["match-2".to_string(), "other".to_string(), "match-".to_string(), "x".to_string()];
    assert_eq!(excluder.included_repositories(&repos), vec!["other".to_string(), "x".to_string()]);
    let none = RepositoryExcluder::new(&[]).unwrap();
    assert_eq!(none.included_repositories(&repos), repos);
}

#[test]
fn malformed_patterns_are_initialization_errors() {
    let e = ImageFilterItem::try_new(&rule("a[", None, None)).err().unwrap();
    assert_eq!(e.kind, ImageProviderErrorKind::Initialization);
    assert_eq!(e.source, "a[");
    let e = ImageFilterItem::try_new(&rule("ok-*", None, Some(vec!["fine", "a***b"]))).err().unwrap();
    assert_eq!(e.kind, ImageProviderErrorKind::Initialization);
    assert_eq!(e.source, "a***b");
    let e = ImageFilter::try_new(&[rule("*", None, None), rule("[!", None, None)]).err().unwrap();
    assert_eq!(e.kind, ImageProviderErrorKind::Initialization);
    let e = RepositoryExcluder::new(&["good".to_string(), "x**y".to_string()]).err().unwrap();
    assert_eq!(e.kind, ImageProviderErrorKind::Initialization);
    assert_eq!(e.source, "x**y");
}

#[test]
fn filter_built_from_configuration() {
    let filter = ImageFilter::try_new(&[rule("match-*", Some(30), Some(vec!["ignore1-*", "ignore2-*"]))]).unwrap();
    assert_eq!(filter.filters.len(), 1);
    let item = &filter.filters[0];
    assert_eq!(item.pattern.as_str(), "match-*");
    assert_eq!(item.days_after, 30);
    let texts: Vec<&str> = item.ignore_tag_patterns.iter().map(|p| p.as_str()).collect();
    assert_eq!(texts, vec!["ignore1-*", "ignore2-*"]);
}

#[test]
fn glob_patterns_match_like_a_shell() {
    assert!(pattern("match-*").matches("match-2"));
    assert!(!pattern("match-*").matches("nomatch-2"));
    assert!(pattern("a?c").matches("abc"));
    assert!(!pattern("a?c").matches("ac"));
    assert!(pattern("exact").matches("exact"));
    assert!(!pattern("Exact").matches("exact"));
    assert!(GlobPattern::new("abc[def").is_none());
    assert_eq!(pattern("x*").as_str(), "x*");
}

#[test]
fn rule_verdict_after_matching() {
    let now = Timestamp::from_secs(0);
    let old = Timestamp::from_secs(-31 * DAY);
    let young = Timestamp::from_secs(-3 * DAY);
    let edge = Timestamp::from_secs(-30 * DAY);
    assert!(ImageFilterItem::verdict(true, false, old, now, 30));
    assert!(!ImageFilterItem::verdict(true, false, young, now, 30));
    assert!(ImageFilterItem::verdict(true, false, edge, now, 30));
    assert!(!ImageFilterItem::verdict(true, true, old, now, 30));
    assert!(ImageFilterItem::verdict(false, true, young, now, 30));
}

#[test]
fn ignored_tags_follow_the_patterns() {
    let item = ImageFilterItem::try_new(&rule("*", None, Some(vec!["ignore1-*", "v?"]))).unwrap();
    assert!(item.ignores_tag("ignore1-x"));
    assert!(item.ignores_tag("v1"));
    assert!(!item.ignores_tag("v10"));
    assert!(!item.ignores_tag("release"));
    let none = ImageFilterItem::try_new(&rule("*", None, None)).unwrap();
    assert!(!none.ignores_tag("anything"));
}
