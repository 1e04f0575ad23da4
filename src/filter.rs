//! The filter engine: which registry images are deletion candidates, and
//! which repositories are skipped entirely.

use vstd::prelude::*;

use crate::config::{RepositoryFilterConfig, texts_of};
use crate::image::{EcrImageDetail, EcrImageId, ImageRef, NANOS_PER_DAY, Timestamp, id_set};
use crate::pattern::{GlobPattern, glob_is_valid, glob_matches};
use crate::provider::{ImageProviderError, ImageProviderErrorKind};

verus! {

/// The mathematical value of an [`ImageFilterItem`].
pub struct FilterRule {
    /// Pattern text of the repositories the rule applies to.
    pub pattern: Seq<char>,
    /// Minimum age in days.
    pub days_after: nat,
    /// Pattern texts of the tags the rule never lets through.
    pub ignore_tag_patterns: Seq<Seq<char>>,
}

/// The pattern texts of a list of compiled patterns.
pub open spec fn pattern_texts(v: Seq<GlobPattern>) -> Seq<Seq<char>> {
    v.map_values(|p: GlobPattern| p@)
}

/// Some pattern of `patterns` matches `s`.
pub open spec fn any_matches(patterns: Seq<Seq<char>>, s: Seq<char>) -> bool {
    exists|i: int| 0 <= i < patterns.len() && glob_matches(#[trigger] patterns[i], s)
}

/// An image pushed at `pushed` is at least `days` days old at `now`
/// (both in nanoseconds since the epoch).
pub open spec fn old_enough(pushed: int, now: int, days: nat) -> bool {
    pushed <= now - days * NANOS_PER_DAY
}

/// What one rule says of an image pushed at `pushed`, judged at `now`.
/// A rule whose pattern does not match the repository imposes nothing;
/// otherwise the image must be old enough and its tag must match none of
/// the rule's ignore patterns.
pub open spec fn rule_admits(rule: FilterRule, image: ImageRef, pushed: int, now: int) -> bool {
    glob_matches(rule.pattern, image.repository_name) ==> {
        &&& old_enough(pushed, now, rule.days_after)
        &&& !any_matches(rule.ignore_tag_patterns, image.image_tag)
    }
}

/// Every rule of `rules` admits the image.
pub open spec fn rules_admit(rules: Seq<FilterRule>, image: ImageRef, pushed: int, now: int) -> bool {
    forall|i: int| 0 <= i < rules.len() ==> rule_admits(#[trigger] rules[i], image, pushed, now)
}

/// The ignore patterns of a rule configuration; none when absent.
pub open spec fn ignore_patterns_of(conf: RepositoryFilterConfig) -> Seq<Seq<char>> {
    match conf.ignore_tag_patterns {
        Some(v) => texts_of(v@),
        None => seq![],
    }
}

/// Every pattern of a rule configuration compiles.
pub open spec fn rule_config_valid(conf: RepositoryFilterConfig) -> bool {
    &&& glob_is_valid(conf.pattern@)
    &&& forall|i: int|
        0 <= i < ignore_patterns_of(conf).len() ==> glob_is_valid(#[trigger] ignore_patterns_of(conf)[i])
}

/// The rule a configuration describes.
pub open spec fn rule_of(conf: RepositoryFilterConfig) -> FilterRule {
    FilterRule {
        pattern: conf.pattern@,
        days_after: match conf.days_after {
            Some(d) => d as nat,
            None => 0,
        },
        ignore_tag_patterns: ignore_patterns_of(conf),
    }
}

/// One filter rule.
pub struct ImageFilterItem {
    /// The repositories the rule applies to.
    pub pattern: GlobPattern,
    /// An image is a candidate only once this many days have passed since its push.
    pub days_after: u64,
    /// Tags the rule never lets through.
    pub ignore_tag_patterns: Vec<GlobPattern>,
}

impl View for ImageFilterItem {
    type V = FilterRule;

    open spec fn view(&self) -> FilterRule {
        FilterRule {
            pattern: self.pattern@,
            days_after: self.days_after as nat,
            ignore_tag_patterns: pattern_texts(self.ignore_tag_patterns@),
        }
    }
}

/// Compiles each pattern of `texts`; on the first that does not compile,
/// an initialization error naming it.
fn compile_all(texts: &[String]) -> (r: Result<Vec<GlobPattern>, ImageProviderError>)
    ensures
        r is Ok <==> forall|i: int| 0 <= i < texts@.len() ==> glob_is_valid(#[trigger] texts@[i]@),
        r matches Ok(v) ==> pattern_texts(v@) == texts_of(texts@),
        r matches Err(e) ==> e.kind == ImageProviderErrorKind::Initialization && !glob_is_valid(
            e.source@,
        ),
{
    let mut out: Vec<GlobPattern> = Vec::new();
    let mut i: usize = 0;
    while i < texts.len()
        invariant
            i <= texts@.len(),
            out@.len() == i,
            forall|k: int| 0 <= k < i ==> glob_is_valid(#[trigger] texts@[k]@),
            forall|k: int| 0 <= k < i ==> (#[trigger] out@[k])@ == texts@[k]@,
        decreases texts@.len() - i,
    {
        match GlobPattern::new(texts[i].as_str()) {
            Some(p) => out.push(p),
            None => {
                return Err(ImageProviderError::initialization_error(texts[i].clone()));
            },
        }
        i = i + 1;
    }
    assert(pattern_texts(out@) =~= texts_of(texts@));
    Ok(out)
}

impl ImageFilterItem {
    /// Compiles a rule configuration.
    pub fn try_new(conf: &RepositoryFilterConfig) -> (r: Result<ImageFilterItem, ImageProviderError>)
        ensures
            r is Ok <==> rule_config_valid(*conf),
            r matches Ok(item) ==> item@ == rule_of(*conf),
            r matches Err(e) ==> e.kind == ImageProviderErrorKind::Initialization && !glob_is_valid(
                e.source@,
            ),
    {
        let pattern = match GlobPattern::new(conf.pattern.as_str()) {
            Some(p) => p,
            None => {
                return Err(ImageProviderError::initialization_error(conf.pattern.clone()));
            },
        };
        let ignore_tag_patterns = match &conf.ignore_tag_patterns {
            Some(texts) => match compile_all(texts.as_slice()) {
                Ok(v) => v,
                Err(e) => {
                    proof {
                        let k = choose|k: int| 0 <= k < texts@.len() && !glob_is_valid(texts@[k]@);
                        assert(ignore_patterns_of(*conf)[k] == texts@[k]@);
                    }
                    return Err(e);
                },
            },
            None => {
                assert(pattern_texts(Seq::<GlobPattern>::empty()) =~= seq![]);
                Vec::new()
            },
        };
        let days_after = match conf.days_after {
            Some(d) => d,
            None => 0,
        };
        Ok(ImageFilterItem { pattern, days_after, ignore_tag_patterns })
    }

    /// What a rule decides once its patterns have been matched: whether
    /// `repository_matches` (the rule's pattern matches the repository) and
    /// `tag_ignored` (an ignore pattern matches the tag). An image the rule
    /// applies to passes only if it was pushed at least `days_after` days
    /// before `now`, and its tag is not ignored.
    pub fn verdict(
        repository_matches: bool,
        tag_ignored: bool,
        pushed_at: Timestamp,
        now: Timestamp,
        days_after: u64,
    ) -> (r: bool)
        ensures
            r == (repository_matches ==> old_enough(pushed_at@, now@, days_after as nat)
                && !tag_ignored),
    {
        if !repository_matches {
            return true;
        }
        assert(0 <= days_after * NANOS_PER_DAY <= 0xffff_ffff_ffff_ffff * NANOS_PER_DAY)
            by (nonlinear_arith)
            requires
                0 <= days_after <= 0xffff_ffff_ffff_ffff,
        ;
        let cutoff = now.as_nanos() - days_after as i128 * NANOS_PER_DAY;
        pushed_at.as_nanos() <= cutoff && !tag_ignored
    }

    /// Whether some ignore pattern of the rule matches `tag`.
    pub fn ignores_tag(&self, tag: &str) -> (r: bool)
        ensures
            r == any_matches(self@.ignore_tag_patterns, tag@),
    {
        let mut i: usize = 0;
        while i < self.ignore_tag_patterns.len()
            invariant
                i <= self.ignore_tag_patterns@.len(),
                forall|k: int|
                    0 <= k < i ==> !glob_matches(
                        #[trigger] pattern_texts(self.ignore_tag_patterns@)[k],
                        tag@,
                    ),
            decreases self.ignore_tag_patterns@.len() - i,
        {
            if self.ignore_tag_patterns[i].matches(tag) {
                assert(pattern_texts(self.ignore_tag_patterns@)[i as int]
                    == self.ignore_tag_patterns@[i as int]@);
                return true;
            }
            i = i + 1;
        }
        false
    }

    /// Whether this rule lets `image` through at `now`.
    pub fn is_match(&self, image: &EcrImageDetail, now: Timestamp) -> (r: bool)
        ensures
            r == rule_admits(self@, image.id@, image.image_pushed_at@, now@),
    {
        let repository_matches = self.pattern.matches(image.id.repository_name.as_str());
        let tag_ignored = repository_matches && self.ignores_tag(image.id.image_tag.as_str());
        Self::verdict(repository_matches, tag_ignored, image.image_pushed_at, now, self.days_after)
    }
}

/// The rules of a list of compiled rules.
pub open spec fn rules_of_items(v: Seq<ImageFilterItem>) -> Seq<FilterRule> {
    v.map_values(|f: ImageFilterItem| f@)
}

/// The identifiers of the images of `images` that `rules` admit at `now`.
pub open spec fn admitted_ids(rules: Seq<FilterRule>, images: Seq<EcrImageDetail>, now: int) -> Set<
    ImageRef,
> {
    Set::new(
        |x: ImageRef|
            exists|i: int|
                0 <= i < images.len() && (#[trigger] images[i]).id@ == x && rules_admit(
                    rules,
                    images[i].id@,
                    images[i].image_pushed_at@,
                    now,
                ),
    )
}

/// A set of filter rules, combined with AND: an image passes only if every
/// rule lets it through. No rules let everything through.
pub struct ImageFilter {
    pub filters: Vec<ImageFilterItem>,
}

impl View for ImageFilter {
    type V = Seq<FilterRule>;

    open spec fn view(&self) -> Seq<FilterRule> {
        rules_of_items(self.filters@)
    }
}

impl ImageFilter {
    /// Compiles a list of rule configurations.
    pub fn try_new(conf: &[RepositoryFilterConfig]) -> (r: Result<ImageFilter, ImageProviderError>)
        ensures
            r is Ok <==> forall|i: int| 0 <= i < conf@.len() ==> rule_config_valid(#[trigger] conf@[i]),
            r matches Ok(f) ==> f@ == conf@.map_values(|c: RepositoryFilterConfig| rule_of(c)),
            r matches Err(e) ==> e.kind == ImageProviderErrorKind::Initialization && !glob_is_valid(
                e.source@,
            ),
    {
        let mut filters: Vec<ImageFilterItem> = Vec::new();
        let mut i: usize = 0;
        while i < conf.len()
            invariant
                i <= conf@.len(),
                filters@.len() == i,
                forall|k: int| 0 <= k < i ==> rule_config_valid(#[trigger] conf@[k]),
                forall|k: int| 0 <= k < i ==> (#[trigger] filters@[k])@ == rule_of(conf@[k]),
            decreases conf@.len() - i,
        {
            let item = ImageFilterItem::try_new(&conf[i])?;
            filters.push(item);
            i = i + 1;
        }
        let f = ImageFilter { filters };
        assert(f@ =~= conf@.map_values(|c: RepositoryFilterConfig| rule_of(c)));
        Ok(f)
    }

    /// Whether every rule lets `image` through at `now`.
    pub fn is_match(&self, image: &EcrImageDetail, now: Timestamp) -> (r: bool)
        ensures
            r == rules_admit(self@, image.id@, image.image_pushed_at@, now@),
    {
        let mut i: usize = 0;
        while i < self.filters.len()
            invariant
                i <= self.filters@.len(),
                forall|k: int|
                    0 <= k < i ==> rule_admits(
                        #[trigger] self@[k],
                        image.id@,
                        image.image_pushed_at@,
                        now@,
                    ),
            decreases self.filters@.len() - i,
        {
            if !self.filters[i].is_match(image, now) {
                assert(self@[i as int] == self.filters@[i as int]@);
                return false;
            }
            i = i + 1;
        }
        true
    }

    /// The identifiers of the images that pass every rule at `now`.
    pub fn select_images(&self, images: &Vec<EcrImageDetail>, now: Timestamp) -> (r: Vec<EcrImageId>)
        ensures
            id_set(r@) == admitted_ids(self@, images@, now@),
    {
        let mut out: Vec<EcrImageId> = Vec::new();
        let mut i: usize = 0;
        while i < images.len()
            invariant
                i <= images@.len(),
                id_set(out@) == admitted_ids(self@, images@.subrange(0, i as int), now@),
            decreases images@.len() - i,
        {
            let ghost before = out@;
            let ghost pre = images@.subrange(0, i as int);
            let ghost next = images@.subrange(0, i + 1);
            let admitted = self.is_match(&images[i], now);
            if admitted {
                out.push(images[i].id.copy());
            }
            proof {
                assert forall|x: ImageRef| id_set(out@).contains(x) <==> admitted_ids(
                    self@,
                    next,
                    now@,
                ).contains(x) by {
                    if id_set(out@).contains(x) {
                        let k = choose|k: int| 0 <= k < out@.len() && (#[trigger] out@[k])@ == x;
                        if k < before.len() {
                            assert(before[k] == out@[k]);
                            assert(id_set(before).contains(x));
                            let m = choose|m: int|
                                0 <= m < pre.len() && (#[trigger] pre[m]).id@ == x && rules_admit(
                                    self@,
                                    pre[m].id@,
                                    pre[m].image_pushed_at@,
                                    now@,
                                );
                            assert(next[m] == pre[m]);
                        } else {
                            assert(next[i as int] == images@[i as int]);
                        }
                    }
                    if admitted_ids(self@, next, now@).contains(x) {
                        let m = choose|m: int|
                            0 <= m < next.len() && (#[trigger] next[m]).id@ == x && rules_admit(
                                self@,
                                next[m].id@,
                                next[m].image_pushed_at@,
                                now@,
                            );
                        if m < i {
                            assert(pre[m] == next[m]);
                            assert(admitted_ids(self@, pre, now@).contains(x));
                            let k = choose|k: int| 0 <= k < before.len() && (#[trigger] before[k])@ == x;
                            assert(out@[k] == before[k]);
                        } else {
                            assert(out@[out@.len() - 1]@ == x);
                        }
                    }
                }
                assert(id_set(out@) =~= admitted_ids(self@, next, now@));
            }
            i = i + 1;
        }
        assert(images@.subrange(0, images@.len() as int) =~= images@);
        out
    }
}

/// Repositories to skip entirely: a repository whose name matches any of
/// the patterns is never listed.
pub struct RepositoryExcluder {
    pub patterns: Vec<GlobPattern>,
}

impl View for RepositoryExcluder {
    type V = Seq<Seq<char>>;

    open spec fn view(&self) -> Seq<Seq<char>> {
        pattern_texts(self.patterns@)
    }
}

impl RepositoryExcluder {
    /// Compiles a list of repository patterns.
    pub fn new(conf: &[String]) -> (r: Result<RepositoryExcluder, ImageProviderError>)
        ensures
            r is Ok <==> forall|i: int| 0 <= i < conf@.len() ==> glob_is_valid(#[trigger] conf@[i]@),
            r matches Ok(x) ==> x@ == texts_of(conf@),
            r matches Err(e) ==> e.kind == ImageProviderErrorKind::Initialization && !glob_is_valid(
                e.source@,
            ),
    {
        let patterns = compile_all(conf)?;
        Ok(RepositoryExcluder { patterns })
    }

    /// Whether the repository `repository_name` is skipped.
    pub fn is_excluded(&self, repository_name: &str) -> (r: bool)
        ensures
            r == any_matches(self@, repository_name@),
    {
        let mut i: usize = 0;
        while i < self.patterns.len()
            invariant
                i <= self.patterns@.len(),
                forall|k: int| 0 <= k < i ==> !glob_matches(#[trigger] self@[k], repository_name@),
            decreases self.patterns@.len() - i,
        {
            if self.patterns[i].matches(repository_name) {
                assert(self@[i as int] == self.patterns@[i as int]@);
                return true;
            }
            i = i + 1;
        }
        false
    }

    /// The repositories of `repository_names` that are not skipped, in order.
    pub fn included_repositories(&self, repository_names: &Vec<String>) -> (r: Vec<String>)
        ensures
            texts_of(r@) == texts_of(repository_names@).filter(
                |n: Seq<char>| !any_matches(self@, n),
            ),
    {
        let mut out: Vec<String> = Vec::new();
        let mut i: usize = 0;
        while i < repository_names.len()
            invariant
                i <= repository_names@.len(),
                texts_of(out@) == texts_of(repository_names@.subrange(0, i as int)).filter(
                    |n: Seq<char>| !any_matches(self@, n),
                ),
            decreases repository_names@.len() - i,
        {
            let excluded = self.is_excluded(repository_names[i].as_str());
            if !excluded {
                out.push(repository_names[i].clone());
            }
            proof {
                let pre = texts_of(repository_names@.subrange(0, i as int));
                let next = texts_of(repository_names@.subrange(0, i + 1));
                assert(next.drop_last() =~= pre);
                assert(next.last() == repository_names@[i as int]@);
                reveal_with_fuel(Seq::filter, 1);
                assert(texts_of(out@) =~= next.filter(|n: Seq<char>| !any_matches(self@, n)));
            }
            i = i + 1;
        }
        assert(repository_names@.subrange(0, repository_names@.len() as int) =~= repository_names@);
        out
    }
}

/// A rule whose pattern does not match an image's repository imposes
/// nothing on it: adding it to a set of rules changes no verdict.
pub proof fn lemma_filter_vacuity(
    rules: Seq<FilterRule>,
    rule: FilterRule,
    image: ImageRef,
    pushed: int,
    now: int,
)
    requires
        !glob_matches(rule.pattern, image.repository_name),
    ensures
        rule_admits(rule, image, pushed, now),
        rules_admit(rules.push(rule), image, pushed, now) == rules_admit(rules, image, pushed, now),
{
    let next = rules.push(rule);
    if rules_admit(rules, image, pushed, now) {
        assert forall|i: int| 0 <= i < next.len() implies rule_admits(
            #[trigger] next[i],
            image,
            pushed,
            now,
        ) by {
            if i < rules.len() {
                assert(next[i] == rules[i]);
            }
        }
    }
    if rules_admit(next, image, pushed, now) {
        assert forall|i: int| 0 <= i < rules.len() implies rule_admits(
            #[trigger] rules[i],
            image,
            pushed,
            now,
        ) by {
            assert(next[i] == rules[i]);
        }
    }
}

/// The age boundary of a rule that matches the repository: an image pushed
/// after `now` less the rule's minimum age is never let through; one pushed
/// exactly at that point is, unless its tag is ignored.
pub proof fn lemma_age_boundary(rule: FilterRule, image: ImageRef, pushed: int, now: int)
    requires
        glob_matches(rule.pattern, image.repository_name),
    ensures
        pushed > now - rule.days_after * NANOS_PER_DAY ==> !rule_admits(rule, image, pushed, now),
        pushed == now - rule.days_after * NANOS_PER_DAY && !any_matches(
            rule.ignore_tag_patterns,
            image.image_tag,
        ) ==> rule_admits(rule, image, pushed, now),
{
}

/// An image whose tag matches an ignore pattern of a rule that matches its
/// repository is never let through, however old it is.
pub proof fn lemma_tag_exclusion(rule: FilterRule, image: ImageRef, pushed: int, now: int, i: int)
    requires
        glob_matches(rule.pattern, image.repository_name),
        0 <= i < rule.ignore_tag_patterns.len(),
        glob_matches(rule.ignore_tag_patterns[i], image.image_tag),
    ensures
        !rule_admits(rule, image, pushed, now),
{
}

/// Rules combine with AND: an image passes a set of rules only if it passes
/// each of them, in particular each of two rules that both match its
/// repository.
pub proof fn lemma_rules_conjunction(
    rules: Seq<FilterRule>,
    image: ImageRef,
    pushed: int,
    now: int,
    i: int,
    j: int,
)
    requires
        0 <= i < rules.len(),
        0 <= j < rules.len(),
    ensures
        rules_admit(rules, image, pushed, now) ==> rule_admits(rules[i], image, pushed, now)
            && rule_admits(rules[j], image, pushed, now),
        rules_admit(rules, image, pushed, now) <==> forall|k: int|
            0 <= k < rules.len() ==> rule_admits(#[trigger] rules[k], image, pushed, now),
{
}

} // verus!
