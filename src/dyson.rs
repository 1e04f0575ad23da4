//! The aggregator: the deletion target set, grouped by repository and cut
//! into bounded batches.

use vstd::prelude::*;

use crate::config::texts_of;
use crate::image::{EcrImageId, ImageRef, id_set};
use crate::notifier::NotificationError;
use crate::provider::{ImageDeleterError, ImageProviderError};

verus! {

/// The images that some scanner reported, as a set.
pub open spec fn scanned_union(scanned: Seq<Vec<EcrImageId>>) -> Set<ImageRef> {
    Set::new(
        |x: ImageRef|
            exists|i: int, k: int|
                0 <= i < scanned.len() && 0 <= k < scanned[i]@.len() && (#[trigger] scanned[i]@[k])@
                    == x,
    )
}

/// The deletion targets: registry candidates that no scanner reported.
pub open spec fn target_set(includes: Seq<EcrImageId>, scanned: Seq<Vec<EcrImageId>>) -> Set<ImageRef> {
    id_set(includes).difference(scanned_union(scanned))
}

/// No identifier occurs twice in `v`.
pub open spec fn no_duplicates(v: Seq<EcrImageId>) -> bool {
    forall|j: int, k: int| 0 <= j < k < v.len() ==> (#[trigger] v[j])@ != (#[trigger] v[k])@
}

/// Whether `v` holds `id`.
fn contains_id(v: &Vec<EcrImageId>, id: &EcrImageId) -> (r: bool)
    ensures
        r == exists|k: int| 0 <= k < v@.len() && (#[trigger] v@[k])@ == id@,
{
    let mut k: usize = 0;
    while k < v.len()
        invariant
            k <= v@.len(),
            forall|m: int| 0 <= m < k ==> (#[trigger] v@[m])@ != id@,
        decreases v@.len() - k,
    {
        if v[k] == *id {
            return true;
        }
        k = k + 1;
    }
    false
}

/// Whether some list of `scanned` holds `id`.
fn scanned_contains(scanned: &Vec<Vec<EcrImageId>>, id: &EcrImageId) -> (r: bool)
    ensures
        r == scanned_union(scanned@).contains(id@),
{
    let mut i: usize = 0;
    while i < scanned.len()
        invariant
            i <= scanned@.len(),
            forall|m: int, k: int|
                0 <= m < i && 0 <= k < scanned@[m]@.len() ==> (#[trigger] scanned@[m]@[k])@ != id@,
        decreases scanned@.len() - i,
    {
        if contains_id(&scanned[i], id) {
            return true;
        }
        i = i + 1;
    }
    false
}

/// The deletion targets: each image of `includes` (the registry's
/// candidates) that no list of `scanned` (the scanners' references)
/// holds, once each.
pub fn aggregate_target_images(includes: &Vec<EcrImageId>, scanned: &Vec<Vec<EcrImageId>>) -> (r:
    Vec<EcrImageId>)
    ensures
        id_set(r@) == target_set(includes@, scanned@),
        no_duplicates(r@),
{
    let mut out: Vec<EcrImageId> = Vec::new();
    let mut i: usize = 0;
    while i < includes.len()
        invariant
            i <= includes@.len(),
            id_set(out@) == target_set(includes@.subrange(0, i as int), scanned@),
            no_duplicates(out@),
        decreases includes@.len() - i,
    {
        let ghost before = out@;
        let ghost pre = includes@.subrange(0, i as int);
        let ghost next = includes@.subrange(0, i + 1);
        let x = &includes[i];
        let keep = !scanned_contains(scanned, x) && !contains_id(&out, x);
        if keep {
            out.push(x.copy());
        }
        proof {
            assert forall|y: ImageRef| id_set(out@).contains(y) <==> target_set(
                next,
                scanned@,
            ).contains(y) by {
                if id_set(out@).contains(y) {
                    let k = choose|k: int| 0 <= k < out@.len() && (#[trigger] out@[k])@ == y;
                    if k < before.len() {
                        assert(before[k] == out@[k]);
                        assert(id_set(before).contains(y));
                        let m = choose|m: int| 0 <= m < pre.len() && (#[trigger] pre[m])@ == y;
                        assert(next[m] == pre[m]);
                    } else {
                        assert(next[i as int] == includes@[i as int]);
                    }
                }
                if target_set(next, scanned@).contains(y) {
                    let m = choose|m: int| 0 <= m < next.len() && (#[trigger] next[m])@ == y;
                    if m < i {
                        assert(pre[m] == next[m]);
                        assert(target_set(pre, scanned@).contains(y));
                        let k = choose|k: int| 0 <= k < before.len() && (#[trigger] before[k])@ == y;
                        assert(out@[k] == before[k]);
                    } else if keep {
                        assert(out@[out@.len() - 1]@ == y);
                    } else {
                        let k = choose|k: int| 0 <= k < before.len() && (#[trigger] before[k])@ == y;
                        assert(out@[k] == before[k]);
                    }
                }
            }
            assert(id_set(out@) =~= target_set(next, scanned@));
            assert forall|j: int, k: int| 0 <= j < k < out@.len() implies (#[trigger] out@[j])@
                != (#[trigger] out@[k])@ by {
                if k == before.len() {
                    assert(out@[j] == before[j]);
                } else {
                    assert(out@[j] == before[j]);
                    assert(out@[k] == before[k]);
                }
            }
        }
        i = i + 1;
    }
    assert(includes@.subrange(0, includes@.len() as int) =~= includes@);
    out
}

/// The tags of a repository's images in a deletion plan.
#[derive(Debug)]
pub struct RepositoryTags {
    /// The repository.
    pub repository_name: String,
    /// The tags to delete from it.
    pub image_tags: Vec<String>,
}

/// The deletion plan: the target images grouped by repository.
pub type ImagesSummary = Vec<RepositoryTags>;

/// The tags of the images of `images` that lie in repository `repo`, in order.
pub open spec fn tags_in(images: Seq<EcrImageId>, repo: Seq<char>) -> Seq<Seq<char>> {
    images.filter(|x: EcrImageId| x@.repository_name == repo).map_values(
        |x: EcrImageId| x@.image_tag,
    )
}

/// `summary` has an entry for repository `repo`.
pub open spec fn has_entry(summary: Seq<RepositoryTags>, repo: Seq<char>) -> bool {
    exists|j: int| 0 <= j < summary.len() && (#[trigger] summary[j]).repository_name@ == repo
}

/// `summary` groups `images` by repository: one entry per repository that
/// holds an image of `images`, listing the tags of those images in order.
pub open spec fn groups(summary: Seq<RepositoryTags>, images: Seq<EcrImageId>) -> bool {
    &&& forall|j: int, k: int|
        0 <= j < k < summary.len() ==> (#[trigger] summary[j]).repository_name@ != (
        #[trigger] summary[k]).repository_name@
    &&& forall|j: int|
        0 <= j < summary.len() ==> texts_of((#[trigger] summary[j]).image_tags@) == tags_in(
            images,
            summary[j].repository_name@,
        ) && summary[j].image_tags@.len() > 0
    &&& forall|i: int|
        0 <= i < images.len() ==> has_entry(summary, (#[trigger] images[i])@.repository_name)
}

proof fn lemma_tags_in_push(images: Seq<EcrImageId>, x: EcrImageId, repo: Seq<char>)
    ensures
        tags_in(images.push(x), repo) == if x@.repository_name == repo {
            tags_in(images, repo).push(x@.image_tag)
        } else {
            tags_in(images, repo)
        },
{
    let pred = |y: EcrImageId| y@.repository_name == repo;
    let next = images.push(x);
    assert(next.drop_last() =~= images);
    reveal_with_fuel(Seq::filter, 1);
    assert(next.filter(pred) == if pred(x) {
        images.filter(pred).push(x)
    } else {
        images.filter(pred)
    });
    if pred(x) {
        assert(images.filter(pred).push(x).map_values(|y: EcrImageId| y@.image_tag) =~= images.filter(
            pred,
        ).map_values(|y: EcrImageId| y@.image_tag).push(x@.image_tag));
    }
}

proof fn lemma_tags_in_absent(images: Seq<EcrImageId>, repo: Seq<char>)
    requires
        forall|i: int| 0 <= i < images.len() ==> (#[trigger] images[i])@.repository_name != repo,
    ensures
        tags_in(images, repo).len() == 0,
    decreases images.len(),
{
    if images.len() > 0 {
        let pre = images.drop_last();
        assert(images == pre.push(images.last()));
        assert forall|i: int| 0 <= i < pre.len() implies (#[trigger] pre[i])@.repository_name
            != repo by {
            assert(pre[i] == images[i]);
        }
        lemma_tags_in_absent(pre, repo);
        lemma_tags_in_push(pre, images.last(), repo);
    } else {
        reveal_with_fuel(Seq::filter, 1);
    }
}

/// The index of the entry of `summary` for `repo`, if there is one.
fn find_repository(summary: &Vec<RepositoryTags>, repo: &String) -> (r: Option<usize>)
    ensures
        r matches Some(j) ==> j < summary@.len() && summary@[j as int].repository_name@ == repo@,
        r is None ==> forall|j: int|
            0 <= j < summary@.len() ==> (#[trigger] summary@[j]).repository_name@ != repo@,
{
    let mut j: usize = 0;
    while j < summary.len()
        invariant
            j <= summary@.len(),
            forall|m: int| 0 <= m < j ==> (#[trigger] summary@[m]).repository_name@ != repo@,
        decreases summary@.len() - j,
    {
        if summary[j].repository_name == *repo {
            return Some(j);
        }
        j = j + 1;
    }
    None
}

/// Groups the target images by repository, listing each repository's tags.
pub fn summarize_tags_per_repo(images: &Vec<EcrImageId>) -> (r: ImagesSummary)
    ensures
        groups(r@, images@),
{
    let mut out: Vec<RepositoryTags> = Vec::new();
    let mut i: usize = 0;
    while i < images.len()
        invariant
            i <= images@.len(),
            groups(out@, images@.subrange(0, i as int)),
        decreases images@.len() - i,
    {
        let ghost before = out@;
        let ghost pre = images@.subrange(0, i as int);
        let ghost next = images@.subrange(0, i + 1);
        let x = &images[i];
        proof {
            assert(next =~= pre.push(*x));
            assert forall|n: Seq<char>| #[trigger]
                tags_in(next, n) == if x@.repository_name == n {
                    tags_in(pre, n).push(x@.image_tag)
                } else {
                    tags_in(pre, n)
                } by {
                lemma_tags_in_push(pre, *x, n);
            }
        }
        match find_repository(&out, &x.repository_name) {
            Some(j) => {
                let mut entry = out.remove(j);
                let ghost old_tags = entry.image_tags@;
                entry.image_tags.push(x.image_tag.clone());
                proof {
                    assert(texts_of(entry.image_tags@) =~= texts_of(old_tags).push(x@.image_tag));
                }
                out.insert(j, entry);
                proof {
                    assert forall|m: int| 0 <= m < out@.len() && m != j implies #[trigger] out@[m]
                        == before[m] by {}
                    assert(out@[j as int].repository_name@ == before[j as int].repository_name@);
                    assert forall|a: int, b: int|
                        0 <= a < b < out@.len() implies (#[trigger] out@[a]).repository_name@ != (
                    #[trigger] out@[b]).repository_name@ by {
                        assert(out@[a].repository_name@ == before[a].repository_name@);
                        assert(out@[b].repository_name@ == before[b].repository_name@);
                    }
                    assert forall|m: int| 0 <= m < out@.len() implies texts_of(
                        (#[trigger] out@[m]).image_tags@,
                    ) == tags_in(next, out@[m].repository_name@) && out@[m].image_tags@.len()
                        > 0 by {
                        if m != j {
                            assert(before[m].repository_name@ != before[j as int].repository_name@);
                        }
                    }
                    assert forall|k: int| 0 <= k < next.len() implies has_entry(
                        out@,
                        (#[trigger] next[k])@.repository_name,
                    ) by {
                        if k < i {
                            assert(next[k] == pre[k]);
                            let m = choose|m: int|
                                0 <= m < before.len() && (#[trigger] before[m]).repository_name@
                                    == pre[k]@.repository_name;
                            assert(out@[m].repository_name@ == before[m].repository_name@);
                        } else {
                            assert(out@[j as int].repository_name@ == next[k]@.repository_name);
                        }
                    }
                }
            },
            None => {
                proof {
                    assert forall|k: int| 0 <= k < pre.len() implies (#[trigger] pre[k])@.repository_name
                        != x@.repository_name by {
                        assert(has_entry(before, pre[k]@.repository_name));
                    }
                    lemma_tags_in_absent(pre, x@.repository_name);
                }
                let tags = vec![x.image_tag.clone()];
                proof {
                    assert(texts_of(tags@) =~= tags_in(pre, x@.repository_name).push(x@.image_tag));
                }
                out.push(RepositoryTags { repository_name: x.repository_name.clone(), image_tags: tags });
                proof {
                    assert forall|m: int| 0 <= m < before.len() implies #[trigger] out@[m]
                        == before[m] by {}
                    assert forall|a: int, b: int|
                        0 <= a < b < out@.len() implies (#[trigger] out@[a]).repository_name@ != (
                    #[trigger] out@[b]).repository_name@ by {
                        assert(out@[a] == before[a]);
                        if b < before.len() {
                            assert(out@[b] == before[b]);
                        }
                    }
                    assert forall|m: int| 0 <= m < out@.len() implies texts_of(
                        (#[trigger] out@[m]).image_tags@,
                    ) == tags_in(next, out@[m].repository_name@) && out@[m].image_tags@.len()
                        > 0 by {
                        if m < before.len() {
                            assert(out@[m] == before[m]);
                        }
                    }
                    assert forall|k: int| 0 <= k < next.len() implies has_entry(
                        out@,
                        (#[trigger] next[k])@.repository_name,
                    ) by {
                        if k < i {
                            assert(next[k] == pre[k]);
                            assert(0 <= k < pre.len());
                            let m = choose|m: int|
                                0 <= m < before.len() && (#[trigger] before[m]).repository_name@
                                    == pre[k]@.repository_name;
                            assert(out@[m] == before[m]);
                            assert(out@[m].repository_name@ == next[k]@.repository_name);
                        } else {
                            assert(out@[out@.len() - 1].repository_name@ == next[k]@.repository_name);
                        }
                    }
                }
            },
        }
        i = i + 1;
    }
    assert(images@.subrange(0, images@.len() as int) =~= images@);
    out
}

/// The most image identifiers one deletion call may carry.
pub const MAX_BATCH_SIZE: usize = 100;

/// `batches` cuts `tags` into consecutive pieces of `MAX_BATCH_SIZE`
/// identifiers, the last one holding the remainder.
pub open spec fn is_batching(batches: Seq<Seq<String>>, tags: Seq<String>) -> bool {
    &&& batches.len() == (tags.len() + MAX_BATCH_SIZE - 1) / MAX_BATCH_SIZE as int
    &&& forall|c: int|
        0 <= c < batches.len() ==> #[trigger] batches[c] == tags.subrange(
            c * MAX_BATCH_SIZE,
            if (c + 1) * MAX_BATCH_SIZE <= tags.len() {
                (c + 1) * MAX_BATCH_SIZE
            } else {
                tags.len() as int
            },
        )
}

/// The contents of each batch.
pub open spec fn batch_views(batches: Seq<Vec<String>>) -> Seq<Seq<String>> {
    batches.map_values(|b: Vec<String>| b@)
}

/// `batches` cuts `items` into consecutive pieces of `size` items, the
/// last one holding the remainder: as few pieces as hold them all.
pub open spec fn is_batching_of(batches: Seq<Seq<String>>, items: Seq<String>, size: nat) -> bool {
    &&& batches.len() * size >= items.len()
    &&& (batches.len() == 0 || (batches.len() - 1) * size < items.len())
    &&& forall|c: int|
        0 <= c < batches.len() ==> #[trigger] batches[c] == items.subrange(
            c * size,
            if (c + 1) * size <= items.len() {
                (c + 1) * size
            } else {
                items.len() as int
            },
        )
}

/// Cuts `items` into consecutive batches of `size` items, the last one
/// holding the remainder.
pub fn chunks_of(items: &Vec<String>, size: usize) -> (r: Vec<Vec<String>>)
    requires
        size > 0,
    ensures
        is_batching_of(batch_views(r@), items@, size as nat),
{
    let n = items.len();
    let mut out: Vec<Vec<String>> = Vec::new();
    let mut start: usize = 0;
    assert(out@.len() * size == 0) by (nonlinear_arith)
        requires
            out@.len() == 0,
    ;
    while start < n
        invariant
            n == items@.len(),
            size > 0,
            start == out@.len() * size || (start == n && n > (out@.len() - 1) * size && n
                <= out@.len() * size && out@.len() > 0),
            start <= n,
            forall|c: int|
                0 <= c < out@.len() ==> #[trigger] out@[c]@ == items@.subrange(
                    c * size,
                    if (c + 1) * size <= n {
                        (c + 1) * size
                    } else {
                        n as int
                    },
                ),
        decreases n - start,
    {
        let ghost len = out@.len();
        assert(start == len * size);
        assert((len + 1) * size == start + size) by (nonlinear_arith)
            requires
                start == len * size,
        ;
        let end = if n - start > size {
            start + size
        } else {
            n
        };
        let mut batch: Vec<String> = Vec::new();
        let mut k = start;
        while k < end
            invariant
                start <= k <= end <= n,
                n == items@.len(),
                batch@ == items@.subrange(start as int, k as int),
            decreases end - k,
        {
            batch.push(items[k].clone());
            assert(batch@ =~= items@.subrange(start as int, k + 1));
            k = k + 1;
        }
        out.push(batch);
        assert(out@[len as int]@ == items@.subrange(
            len * size,
            if (len + 1) * size <= n {
                (len + 1) * size
            } else {
                n as int
            },
        ));
        start = end;
    }
    proof {
        let m = out@.len() as int;
        assert(m * size >= n && (m == 0 || (m - 1) * size < n)) by (nonlinear_arith)
            requires
                n == m * size || (n > (m - 1) * size && n <= m * size && m > 0),
                size > 0,
                n >= 0,
                m >= 0,
        ;
        assert(batch_views(out@) =~= Seq::new(out@.len(), |c: int| out@[c]@));
    }
    out
}

/// Cuts a repository's tags into the batches of one deletion call each.
pub fn chunk_tags(tags: &Vec<String>) -> (r: Vec<Vec<String>>)
    ensures
        is_batching(batch_views(r@), tags@),
{
    let out = chunks_of(tags, MAX_BATCH_SIZE);
    proof {
        let n = tags@.len();
        let m = out@.len();
        assert((n + MAX_BATCH_SIZE - 1) / MAX_BATCH_SIZE as int == m) by (nonlinear_arith)
            requires
                n <= m * MAX_BATCH_SIZE,
                m == 0 || n > (m - 1) * MAX_BATCH_SIZE,
                MAX_BATCH_SIZE == 100,
        ;
    }
    out
}

/// The images that some list of `found` holds, each once.
pub fn merge_images(found: &Vec<Vec<EcrImageId>>) -> (r: Vec<EcrImageId>)
    ensures
        id_set(r@) == scanned_union(found@),
        no_duplicates(r@),
{
    let mut out: Vec<EcrImageId> = Vec::new();
    let mut i: usize = 0;
    while i < found.len()
        invariant
            i <= found@.len(),
            id_set(out@) == scanned_union(found@.subrange(0, i as int)),
            no_duplicates(out@),
        decreases found@.len() - i,
    {
        let list = &found[i];
        let mut k: usize = 0;
        while k < list.len()
            invariant
                i < found@.len(),
                *list == found@[i as int],
                k <= list@.len(),
                id_set(out@) == scanned_union(found@.subrange(0, i as int)).union(
                    id_set(list@.subrange(0, k as int)),
                ),
                no_duplicates(out@),
            decreases list@.len() - k,
        {
            let ghost before = out@;
            let x = &list[k];
            if !contains_id(&out, x) {
                out.push(x.copy());
            }
            proof {
                let done = scanned_union(found@.subrange(0, i as int));
                let pre = list@.subrange(0, k as int);
                let next = list@.subrange(0, k + 1);
                assert forall|y: ImageRef| id_set(out@).contains(y) <==> done.union(
                    id_set(next),
                ).contains(y) by {
                    if id_set(out@).contains(y) {
                        let m = choose|m: int| 0 <= m < out@.len() && (#[trigger] out@[m])@ == y;
                        if m < before.len() {
                            assert(out@[m] == before[m]);
                            assert(id_set(before).contains(y));
                            if id_set(pre).contains(y) {
                                let q = choose|q: int| 0 <= q < pre.len() && (#[trigger] pre[q])@ == y;
                                assert(next[q] == pre[q]);
                            }
                        } else {
                            assert(next[k as int] == list@[k as int]);
                        }
                    }
                    if done.union(id_set(next)).contains(y) {
                        if done.contains(y) || id_set(pre).contains(y) {
                            assert(id_set(before).contains(y));
                            let m = choose|m: int| 0 <= m < before.len() && (#[trigger] before[m])@ == y;
                            assert(out@[m] == before[m]);
                        } else {
                            let q = choose|q: int| 0 <= q < next.len() && (#[trigger] next[q])@ == y;
                            if q < k {
                                assert(pre[q] == next[q]);
                            } else {
                                assert(next[q] == list@[k as int]);
                                if !(out@.len() > before.len()) {
                                    let m = choose|m: int|
                                        0 <= m < before.len() && (#[trigger] before[m])@ == y;
                                    assert(out@[m] == before[m]);
                                } else {
                                    assert(out@[out@.len() - 1]@ == y);
                                }
                            }
                        }
                    }
                }
                assert(id_set(out@) =~= done.union(id_set(next)));
                assert forall|a: int, b: int| 0 <= a < b < out@.len() implies (#[trigger] out@[a])@
                    != (#[trigger] out@[b])@ by {
                    assert(out@[a] == before[a]);
                    if b < before.len() {
                        assert(out@[b] == before[b]);
                    }
                }
            }
            k = k + 1;
        }
        proof {
            assert(list@.subrange(0, list@.len() as int) =~= list@);
            let sub = found@.subrange(0, i as int);
            lemma_scanned_union_push(sub, *list);
            assert(found@.subrange(0, i + 1) =~= sub.push(*list));
        }
        i = i + 1;
    }
    assert(found@.subrange(0, found@.len() as int) =~= found@);
    out
}

/// Batching covers the tags exactly: the batches, read one after another,
/// are the tags themselves, so each tag is sent once and none twice; each
/// batch holds between one and `MAX_BATCH_SIZE` identifiers, and there are
/// `ceil(n / MAX_BATCH_SIZE)` of them.
pub proof fn lemma_batches_cover(batches: Seq<Seq<String>>, tags: Seq<String>)
    requires
        is_batching(batches, tags),
    ensures
        batches.flatten() == tags,
        forall|c: int|
            0 <= c < batches.len() ==> 0 < (#[trigger] batches[c]).len() <= MAX_BATCH_SIZE,
        batches.len() * MAX_BATCH_SIZE >= tags.len(),
        batches.len() * MAX_BATCH_SIZE < tags.len() + MAX_BATCH_SIZE,
    decreases tags.len(),
{
    let n = tags.len() as int;
    let m = batches.len() as int;
    assert(m * 100 >= n && m * 100 < n + 100) by (nonlinear_arith)
        requires
            m == (n + 99) / 100,
            n >= 0,
    ;
    assert forall|c: int| 0 <= c < m implies 0 < (#[trigger] batches[c]).len() <= MAX_BATCH_SIZE by {
        assert(c * 100 < n) by (nonlinear_arith)
            requires
                c < m,
                m * 100 < n + 100,
                0 <= c,
        ;
    }
    if n == 0 {
        assert(tags =~= Seq::<String>::empty());
    } else {
        let rest = tags.subrange(100, n).len() as int;
        let tail = batches.drop_first();
        if n <= 100 {
            assert(m == 1);
            assert(batches[0] =~= tags);
            assert(tail.len() == 0);
            assert(tail.flatten() =~= Seq::<String>::empty());
            assert(batches.flatten() =~= tags);
        } else {
            let later = tags.subrange(100, n);
            assert(tail.len() == (later.len() + 99) / 100) by (nonlinear_arith)
                requires
                    tail.len() == m - 1,
                    m == (n + 99) / 100,
                    later.len() == n - 100,
                    n > 100,
            ;
            assert forall|c: int| 0 <= c < tail.len() implies #[trigger] tail[c] == later.subrange(
                c * MAX_BATCH_SIZE,
                if (c + 1) * MAX_BATCH_SIZE <= later.len() {
                    (c + 1) * MAX_BATCH_SIZE
                } else {
                    later.len() as int
                },
            ) by {
                assert(tail[c] == batches[c + 1]);
                assert(tail[c] =~= later.subrange(
                    c * MAX_BATCH_SIZE,
                    if (c + 1) * MAX_BATCH_SIZE <= later.len() {
                        (c + 1) * MAX_BATCH_SIZE
                    } else {
                        later.len() as int
                    },
                ));
            }
            lemma_batches_cover(tail, later);
            assert(batches[0] =~= tags.subrange(0, 100));
            assert(batches.flatten() =~= tags);
        }
    }
}

/// The union of the scanners' results is their union one list at a time.
pub proof fn lemma_scanned_union_push(scanned: Seq<Vec<EcrImageId>>, v: Vec<EcrImageId>)
    ensures
        scanned_union(scanned.push(v)) == scanned_union(scanned).union(id_set(v@)),
{
    let next = scanned.push(v);
    assert forall|x: ImageRef| scanned_union(next).contains(x) <==> scanned_union(scanned).union(
        id_set(v@),
    ).contains(x) by {
        if scanned_union(next).contains(x) {
            let (i, k) = choose|i: int, k: int|
                0 <= i < next.len() && 0 <= k < next[i]@.len() && (#[trigger] next[i]@[k])@ == x;
            if i < scanned.len() {
                assert(next[i] == scanned[i]);
            } else {
                assert(next[i] == v);
            }
        }
        if scanned_union(scanned).contains(x) {
            let (i, k) = choose|i: int, k: int|
                0 <= i < scanned.len() && 0 <= k < scanned[i]@.len() && (#[trigger] scanned[i]@[k])@
                    == x;
            assert(next[i] == scanned[i]);
        }
        if id_set(v@).contains(x) {
            let k = choose|k: int| 0 <= k < v@.len() && (#[trigger] v@[k])@ == x;
            assert(next[scanned.len() as int] == v);
            assert(next[scanned.len() as int]@[k]@ == x);
        }
    }
    assert(scanned_union(next) =~= scanned_union(scanned).union(id_set(v@)));
}

/// The target set does not depend on the order in which the scanners'
/// results came in: any two orders of the same results give the same set.
pub proof fn lemma_aggregation_order_independent(
    includes: Seq<EcrImageId>,
    scanned: Seq<Vec<EcrImageId>>,
    reordered: Seq<Vec<EcrImageId>>,
)
    requires
        scanned.to_multiset() == reordered.to_multiset(),
    ensures
        target_set(includes, scanned) == target_set(includes, reordered),
{
    scanned.to_multiset_ensures();
    reordered.to_multiset_ensures();
    assert forall|x: ImageRef| scanned_union(scanned).contains(x) implies scanned_union(
        reordered,
    ).contains(x) by {
        let (i, k) = choose|i: int, k: int|
            0 <= i < scanned.len() && 0 <= k < scanned[i]@.len() && (#[trigger] scanned[i]@[k])@
                == x;
        assert(scanned.contains(scanned[i]));
        assert(scanned.to_multiset().count(scanned[i]) > 0);
        assert(reordered.contains(scanned[i]));
        let i2 = choose|i2: int| 0 <= i2 < reordered.len() && reordered[i2] == scanned[i];
        assert(reordered[i2]@[k]@ == x);
    }
    assert forall|x: ImageRef| scanned_union(reordered).contains(x) implies scanned_union(
        scanned,
    ).contains(x) by {
        let (i, k) = choose|i: int, k: int|
            0 <= i < reordered.len() && 0 <= k < reordered[i]@.len() && (
            #[trigger] reordered[i]@[k])@ == x;
        assert(reordered.contains(reordered[i]));
        assert(reordered.to_multiset().count(reordered[i]) > 0);
        assert(scanned.contains(reordered[i]));
        let i2 = choose|i2: int| 0 <= i2 < scanned.len() && scanned[i2] == reordered[i];
        assert(scanned[i2]@[k]@ == x);
    }
    assert(scanned_union(scanned) =~= scanned_union(reordered));
}

/// With no scanners, every registry candidate is a target.
pub proof fn lemma_aggregation_identity(includes: Seq<EcrImageId>)
    ensures
        target_set(includes, Seq::empty()) == id_set(includes),
{
    assert(scanned_union(Seq::<Vec<EcrImageId>>::empty()) =~= Set::empty());
    assert(target_set(includes, Seq::empty()) =~= id_set(includes));
}

/// With no registry candidates there are no targets, whatever the scanners report.
pub proof fn lemma_aggregation_absorption(scanned: Seq<Vec<EcrImageId>>)
    ensures
        target_set(Seq::empty(), scanned) == Set::<ImageRef>::empty(),
{
    assert(id_set(Seq::<EcrImageId>::empty()) =~= Set::empty());
    assert(target_set(Seq::empty(), scanned) =~= Set::<ImageRef>::empty());
}

/// The kind of a [`DysonError`]: the stage at which it arose.
#[derive(Debug, Clone, Copy, PartialEq, Eq, Structural)]
pub enum DysonErrorKind {
    /// Building the cleaner: a bad pattern or bad credentials.
    Initialization,
    /// Listing the registry or scanning the workloads.
    Aggregation,
    /// Deleting images.
    Deletion,
    /// Sending a notification.
    Notification,
}

/// The lower-level error a [`DysonError`] wraps.
#[derive(Debug)]
pub enum DysonErrorSource {
    Provider(ImageProviderError),
    Deleter(ImageDeleterError),
    Notifier(NotificationError),
}

/// An error of the cleaner, tagged with the stage it arose in.
#[derive(Debug)]
pub struct DysonError {
    /// The stage the error arose in.
    pub kind: DysonErrorKind,
    /// The error that stage reported.
    pub source: DysonErrorSource,
}

impl DysonError {
    pub fn initialization_error(err: ImageProviderError) -> (r: DysonError)
        ensures
            r.kind == DysonErrorKind::Initialization,
            r.source == DysonErrorSource::Provider(err),
    {
        DysonError { kind: DysonErrorKind::Initialization, source: DysonErrorSource::Provider(err) }
    }

    pub fn aggregation_error(err: ImageProviderError) -> (r: DysonError)
        ensures
            r.kind == DysonErrorKind::Aggregation,
            r.source == DysonErrorSource::Provider(err),
    {
        DysonError { kind: DysonErrorKind::Aggregation, source: DysonErrorSource::Provider(err) }
    }

    pub fn deletion_error(err: ImageDeleterError) -> (r: DysonError)
        ensures
            r.kind == DysonErrorKind::Deletion,
            r.source == DysonErrorSource::Deleter(err),
    {
        DysonError { kind: DysonErrorKind::Deletion, source: DysonErrorSource::Deleter(err) }
    }

    pub fn notification_error(err: NotificationError) -> (r: DysonError)
        ensures
            r.kind == DysonErrorKind::Notification,
            r.source == DysonErrorSource::Notifier(err),
    {
        DysonError { kind: DysonErrorKind::Notification, source: DysonErrorSource::Notifier(err) }
    }
}

} // verus!
