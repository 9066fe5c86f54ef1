use vstd::prelude::*;
use crate::model::{texts, Config, MediaItem};
use crate::paths::{compare_paths, path_eq, path_order, path_parent, path_parent_of};

verus! {

/// The two paths are the same: equal as texts, or equal as paths compare.
pub open spec fn same_path(a: Seq<char>, b: Seq<char>) -> bool {
    a == b || path_eq(a, b)
}

/// Some item of `media` has the same path as `p`.
pub open spec fn has_path(media: Seq<MediaItem>, p: Seq<char>) -> bool {
    exists|i: int| 0 <= i < media.len() && same_path(#[trigger] media[i].path@, p)
}

/// The media list after the discovered items are added in order, each one only when no
/// item already in the list has an equal path.
pub open spec fn merged(media: Seq<MediaItem>, disc: Seq<MediaItem>) -> Seq<MediaItem>
    decreases disc.len(),
{
    if disc.len() == 0 {
        media
    } else {
        let next = if has_path(media, disc[0].path@) {
            media
        } else {
            media.push(disc[0])
        };
        merged(next, disc.drop_first())
    }
}

/// The parent directory of `p` is `dir` (as paths compare).
pub open spec fn in_dir(p: Seq<char>, dir: Seq<char>) -> bool {
    match path_parent_of(p) {
        Some(q) => path_eq(q, dir),
        None => false,
    }
}

/// An item stays in the media list: its file exists (its path is listed in `present`) and
/// it lies directly in `dir`.
pub open spec fn keeps(m: MediaItem, dir: Seq<char>, present: Seq<Seq<char>>) -> bool {
    present.contains(m.path@) && in_dir(m.path@, dir)
}

/// The items of `s` that stay, in their order.
pub open spec fn retained(s: Seq<MediaItem>, dir: Seq<char>, present: Seq<Seq<char>>) -> Seq<
    MediaItem,
>
    decreases s.len(),
{
    if s.len() == 0 {
        Seq::empty()
    } else {
        let r = retained(s.drop_last(), dir, present);
        if keeps(s.last(), dir, present) {
            r.push(s.last())
        } else {
            r
        }
    }
}

/// The media list after a scan of `dir` found `disc`.
pub open spec fn synced(
    media: Seq<MediaItem>,
    disc: Seq<MediaItem>,
    dir: Seq<char>,
    present: Seq<Seq<char>>,
) -> Seq<MediaItem> {
    retained(merged(media, disc), dir, present)
}

/// No two items of `s` have equal paths.
pub open spec fn no_duplicate_paths(s: Seq<MediaItem>) -> bool {
    forall|i: int, j: int|
        0 <= i < j < s.len() ==> !same_path(#[trigger] s[i].path@, #[trigger] s[j].path@)
}

proof fn lemma_merged_extends(m: Seq<MediaItem>, d: Seq<MediaItem>)
    ensures
        merged(m, d).len() >= m.len(),
        merged(m, d).subrange(0, m.len() as int) == m,
    decreases d.len(),
{
    if d.len() > 0 {
        let next = if has_path(m, d[0].path@) {
            m
        } else {
            m.push(d[0])
        };
        lemma_merged_extends(next, d.drop_first());
        assert(merged(m, d).subrange(0, m.len() as int) =~= merged(
            next,
            d.drop_first(),
        ).subrange(0, next.len() as int).subrange(0, m.len() as int));
        assert(next.subrange(0, m.len() as int) =~= m);
    } else {
        assert(m.subrange(0, m.len() as int) =~= m);
    }
}

proof fn lemma_retained_facts(s: Seq<MediaItem>, dir: Seq<char>, present: Seq<Seq<char>>)
    ensures
        retained(s, dir, present).len() <= s.len(),
        forall|i: int|
            0 <= i < retained(s, dir, present).len() ==> keeps(
                #[trigger] retained(s, dir, present)[i],
                dir,
                present,
            ),
        forall|i: int|
            0 <= i < retained(s, dir, present).len() ==> exists|j: int|
                0 <= j < s.len() && s[j] == #[trigger] retained(s, dir, present)[i],
    decreases s.len(),
{
    if s.len() > 0 {
        let r = retained(s.drop_last(), dir, present);
        lemma_retained_facts(s.drop_last(), dir, present);
        assert forall|i: int|
            0 <= i < retained(s, dir, present).len() implies exists|j: int|
            0 <= j < s.len() && s[j] == #[trigger] retained(s, dir, present)[i] by {
            if i < r.len() {
                let j = choose|j: int| 0 <= j < s.drop_last().len() && s.drop_last()[j] == r[i];
                assert(s[j] == s.drop_last()[j]);
            } else {
                assert(s[s.len() - 1] == retained(s, dir, present)[i]);
            }
        }
    }
}

/// When an item of `s` goes, fewer items stay than `s` holds.
proof fn lemma_retained_subsequence_len(
    s: Seq<MediaItem>,
    dir: Seq<char>,
    present: Seq<Seq<char>>,
    k: int,
)
    requires
        0 <= k < s.len(),
        !keeps(s[k], dir, present),
    ensures
        retained(s, dir, present).len() < s.len(),
    decreases s.len(),
{
    lemma_retained_facts(s.drop_last(), dir, present);
    if k < s.len() - 1 {
        assert(s.drop_last()[k] == s[k]);
        lemma_retained_subsequence_len(s.drop_last(), dir, present, k);
    }
}

proof fn lemma_retained_contains(
    s: Seq<MediaItem>,
    dir: Seq<char>,
    present: Seq<Seq<char>>,
    k: int,
)
    requires
        0 <= k < s.len(),
        keeps(s[k], dir, present),
    ensures
        retained(s, dir, present).contains(s[k]),
    decreases s.len(),
{
    let r = retained(s.drop_last(), dir, present);
    if k == s.len() - 1 {
        assert(retained(s, dir, present)[r.len() as int] == s[k]);
    } else {
        assert(s.drop_last()[k] == s[k]);
        lemma_retained_contains(s.drop_last(), dir, present, k);
        let i = choose|i: int| 0 <= i < r.len() && r[i] == s[k];
        if keeps(s.last(), dir, present) {
            assert(retained(s, dir, present)[i] == s[k]);
        }
    }
}

proof fn lemma_merged_no_duplicates(m: Seq<MediaItem>, d: Seq<MediaItem>)
    requires
        no_duplicate_paths(m),
    ensures
        no_duplicate_paths(merged(m, d)),
    decreases d.len(),
{
    if d.len() > 0 {
        if !has_path(m, d[0].path@) {
            let next = m.push(d[0]);
            assert forall|i: int, j: int| 0 <= i < j < next.len() implies !same_path(
                #[trigger] next[i].path@,
                #[trigger] next[j].path@,
            ) by {
                if j == m.len() {
                    assert(next[i] == m[i]);
                    assert(!same_path(m[i].path@, d[0].path@));
                } else {
                    assert(next[i] == m[i] && next[j] == m[j]);
                }
            }
            lemma_merged_no_duplicates(next, d.drop_first());
        } else {
            lemma_merged_no_duplicates(m, d.drop_first());
        }
    }
}

proof fn lemma_retained_no_duplicates(s: Seq<MediaItem>, dir: Seq<char>, present: Seq<Seq<char>>)
    requires
        no_duplicate_paths(s),
    ensures
        no_duplicate_paths(retained(s, dir, present)),
    decreases s.len(),
{
    if s.len() > 0 {
        let s2 = s.drop_last();
        assert(no_duplicate_paths(s2)) by {
            assert forall|i: int, j: int| 0 <= i < j < s2.len() implies !same_path(
                #[trigger] s2[i].path@,
                #[trigger] s2[j].path@,
            ) by {
                assert(s2[i] == s[i] && s2[j] == s[j]);
            }
        }
        lemma_retained_no_duplicates(s2, dir, present);
        lemma_retained_facts(s2, dir, present);
        let r = retained(s2, dir, present);
        if keeps(s.last(), dir, present) {
            let rr = r.push(s.last());
            assert forall|i: int, j: int| 0 <= i < j < rr.len() implies !same_path(
                #[trigger] rr[i].path@,
                #[trigger] rr[j].path@,
            ) by {
                assert(rr[i] == r[i]);
                if j == r.len() {
                    let k = choose|k: int| 0 <= k < s2.len() && s2[k] == #[trigger] r[i];
                    assert(s[k] == s2[k]);
                    assert(!same_path(s[k].path@, s[s.len() - 1].path@));
                } else {
                    assert(rr[j] == r[j]);
                }
            }
        }
    }
}

proof fn lemma_merged_picks_up(m: Seq<MediaItem>, d: Seq<MediaItem>, j: int)
    requires
        0 <= j < d.len(),
        !has_path(m, d[j].path@),
        forall|i: int| 0 <= i < j ==> !same_path(#[trigger] d[i].path@, d[j].path@),
    ensures
        merged(m, d).contains(d[j]),
    decreases d.len(),
{
    let next = if has_path(m, d[0].path@) {
        m
    } else {
        m.push(d[0])
    };
    if j == 0 {
        lemma_merged_extends(next, d.drop_first());
        assert(merged(m, d).subrange(0, next.len() as int)[m.len() as int] == d[0]);
    } else {
        let d2 = d.drop_first();
        assert(d2[j - 1] == d[j]);
        assert(!has_path(next, d2[j - 1].path@)) by {
            if has_path(next, d[j].path@) {
                let k = choose|k: int| 0 <= k < next.len() && same_path(#[trigger] next[k].path@, d[j].path@);
                if k < m.len() {
                    assert(next[k] == m[k]);
                } else {
                    assert(!same_path(d[0].path@, d[j].path@));
                }
            }
        }
        assert forall|i: int| 0 <= i < j - 1 implies !same_path(#[trigger] d2[i].path@, d2[j - 1].path@) by {
            assert(d2[i] == d[i + 1]);
        }
        lemma_merged_picks_up(next, d2, j - 1);
    }
}

/// Sync keeps the user's items: an item that was listed, still exists and lies in the
/// directory stays, with its include toggle as it was.
pub proof fn law_sync_keeps_present_items(
    media: Seq<MediaItem>,
    disc: Seq<MediaItem>,
    dir: Seq<char>,
    present: Seq<Seq<char>>,
    k: int,
)
    requires
        0 <= k < media.len(),
        keeps(media[k], dir, present),
    ensures
        synced(media, disc, dir, present).contains(media[k]),
{
    lemma_merged_extends(media, disc);
    let mm = merged(media, disc);
    assert(mm[k] == mm.subrange(0, media.len() as int)[k]);
    lemma_retained_contains(mm, dir, present, k);
}

/// After a sync every item exists and lies directly in the directory.
pub proof fn law_sync_only_present_items_in_dir(
    media: Seq<MediaItem>,
    disc: Seq<MediaItem>,
    dir: Seq<char>,
    present: Seq<Seq<char>>,
)
    ensures
        forall|i: int|
            0 <= i < synced(media, disc, dir, present).len() ==> keeps(
                #[trigger] synced(media, disc, dir, present)[i],
                dir,
                present,
            ),
{
    lemma_retained_facts(merged(media, disc), dir, present);
}

/// Sync makes up nothing: every item afterwards was listed before or was discovered.
pub proof fn law_sync_items_come_from_inputs(
    media: Seq<MediaItem>,
    disc: Seq<MediaItem>,
    dir: Seq<char>,
    present: Seq<Seq<char>>,
)
    ensures
        forall|i: int|
            0 <= i < synced(media, disc, dir, present).len() ==> media.contains(
                #[trigger] synced(media, disc, dir, present)[i],
            ) || disc.contains(synced(media, disc, dir, present)[i]),
{
    lemma_merged_from_inputs(media, disc);
    let mm = merged(media, disc);
    lemma_retained_facts(mm, dir, present);
    assert forall|i: int|
        0 <= i < synced(media, disc, dir, present).len() implies media.contains(
        #[trigger] synced(media, disc, dir, present)[i],
    ) || disc.contains(synced(media, disc, dir, present)[i]) by {
        let j = choose|j: int| 0 <= j < mm.len() && mm[j] == #[trigger] retained(mm, dir, present)[i];
        assert(media.contains(mm[j]) || disc.contains(mm[j]));
    }
}

proof fn lemma_merged_from_inputs(m: Seq<MediaItem>, d: Seq<MediaItem>)
    ensures
        forall|i: int|
            0 <= i < merged(m, d).len() ==> m.contains(#[trigger] merged(m, d)[i]) || d.contains(
                merged(m, d)[i],
            ),
    decreases d.len(),
{
    if d.len() > 0 {
        let next = if has_path(m, d[0].path@) {
            m
        } else {
            m.push(d[0])
        };
        let d2 = d.drop_first();
        lemma_merged_from_inputs(next, d2);
        assert forall|i: int| 0 <= i < merged(m, d).len() implies m.contains(
            #[trigger] merged(m, d)[i],
        ) || d.contains(merged(m, d)[i]) by {
            let x = merged(m, d)[i];
            assert(merged(m, d) == merged(next, d2));
            assert(merged(next, d2)[i] == x);
            if next.contains(x) {
                let k = choose|k: int| 0 <= k < next.len() && next[k] == x;
                if k < m.len() {
                    assert(m[k] == x);
                } else {
                    assert(d[0] == x);
                }
            } else {
                let k = choose|k: int| 0 <= k < d2.len() && d2[k] == x;
                assert(d[k + 1] == x);
            }
        }
    }
}

/// Sync adds no duplicates: when no two items shared a path before, none do afterwards.
pub proof fn law_sync_no_new_duplicates(
    media: Seq<MediaItem>,
    disc: Seq<MediaItem>,
    dir: Seq<char>,
    present: Seq<Seq<char>>,
)
    requires
        no_duplicate_paths(media),
    ensures
        no_duplicate_paths(synced(media, disc, dir, present)),
{
    lemma_merged_no_duplicates(media, disc);
    lemma_retained_no_duplicates(merged(media, disc), dir, present);
}

/// Sync picks up new files: a discovered file whose path is not yet listed (and not found
/// earlier in the same scan) is in the list afterwards when it exists and lies in the
/// directory.
pub proof fn law_sync_picks_up_new_items(
    media: Seq<MediaItem>,
    disc: Seq<MediaItem>,
    dir: Seq<char>,
    present: Seq<Seq<char>>,
    j: int,
)
    requires
        0 <= j < disc.len(),
        !has_path(media, disc[j].path@),
        forall|i: int| 0 <= i < j ==> !same_path(#[trigger] disc[i].path@, disc[j].path@),
        keeps(disc[j], dir, present),
    ensures
        synced(media, disc, dir, present).contains(disc[j]),
{
    lemma_merged_picks_up(media, disc, j);
    let mm = merged(media, disc);
    let k = choose|k: int| 0 <= k < mm.len() && mm[k] == disc[j];
    lemma_retained_contains(mm, dir, present, k);
}


/// Items of `s` with the same path either all stay or all go.
pub open spec fn kept_alike(s: Seq<MediaItem>, dir: Seq<char>, present: Seq<Seq<char>>) -> bool {
    forall|i: int, j: int|
        0 <= i < s.len() && 0 <= j < s.len() && same_path(#[trigger] s[i].path@, #[trigger] s[j].path@)
            ==> (keeps(s[i], dir, present) <==> keeps(s[j], dir, present))
}

proof fn lemma_merged_covers(m: Seq<MediaItem>, d: Seq<MediaItem>, j: int)
    requires
        0 <= j < d.len(),
    ensures
        exists|k: int|
            0 <= k < merged(m, d).len() && same_path(#[trigger] merged(m, d)[k].path@, d[j].path@),
    decreases d.len(),
{
    let next = if has_path(m, d[0].path@) {
        m
    } else {
        m.push(d[0])
    };
    lemma_merged_extends(next, d.drop_first());
    let mm = merged(m, d);
    assert(mm == merged(next, d.drop_first()));
    if j == 0 {
        if has_path(m, d[0].path@) {
            let k = choose|k: int| 0 <= k < m.len() && same_path(#[trigger] m[k].path@, d[0].path@);
            assert(mm[k] == mm.subrange(0, next.len() as int)[k]);
        } else {
            let k = m.len() as int;
            assert(mm[k] == mm.subrange(0, next.len() as int)[k]);
        }
    } else {
        assert(d.drop_first()[j - 1] == d[j]);
        lemma_merged_covers(next, d.drop_first(), j - 1);
    }
}

proof fn lemma_merged_appends_only_dropped(
    m: Seq<MediaItem>,
    d: Seq<MediaItem>,
    dir: Seq<char>,
    present: Seq<Seq<char>>,
)
    requires
        forall|j: int|
            0 <= j < d.len() && keeps(#[trigger] d[j], dir, present) ==> has_path(m, d[j].path@),
    ensures
        forall|k: int|
            m.len() <= k < merged(m, d).len() ==> !keeps(#[trigger] merged(m, d)[k], dir, present),
    decreases d.len(),
{
    if d.len() > 0 {
        let next = if has_path(m, d[0].path@) {
            m
        } else {
            m.push(d[0])
        };
        let d2 = d.drop_first();
        assert forall|j: int|
            0 <= j < d2.len() && keeps(#[trigger] d2[j], dir, present) implies has_path(
            next,
            d2[j].path@,
        ) by {
            assert(d2[j] == d[j + 1]);
            let k = choose|k: int| 0 <= k < m.len() && same_path(#[trigger] m[k].path@, d[j + 1].path@);
            assert(next[k] == m[k]);
        }
        lemma_merged_appends_only_dropped(next, d2, dir, present);
        lemma_merged_extends(next, d2);
        assert(merged(m, d) == merged(next, d2));
        if !has_path(m, d[0].path@) {
            assert(!keeps(d[0], dir, present));
            assert(merged(m, d)[m.len() as int] == merged(next, d2).subrange(0, next.len() as int)[m.len() as int]);
        }
    }
}

proof fn lemma_retained_ignores_dropped_tail(
    s: Seq<MediaItem>,
    n: int,
    dir: Seq<char>,
    present: Seq<Seq<char>>,
)
    requires
        0 <= n <= s.len(),
        forall|k: int| n <= k < s.len() ==> !keeps(#[trigger] s[k], dir, present),
    ensures
        retained(s, dir, present) == retained(s.take(n), dir, present),
    decreases s.len(),
{
    if s.len() > n {
        let d = s.drop_last();
        assert forall|k: int| n <= k < d.len() implies !keeps(#[trigger] d[k], dir, present) by {
            assert(d[k] == s[k]);
        }
        lemma_retained_ignores_dropped_tail(d, n, dir, present);
        assert(d.take(n) =~= s.take(n));
        assert(!keeps(s[s.len() - 1], dir, present));
    } else {
        assert(s.take(n) =~= s);
    }
}

proof fn lemma_retained_all_kept(s: Seq<MediaItem>, dir: Seq<char>, present: Seq<Seq<char>>)
    requires
        forall|k: int| 0 <= k < s.len() ==> keeps(#[trigger] s[k], dir, present),
    ensures
        retained(s, dir, present) == s,
    decreases s.len(),
{
    if s.len() > 0 {
        let d = s.drop_last();
        assert forall|k: int| 0 <= k < d.len() implies keeps(#[trigger] d[k], dir, present) by {
            assert(d[k] == s[k]);
        }
        lemma_retained_all_kept(d, dir, present);
        assert(keeps(s[s.len() - 1], dir, present));
        assert(d.push(s.last()) =~= s);
    }
}

/// Syncing is stable: a second sync with the same scan leaves the list as the first one
/// made it, and when every discovered item stays, it adds nothing (so it reports no
/// change). This holds when items with the same path are kept alike, as they are on a disk:
/// the same path names one file, which exists or not, in one directory.
pub proof fn law_sync_is_stable(
    media: Seq<MediaItem>,
    disc: Seq<MediaItem>,
    dir: Seq<char>,
    present: Seq<Seq<char>>,
)
    requires
        kept_alike(media + disc, dir, present),
    ensures
        synced(synced(media, disc, dir, present), disc, dir, present) == synced(
            media,
            disc,
            dir,
            present,
        ),
        (forall|j: int| 0 <= j < disc.len() ==> keeps(#[trigger] disc[j], dir, present))
            ==> merged(synced(media, disc, dir, present), disc) == synced(
            media,
            disc,
            dir,
            present,
        ),
{
    let mm = merged(media, disc);
    let m1 = synced(media, disc, dir, present);
    let all = media + disc;
    lemma_retained_facts(mm, dir, present);
    lemma_merged_from_inputs(media, disc);
    assert forall|j: int|
        0 <= j < disc.len() && keeps(#[trigger] disc[j], dir, present) implies has_path(
        m1,
        disc[j].path@,
    ) by {
        lemma_merged_covers(media, disc, j);
        let k = choose|k: int| 0 <= k < mm.len() && same_path(#[trigger] mm[k].path@, disc[j].path@);
        let w = mm[k];
        assert(media.contains(w) || disc.contains(w));
        let iw: int = if media.contains(w) {
            choose|i: int| 0 <= i < media.len() && media[i] == w
        } else {
            media.len() + choose|i: int| 0 <= i < disc.len() && disc[i] == w
        };
        assert(all[iw] == w);
        assert(all[media.len() + j] == disc[j]);
        assert(keeps(w, dir, present));
        lemma_retained_contains(mm, dir, present, k);
        let q = choose|q: int| 0 <= q < m1.len() && m1[q] == w;
        assert(same_path(m1[q].path@, disc[j].path@));
    }
    lemma_merged_appends_only_dropped(m1, disc, dir, present);
    let m2 = merged(m1, disc);
    lemma_merged_extends(m1, disc);
    lemma_retained_ignores_dropped_tail(m2, m1.len() as int, dir, present);
    assert(m2.take(m1.len() as int) =~= m1);
    lemma_retained_all_kept(m1, dir, present);
    if forall|j: int| 0 <= j < disc.len() ==> keeps(#[trigger] disc[j], dir, present) {
        if m2.len() > m1.len() {
            assert(!keeps(m2[m1.len() as int], dir, present));
            lemma_merged_from_inputs(m1, disc);
            let x = m2[m1.len() as int];
            if m1.contains(x) {
                let q = choose|q: int| 0 <= q < m1.len() && m1[q] == x;
                assert(keeps(m1[q], dir, present));
            } else {
                let q = choose|q: int| 0 <= q < disc.len() && disc[q] == x;
                assert(keeps(disc[q], dir, present));
            }
        }
        assert(m2 =~= m1);
    }
}

/// When every listed and every discovered item exists and lies in the directory, the
/// synced list is settled: syncing it again with the same scan adds nothing and drops
/// nothing, so the second sync reports no change.
pub proof fn law_sync_settles_when_all_stay(
    media: Seq<MediaItem>,
    disc: Seq<MediaItem>,
    dir: Seq<char>,
    present: Seq<Seq<char>>,
)
    requires
        forall|i: int| 0 <= i < media.len() ==> keeps(#[trigger] media[i], dir, present),
        forall|j: int| 0 <= j < disc.len() ==> keeps(#[trigger] disc[j], dir, present),
    ensures
        merged(synced(media, disc, dir, present), disc) == synced(media, disc, dir, present),
        retained(synced(media, disc, dir, present), dir, present) == synced(
            media,
            disc,
            dir,
            present,
        ),
{
    let all = media + disc;
    assert forall|i: int| 0 <= i < all.len() implies keeps(#[trigger] all[i], dir, present) by {
        if i < media.len() {
            assert(all[i] == media[i]);
        } else {
            assert(all[i] == disc[i - media.len()]);
        }
    }
    law_sync_is_stable(media, disc, dir, present);
    lemma_retained_facts(merged(media, disc), dir, present);
    lemma_retained_all_kept(synced(media, disc, dir, present), dir, present);
}

/// What a sync does to a configuration: only the media list changes; without a wallpaper
/// directory it stays and nothing changed; with one it becomes the synced list, and it
/// changed exactly when an item was added or dropped.
pub open spec fn sync_outcome(
    before: Config,
    disc: Seq<MediaItem>,
    present: Seq<Seq<char>>,
    after: Config,
    changed: bool,
) -> bool {
    &&& after.wallpaper_dir == before.wallpaper_dir
    &&& after.interval_seconds == before.interval_seconds
    &&& after.random == before.random
    &&& match before.wallpaper_dir {
        None => after.media@ == before.media@ && !changed,
        Some(dir) => {
            let m = merged(before.media@, disc);
            &&& after.media@ == synced(before.media@, disc, dir@, present)
            &&& changed == (m.len() != before.media@.len() || after.media@.len() != m.len())
        },
    }
}

/// A second sync with the same scan, on a disk that did not change, reports no change and
/// leaves the media list as the first sync made it. "The same disk" means: items with the
/// same path are kept alike, and every discovered file exists and lies in the directory.
pub proof fn law_second_sync_reports_no_change(
    c0: Config,
    disc: Seq<MediaItem>,
    present: Seq<Seq<char>>,
    c1: Config,
    changed1: bool,
    c2: Config,
    changed2: bool,
)
    requires
        sync_outcome(c0, disc, present, c1, changed1),
        sync_outcome(c1, disc, present, c2, changed2),
        c0.wallpaper_dir matches Some(dir) ==> {
            &&& kept_alike(c0.media@ + disc, dir@, present)
            &&& forall|j: int| 0 <= j < disc.len() ==> keeps(#[trigger] disc[j], dir@, present)
        },
    ensures
        !changed2,
        c2.media@ == c1.media@,
        c2.wallpaper_dir == c1.wallpaper_dir,
        c2.interval_seconds == c1.interval_seconds,
        c2.random == c1.random,
{
    if let Some(dir) = c0.wallpaper_dir {
        law_sync_is_stable(c0.media@, disc, dir@, present);
        lemma_retained_facts(merged(c0.media@, disc), dir@, present);
        lemma_retained_all_kept(c1.media@, dir@, present);
    }
}

/// After a sync with a wallpaper directory, the list holds exactly the items that lie
/// directly in it: each item's parent (`Path::parent`) is the directory as `Path` compares,
/// and its file exists; and every item that was listed before, exists and has the
/// directory as its parent is still listed. An item deeper down (in a subdirectory) or
/// elsewhere is dropped.
pub proof fn law_sync_keeps_exactly_items_directly_in_dir(
    before: Config,
    disc: Seq<MediaItem>,
    present: Seq<Seq<char>>,
    after: Config,
    changed: bool,
    dir: String,
)
    requires
        sync_outcome(before, disc, present, after, changed),
        before.wallpaper_dir == Some(dir),
    ensures
        forall|i: int|
            0 <= i < after.media@.len() ==> present.contains(#[trigger] after.media@[i].path@)
                && (path_parent_of(after.media@[i].path@) matches Some(q) && path_order(q, dir@)
                == 0),
        forall|k: int|
            0 <= k < before.media@.len() && present.contains(#[trigger] before.media@[k].path@)
                && (path_parent_of(before.media@[k].path@) matches Some(q) && path_order(q, dir@)
                == 0) ==> after.media@.contains(before.media@[k]),
        (exists|k: int|
            0 <= k < before.media@.len() && !(path_parent_of(#[trigger] before.media@[k].path@) matches Some(q)
                && path_order(q, dir@) == 0)) ==> changed,
{
    let m = merged(before.media@, disc);
    lemma_retained_facts(m, dir@, present);
    assert forall|i: int| 0 <= i < after.media@.len() implies present.contains(
        #[trigger] after.media@[i].path@,
    ) && (path_parent_of(after.media@[i].path@) matches Some(q) && path_order(q, dir@) == 0) by {
        assert(keeps(retained(m, dir@, present)[i], dir@, present));
    }
    assert forall|k: int|
        0 <= k < before.media@.len() && present.contains(#[trigger] before.media@[k].path@)
            && (path_parent_of(before.media@[k].path@) matches Some(q) && path_order(q, dir@)
            == 0) implies after.media@.contains(before.media@[k]) by {
        law_sync_keeps_present_items(before.media@, disc, dir@, present, k);
    }
    if exists|k: int|
        0 <= k < before.media@.len() && !(path_parent_of(#[trigger] before.media@[k].path@) matches Some(q)
            && path_order(q, dir@) == 0) {
        let k = choose|k: int|
            0 <= k < before.media@.len() && !(path_parent_of(#[trigger] before.media@[k].path@) matches Some(q)
                && path_order(q, dir@) == 0);
        lemma_merged_extends(before.media@, disc);
        assert(m[k] == m.subrange(0, before.media@.len() as int)[k]);
        if !changed {
            // Nothing was added or dropped: the list after is the merged list.
            lemma_retained_subsequence_len(m, dir@, present, k);
        }
    }
}

/// A sync reports every change: when the list differs afterwards, it says so; when it says
/// nothing changed, the list is exactly as it was.
pub proof fn law_sync_reports_every_change(
    before: Config,
    disc: Seq<MediaItem>,
    present: Seq<Seq<char>>,
    after: Config,
    changed: bool,
)
    requires
        sync_outcome(before, disc, present, after, changed),
    ensures
        after.media@ != before.media@ ==> changed,
        !changed ==> after.media@ == before.media@,
{
    if let Some(dir) = before.wallpaper_dir {
        let m = merged(before.media@, disc);
        lemma_merged_extends(before.media@, disc);
        if !changed {
            assert(m =~= m.subrange(0, before.media@.len() as int));
            assert forall|k: int| 0 <= k < m.len() implies keeps(#[trigger] m[k], dir@, present) by {
                if !keeps(m[k], dir@, present) {
                    lemma_retained_subsequence_len(m, dir@, present, k);
                }
            }
            lemma_retained_all_kept(m, dir@, present);
        }
    }
}

/// A sync picks up a new file: a discovered item whose path is not the same (as text, or as
/// `Path` compares) as any listed item's or any earlier discovered item's, whose file exists
/// and whose parent is the wallpaper directory, is listed afterwards, and the sync reports a
/// change.
pub proof fn law_sync_adds_new_files(
    before: Config,
    disc: Seq<MediaItem>,
    present: Seq<Seq<char>>,
    after: Config,
    changed: bool,
    dir: String,
    j: int,
)
    requires
        sync_outcome(before, disc, present, after, changed),
        before.wallpaper_dir == Some(dir),
        0 <= j < disc.len(),
        forall|k: int|
            0 <= k < before.media@.len() ==> #[trigger] before.media@[k].path@ != disc[j].path@
                && path_order(before.media@[k].path@, disc[j].path@) != 0,
        forall|i: int|
            0 <= i < j ==> #[trigger] disc[i].path@ != disc[j].path@ && path_order(
                disc[i].path@,
                disc[j].path@,
            ) != 0,
        present.contains(disc[j].path@),
        path_parent_of(disc[j].path@) matches Some(q) && path_order(q, dir@) == 0,
    ensures
        after.media@.contains(disc[j]),
        changed,
{
    law_sync_picks_up_new_items(before.media@, disc, dir@, present, j);
    lemma_merged_picks_up(before.media@, disc, j);
    lemma_merged_extends(before.media@, disc);
    let m = merged(before.media@, disc);
    if m.len() == before.media@.len() {
        let k = choose|k: int| 0 <= k < m.len() && m[k] == disc[j];
        assert(m =~= m.subrange(0, before.media@.len() as int));
        assert(before.media@[k] == disc[j]);
    }
}

/// A sync lists no path twice when the list did not: afterwards no two items have the same
/// path, as text or as `Path` compares.
pub proof fn law_sync_lists_no_path_twice(
    before: Config,
    disc: Seq<MediaItem>,
    present: Seq<Seq<char>>,
    after: Config,
    changed: bool,
)
    requires
        sync_outcome(before, disc, present, after, changed),
        forall|i: int, k: int|
            0 <= i < k < before.media@.len() ==> #[trigger] before.media@[i].path@
                != #[trigger] before.media@[k].path@ && path_order(
                before.media@[i].path@,
                before.media@[k].path@,
            ) != 0,
    ensures
        forall|i: int, k: int|
            0 <= i < k < after.media@.len() ==> #[trigger] after.media@[i].path@
                != #[trigger] after.media@[k].path@ && path_order(
                after.media@[i].path@,
                after.media@[k].path@,
            ) != 0,
{
    if let Some(dir) = before.wallpaper_dir {
        law_sync_no_new_duplicates(before.media@, disc, dir@, present);
        let a = after.media@;
        assert forall|i: int, k: int| 0 <= i < k < a.len() implies #[trigger] a[i].path@
            != #[trigger] a[k].path@ && path_order(a[i].path@, a[k].path@) != 0 by {
            assert(!same_path(a[i].path@, a[k].path@));
        }
    }
}

/// Some item of `media` has the same path as `p`.
fn find_path(media: &Vec<MediaItem>, p: &String) -> (r: bool)
    ensures
        r == has_path(media@, p@),
{
    let mut i: usize = 0;
    while i < media.len()
        invariant
            i <= media@.len(),
            forall|j: int| 0 <= j < i ==> !same_path(#[trigger] media@[j].path@, p@),
        decreases media@.len() - i,
    {
        if media[i].path == *p || compare_paths(media[i].path.as_str(), p.as_str()) == 0 {
            return true;
        }
        i = i + 1;
    }
    false
}

/// Adds the discovered items that are not yet listed; tells whether any was added.
fn merge_discovered(media: &mut Vec<MediaItem>, discovered: &Vec<MediaItem>) -> (added: bool)
    ensures
        final(media)@ == merged(old(media)@, discovered@),
        added == (final(media)@.len() != old(media)@.len()),
{
    let ghost start = media@;
    let mut added = false;
    let mut i: usize = 0;
    proof {
        assert(discovered@.skip(0) =~= discovered@);
    }
    while i < discovered.len()
        invariant
            i <= discovered@.len(),
            merged(media@, discovered@.skip(i as int)) == merged(start, discovered@),
            media@.len() >= start.len(),
            added == (media@.len() != start.len()),
        decreases discovered@.len() - i,
    {
        let ghost before = media@;
        let found = find_path(media, &discovered[i].path);
        if !found {
            media.push(discovered[i].duplicate());
        }
        proof {
            assert(discovered@.skip(i as int).drop_first() =~= discovered@.skip(i + 1));
            assert(discovered@.skip(i as int)[0] == discovered@[i as int]);
        }
        added = added || !found;
        i = i + 1;
    }
    proof {
        assert(discovered@.skip(i as int) =~= Seq::<MediaItem>::empty());
    }
    added
}

/// The text `p` is one of `present`.
fn is_listed(present: &Vec<String>, p: &String) -> (r: bool)
    ensures
        r == texts(present@).contains(p@),
{
    let mut i: usize = 0;
    while i < present.len()
        invariant
            i <= present@.len(),
            forall|j: int| 0 <= j < i ==> present@[j]@ != p@,
        decreases present@.len() - i,
    {
        if present[i] == *p {
            proof {
                assert(texts(present@)[i as int] == p@);
            }
            return true;
        }
        i = i + 1;
    }
    proof {
        if texts(present@).contains(p@) {
            let j = choose|j: int| 0 <= j < texts(present@).len() && texts(present@)[j] == p@;
            assert(present@[j]@ == p@);
        }
    }
    false
}

/// The parent directory of `p` is `dir`.
fn is_in_dir(p: &str, dir: &str) -> (r: bool)
    ensures
        r == in_dir(p@, dir@),
{
    match path_parent(p) {
        Some(q) => compare_paths(q.as_str(), dir) == 0,
        None => false,
    }
}

/// The items of `media` that stay, in their order.
fn retain_kept(media: &Vec<MediaItem>, dir: &str, present: &Vec<String>) -> (r: Vec<MediaItem>)
    ensures
        r@ == retained(media@, dir@, texts(present@)),
{
    let mut out: Vec<MediaItem> = Vec::new();
    let mut i: usize = 0;
    while i < media.len()
        invariant
            i <= media@.len(),
            out@ == retained(media@.take(i as int), dir@, texts(present@)),
        decreases media@.len() - i,
    {
        proof {
            assert(media@.take(i + 1).drop_last() =~= media@.take(i as int));
            assert(media@.take(i + 1).last() == media@[i as int]);
        }
        if is_listed(present, &media[i].path) && is_in_dir(media[i].path.as_str(), dir) {
            out.push(media[i].duplicate());
        }
        i = i + 1;
    }
    proof {
        assert(media@.take(i as int) =~= media@);
    }
    out
}

/// Brings the media list in line with a scan of the wallpaper directory: adds each
/// discovered item whose path is not yet listed (new items come in as the scan made them),
/// then drops every item whose file is gone or that does not lie directly in the directory.
/// `present` holds the paths, among the listed and the discovered items, whose files exist.
/// Tells whether the list changed; without a wallpaper directory nothing happens.
pub fn sync_media_items(config: &mut Config, discovered: Vec<MediaItem>, present: &Vec<String>) -> (changed: bool)
    ensures
        sync_outcome(*old(config), discovered@, texts(present@), *final(config), changed),
{
    let dir = match &config.wallpaper_dir {
        Some(d) => d.clone(),
        None => {
            return false;
        },
    };
    let added = merge_discovered(&mut config.media, &discovered);
    let kept = retain_kept(&config.media, dir.as_str(), present);
    let removed = kept.len() != config.media.len();
    config.media = kept;
    added || removed
}

} // verus!
