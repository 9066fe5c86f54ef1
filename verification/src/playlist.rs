use vstd::prelude::*;
use rand::seq::SliceRandom;
use crate::model::{Config, MediaItem};
use crate::paths::{compare_paths, path_order};

verus! {

broadcast use vstd::seq_lib::group_to_multiset_ensures;

/// The items of `s` that are included in the rotation, in their order.
pub open spec fn included_items(s: Seq<MediaItem>) -> Seq<MediaItem>
    decreases s.len(),
{
    if s.len() == 0 {
        Seq::empty()
    } else {
        let r = included_items(s.drop_last());
        if s.last().included {
            r.push(s.last())
        } else {
            r
        }
    }
}

/// `s` with `x` put right after the last item whose path does not come after `x`'s.
pub open spec fn insert_by_path(s: Seq<MediaItem>, x: MediaItem) -> Seq<MediaItem>
    decreases s.len(),
{
    if s.len() == 0 {
        seq![x]
    } else if path_order(s.last().path@, x.path@) > 0 {
        insert_by_path(s.drop_last(), x).push(s.last())
    } else {
        s.push(x)
    }
}

/// `s` sorted by path, items with equal paths keeping their order (a stable sort).
pub open spec fn sorted_by_path(s: Seq<MediaItem>) -> Seq<MediaItem>
    decreases s.len(),
{
    if s.len() == 0 {
        Seq::empty()
    } else {
        insert_by_path(sorted_by_path(s.drop_last()), s.last())
    }
}

/// Each item's path comes no later than the next one's.
pub open spec fn in_path_order(s: Seq<MediaItem>) -> bool {
    forall|i: int, j: int|
        #![trigger s[i], s[j]]
        0 <= i && j == i + 1 && j < s.len() ==> path_order(s[i].path@, s[j].path@) <= 0
}

/// Shuffles the items in place with `SliceRandom::shuffle` and the thread's random
/// generator.
///
/// Trusted: the shuffle only swaps items, so the result holds the same items as before;
/// their order is left unsaid, as it is random.
#[verifier::external_body]
fn shuffle_media(items: &mut Vec<MediaItem>)
    ensures
        final(items)@.to_multiset() == old(items)@.to_multiset(),
{
    items.shuffle(&mut rand::thread_rng());
}

/// The items of `media` that are included in the rotation.
pub fn included_media(media: &Vec<MediaItem>) -> (r: Vec<MediaItem>)
    ensures
        r@ == included_items(media@),
{
    let mut out: Vec<MediaItem> = Vec::new();
    let mut i: usize = 0;
    while i < media.len()
        invariant
            i <= media@.len(),
            out@ == included_items(media@.take(i as int)),
        decreases media@.len() - i,
    {
        proof {
            assert(media@.take(i + 1).drop_last() =~= media@.take(i as int));
            assert(media@.take(i + 1).last() == media@[i as int]);
        }
        if media[i].included {
            out.push(media[i].duplicate());
        }
        i = i + 1;
    }
    proof {
        assert(media@.take(i as int) =~= media@);
    }
    out
}

/// Puts `x` into `out` as `insert_by_path` does.
fn insert_in_path_order(out: &mut Vec<MediaItem>, x: MediaItem)
    requires
        in_path_order(old(out)@),
    ensures
        final(out)@ == insert_by_path(old(out)@, x),
        in_path_order(final(out)@),
{
    let ghost s = out@;
    let mut j: usize = out.len();
    proof {
        assert(s.take(j as int) =~= s);
        assert(s.skip(j as int) =~= Seq::<MediaItem>::empty());
    }
    loop
        invariant
            out@ == s,
            j <= s.len(),
            insert_by_path(s, x) =~= insert_by_path(s.take(j as int), x) + s.skip(j as int),
            j < s.len() ==> path_order(x.path@, s[j as int].path@) < 0,
        ensures
            out@ == s,
            j <= s.len(),
            insert_by_path(s, x) =~= insert_by_path(s.take(j as int), x) + s.skip(j as int),
            j == 0 || path_order(s[j - 1].path@, x.path@) <= 0,
            j < s.len() ==> path_order(x.path@, s[j as int].path@) < 0,
        decreases j,
    {
        if j == 0 {
            break;
        }
        if compare_paths(out[j - 1].path.as_str(), x.path.as_str()) <= 0 {
            break;
        }
        proof {
            let t = s.take(j as int);
            assert(t.drop_last() =~= s.take(j - 1));
            assert(t.last() == s[j - 1]);
            assert(s.skip(j - 1) =~= seq![s[j - 1]] + s.skip(j as int));
        }
        j = j - 1;
    }
    proof {
        let t = s.take(j as int);
        if j > 0 {
            assert(t.last() == s[j - 1]);
            assert(insert_by_path(t, x) =~= t.push(x));
        } else {
            assert(insert_by_path(t, x) =~= t.push(x));
        }
        assert(t.push(x) + s.skip(j as int) =~= s.insert(j as int, x));
        let r = s.insert(j as int, x);
        assert forall|i: int, k: int|
            #![trigger r[i], r[k]]
            0 <= i && k == i + 1 && k < r.len() implies path_order(r[i].path@, r[k].path@) <= 0 by {
            if k < j {
                assert(r[i] == s[i] && r[k] == s[k]);
            } else if k == j {
                assert(r[i] == s[i] && r[k] == x);
            } else if i == j {
                assert(r[i] == x && r[k] == s[i]);
            } else {
                assert(r[i] == s[i - 1] && r[k] == s[k - 1]);
            }
        }
    }
    out.insert(j, x);
}

/// The items sorted by path, items with equal paths keeping their order.
pub fn sort_by_path(items: &Vec<MediaItem>) -> (r: Vec<MediaItem>)
    ensures
        r@ == sorted_by_path(items@),
        in_path_order(r@),
{
    let mut out: Vec<MediaItem> = Vec::new();
    let mut i: usize = 0;
    while i < items.len()
        invariant
            i <= items@.len(),
            out@ == sorted_by_path(items@.take(i as int)),
            in_path_order(out@),
        decreases items@.len() - i,
    {
        proof {
            assert(items@.take(i + 1).drop_last() =~= items@.take(i as int));
            assert(items@.take(i + 1).last() == items@[i as int]);
        }
        insert_in_path_order(&mut out, items[i].duplicate());
        i = i + 1;
    }
    proof {
        assert(items@.take(i as int) =~= items@);
    }
    out
}

/// The rotation order for a configuration: the included items, shuffled when the
/// configuration asks for random order, sorted by path otherwise.
pub fn get_included_media(config: &Config) -> (r: Vec<MediaItem>)
    ensures
        config.random ==> r@.to_multiset() == included_items(config.media@).to_multiset(),
        !config.random ==> r@ == sorted_by_path(included_items(config.media@)),
        !config.random ==> in_path_order(r@),
{
    let items = included_media(&config.media);
    if config.random {
        let mut shuffled = items;
        shuffle_media(&mut shuffled);
        shuffled
    } else {
        sort_by_path(&items)
    }
}

proof fn lemma_insert_multiset(s: Seq<MediaItem>, x: MediaItem)
    ensures
        insert_by_path(s, x).to_multiset() == s.to_multiset().insert(x),
        insert_by_path(s, x).len() == s.len() + 1,
    decreases s.len(),
{
    if s.len() == 0 {
        assert(seq![x] =~= Seq::<MediaItem>::empty().push(x));
    } else if path_order(s.last().path@, x.path@) > 0 {
        lemma_insert_multiset(s.drop_last(), x);
        assert(s =~= s.drop_last().push(s.last()));
        assert(s.to_multiset() =~= s.drop_last().to_multiset().insert(s.last()));
        assert(insert_by_path(s, x).to_multiset() =~= s.to_multiset().insert(x));
    }
}

/// Sorting by path keeps exactly the items it was given.
pub proof fn law_sort_keeps_items(s: Seq<MediaItem>)
    ensures
        sorted_by_path(s).to_multiset() == s.to_multiset(),
    decreases s.len(),
{
    if s.len() > 0 {
        law_sort_keeps_items(s.drop_last());
        lemma_insert_multiset(sorted_by_path(s.drop_last()), s.last());
        assert(s =~= s.drop_last().push(s.last()));
        assert(s.to_multiset() =~= s.drop_last().to_multiset().insert(s.last()));
    }
}

/// Only included items are rotated, and each of them is.
pub proof fn law_rotation_holds_the_included_items(s: Seq<MediaItem>)
    ensures
        forall|m: MediaItem| #[trigger] included_items(s).contains(m) <==> s.contains(m) && m.included,
    decreases s.len(),
{
    if s.len() > 0 {
        let d = s.drop_last();
        law_rotation_holds_the_included_items(d);
        assert forall|m: MediaItem| #[trigger] included_items(s).contains(m) <==> s.contains(m) && m.included by {
            let r = included_items(d);
            assert(r.contains(m) <==> d.contains(m) && m.included);
            assert(included_items(s) == if s.last().included { r.push(s.last()) } else { r });
            if s.contains(m) && m.included {
                let k = choose|k: int| 0 <= k < s.len() && s[k] == m;
                if k < d.len() {
                    assert(d[k] == m);
                    assert(d.contains(m));
                    let q = choose|q: int| 0 <= q < r.len() && r[q] == m;
                    assert(included_items(s)[q] == m);
                } else {
                    assert(included_items(s)[r.len() as int] == m);
                }
            }
            if included_items(s).contains(m) {
                let q = choose|q: int| 0 <= q < included_items(s).len() && included_items(s)[q] == m;
                if q < r.len() {
                    assert(r[q] == m);
                    assert(r.contains(m));
                    let k = choose|k: int| 0 <= k < d.len() && d[k] == m;
                    assert(s[k] == m);
                } else {
                    assert(s[s.len() - 1] == m);
                }
            }
        }
    }
}

proof fn lemma_included_is_filter(s: Seq<MediaItem>, p: spec_fn(MediaItem) -> bool)
    requires
        forall|m: MediaItem| #[trigger] p(m) == m.included,
    ensures
        included_items(s) == s.filter(p),
    decreases s.len(),
{
    reveal(Seq::filter);
    if s.len() > 0 {
        lemma_included_is_filter(s.drop_last(), p);
        assert(p(s.last()) == s.last().included);
    }
}

/// The rotation is the media list with the excluded items taken out, nothing else: it is
/// vstd's `filter` of the list by the include toggle, so each included item occurs in it as
/// many times as in the list, in the list's order, and there are as many entries as there
/// are included items.
pub proof fn law_rotation_is_the_included_filter(s: Seq<MediaItem>)
    ensures
        included_items(s) == s.filter(|m: MediaItem| m.included),
        forall|m: MediaItem|
            #[trigger] included_items(s).to_multiset().count(m) == if m.included {
                s.to_multiset().count(m)
            } else {
                0
            },
    decreases s.len(),
{
    let p = |m: MediaItem| m.included;
    lemma_included_is_filter(s, p);
    if s.len() > 0 {
        let d = s.drop_last();
        law_rotation_is_the_included_filter(d);
        assert(s =~= d.push(s.last()));
        assert(s.to_multiset() =~= d.to_multiset().insert(s.last()));
        let r = included_items(d);
        if s.last().included {
            assert(included_items(s).to_multiset() =~= r.to_multiset().insert(s.last()));
        }
        assert forall|m: MediaItem|
            #[trigger] included_items(s).to_multiset().count(m) == if m.included {
                s.to_multiset().count(m)
            } else {
                0
            } by {
            assert(r.to_multiset().count(m) == if m.included {
                d.to_multiset().count(m)
            } else {
                0
            });
        }
    }
}

} // verus!
