//! The Filter & Sort stage.
//!
//! The inclusion predicate is the one configurable policy of the
//! pipeline. After filtering, each retained series's episodes are put in
//! ascending (season, episode) order by a stable insertion sort; an
//! absent ordinal orders after every present one, so the order is total
//! and deterministic even under permissive retention.

use crate::model::{
    Episode, EpisodeModel, InclusionPolicy, Series, SeriesModel, episode_views, series_views,
    with_episodes,
};
use vstd::multiset::Multiset;
use vstd::prelude::*;

verus! {

broadcast use {vstd::seq_lib::group_to_multiset_ensures, vstd::multiset::group_multiset_axioms};

/// The inclusion predicate over a joined series.
pub open spec fn spec_included(s: SeriesModel, policy: InclusionPolicy) -> bool {
    match policy {
        InclusionPolicy::NonEmptyEpisodes => s.episodes.len() > 0,
        InclusionPolicy::CompleteEpisodeData => s.episodes.len() > 0 && forall|k: int|
            0 <= k < s.episodes.len() ==> (#[trigger] s.episodes[k]).season_number is Some
                && s.episodes[k].episode_number is Some,
    }
}

/// The inclusion predicate as a function value, so every contract names
/// the same predicate.
pub open spec fn included_pred(policy: InclusionPolicy) -> spec_fn(SeriesModel) -> bool {
    |s: SeriesModel| spec_included(s, policy)
}

/// Decides the inclusion predicate for one series.
pub fn series_included(s: &Series, policy: InclusionPolicy) -> (r: bool)
    ensures
        r == spec_included(s@, policy),
{
    match policy {
        InclusionPolicy::NonEmptyEpisodes => s.episodes.len() > 0,
        InclusionPolicy::CompleteEpisodeData => {
            if s.episodes.len() == 0 {
                return false;
            }
            let mut k: usize = 0;
            while k < s.episodes.len()
                invariant
                    policy is CompleteEpisodeData,
                    0 <= k <= s.episodes@.len(),
                    forall|t: int|
                        0 <= t < k ==> (#[trigger] s@.episodes[t]).season_number is Some
                            && s@.episodes[t].episode_number is Some,
                    s@.episodes == episode_views(s.episodes@),
                decreases s.episodes@.len() - k,
            {
                proof {
                    assert(s@.episodes[k as int] == s.episodes@[k as int]@);
                }
                let season_known = match s.episodes[k].season_number {
                    Some(_) => true,
                    None => false,
                };
                let episode_known = match s.episodes[k].episode_number {
                    Some(_) => true,
                    None => false,
                };
                if !season_known || !episode_known {
                    proof {
                        assert(!(s@.episodes[k as int].season_number is Some
                            && s@.episodes[k as int].episode_number is Some));
                        if spec_included(s@, policy) {
                            assert(s@.episodes[k as int].season_number is Some
                                && s@.episodes[k as int].episode_number is Some);
                        }
                    }
                    return false;
                }
                k = k + 1;
            }
            true
        },
    }
}

/// Keeps exactly the series that satisfy the policy, in order.
pub fn filter_series(all: Vec<Series>, policy: InclusionPolicy) -> (r: Vec<Series>)
    ensures
        series_views(r@) == series_views(all@).filter(included_pred(policy)),
{
    let ghost orig = series_views(all@);
    let mut work = all;
    let mut out: Vec<Series> = Vec::new();
    proof {
        reveal(Seq::filter);
        assert(orig.take(0) =~= Seq::<SeriesModel>::empty());
        assert(series_views(out@) =~= orig.take(0).filter(included_pred(policy)));
        assert(series_views(work@) =~= orig.skip(0));
    }
    while work.len() > 0
        invariant
            work@.len() <= orig.len(),
            series_views(work@) == orig.skip(orig.len() - work@.len()),
            series_views(out@) == orig.take(orig.len() - work@.len()).filter(
                included_pred(policy),
            ),
        decreases work@.len(),
    {
        let ghost d = orig.len() - work@.len();
        let ghost work0 = work@;
        let s = work.remove(0);
        proof {
            assert(series_views(work0)[0] == s@);
            assert(s@ == orig[d]);
            assert(work@ =~= work0.skip(1));
            assert(series_views(work@) =~= series_views(work0).skip(1));
            assert(series_views(work@) =~= orig.skip(d + 1));
        }
        let keep = series_included(&s, policy);
        let ghost out0 = series_views(out@);
        proof {
            reveal(Seq::filter);
            assert(orig.take(d + 1).drop_last() =~= orig.take(d));
            assert(orig.take(d + 1).last() == orig[d]);
        }
        if keep {
            out.push(s);
            proof {
                assert(series_views(out@) =~= out0.push(orig[d]));
            }
        }
    }
    proof {
        assert(orig.take(orig.len() - work@.len()) =~= orig);
    }
    out
}

/// Every retained element is an element of the unfiltered sequence.
pub proof fn lemma_filter_member(s: Seq<SeriesModel>, pred: spec_fn(SeriesModel) -> bool, i: int)
    requires
        0 <= i < s.filter(pred).len(),
    ensures
        exists|k: int| 0 <= k < s.len() && s[k] == s.filter(pred)[i],
    decreases s.len(),
{
    reveal(Seq::filter);
    if s.len() > 0 {
        if pred(s.last()) && i == s.filter(pred).len() - 1 {
            assert(0 <= s.len() - 1 < s.len() && s[s.len() - 1] == s.filter(pred)[i]);
        } else {
            lemma_filter_member(s.drop_last(), pred, i);
            let k = choose|k: int|
                0 <= k < s.drop_last().len() && s.drop_last()[k] == s.drop_last().filter(pred)[i];
            assert(0 <= k < s.len() && s[k] == s.filter(pred)[i]);
        }
    }
}

/// Sort key of an ordinal: an absent ordinal orders after every present
/// one.
pub open spec fn ord_val(o: Option<u32>) -> int {
    match o {
        Some(v) => v as int,
        None => 0x1_0000_0000,
    }
}

/// Episode order: ascending by season, then by episode number.
pub open spec fn episode_le(a: EpisodeModel, b: EpisodeModel) -> bool {
    ord_val(a.season_number) < ord_val(b.season_number) || (ord_val(a.season_number) == ord_val(
        b.season_number,
    ) && ord_val(a.episode_number) <= ord_val(b.episode_number))
}

fn ord_val_exec(o: Option<u32>) -> (r: u64)
    ensures
        r as int == ord_val(o),
{
    match o {
        Some(v) => v as u64,
        None => 0x1_0000_0000u64,
    }
}

fn episode_le_exec(a: &Episode, b: &Episode) -> (r: bool)
    ensures
        r == episode_le(a@, b@),
{
    let sa = ord_val_exec(a.season_number);
    let sb = ord_val_exec(b.season_number);
    if sa < sb {
        true
    } else if sa == sb {
        ord_val_exec(a.episode_number) <= ord_val_exec(b.episode_number)
    } else {
        false
    }
}

/// Insertion of `e` into `sorted`, after every element it is not below:
/// the insertion step of a stable insertion sort.
pub open spec fn spec_insert_episode(sorted: Seq<EpisodeModel>, e: EpisodeModel) -> Seq<
    EpisodeModel,
>
    decreases sorted.len(),
{
    if sorted.len() == 0 {
        seq![e]
    } else if episode_le(sorted.last(), e) {
        sorted.push(e)
    } else {
        spec_insert_episode(sorted.drop_last(), e).push(sorted.last())
    }
}

/// Stable insertion sort of an episode sequence.
pub open spec fn spec_sort_episodes(s: Seq<EpisodeModel>) -> Seq<EpisodeModel>
    decreases s.len(),
{
    if s.len() == 0 {
        Seq::empty()
    } else {
        spec_insert_episode(spec_sort_episodes(s.drop_last()), s.last())
    }
}

/// Ascending (season, episode) order throughout `s`.
pub open spec fn episodes_sorted(s: Seq<EpisodeModel>) -> bool {
    forall|i: int, j: int| 0 <= i < j < s.len() ==> episode_le(#[trigger] s[i], #[trigger] s[j])
}

proof fn lemma_insert_episode_at(s: Seq<EpisodeModel>, e: EpisodeModel, j: int)
    requires
        0 <= j <= s.len(),
        forall|k: int| j <= k < s.len() ==> !episode_le(#[trigger] s[k], e),
        j == 0 || episode_le(s[j - 1], e),
    ensures
        spec_insert_episode(s, e) == s.take(j) + seq![e] + s.skip(j),
    decreases s.len() - j,
{
    if j == s.len() {
        if s.len() == 0 {
            assert(s.take(j) + seq![e] + s.skip(j) =~= seq![e]);
        } else {
            assert(episode_le(s.last(), e));
            assert(s.take(j) + seq![e] + s.skip(j) =~= s.push(e));
        }
    } else {
        assert(!episode_le(s.last(), e));
        lemma_insert_episode_at(s.drop_last(), e, j);
        assert(s.drop_last().take(j) =~= s.take(j));
        assert((s.take(j) + seq![e] + s.drop_last().skip(j)).push(s.last()) =~= s.take(j) + seq![e]
            + s.skip(j));
    }
}

/// Insertion preserves the multiset of episodes.
pub proof fn lemma_insert_episode_multiset(s: Seq<EpisodeModel>, e: EpisodeModel)
    ensures
        spec_insert_episode(s, e).to_multiset() == s.to_multiset().insert(e),
    decreases s.len(),
{
    if s.len() == 0 {
        assert(seq![e] =~= Seq::<EpisodeModel>::empty().push(e));
        assert(s.to_multiset() =~= Multiset::<EpisodeModel>::empty());
        assert(spec_insert_episode(s, e).to_multiset() =~= s.to_multiset().insert(e));
    } else if episode_le(s.last(), e) {
    } else {
        lemma_insert_episode_multiset(s.drop_last(), e);
        assert(s =~= s.drop_last().push(s.last()));
        assert(s.to_multiset() == s.drop_last().push(s.last()).to_multiset());
        assert(spec_insert_episode(s, e).to_multiset() =~= s.to_multiset().insert(e));
    }
}

/// Insertion preserves sortedness.
pub proof fn lemma_insert_episode_sorted(s: Seq<EpisodeModel>, e: EpisodeModel)
    requires
        episodes_sorted(s),
    ensures
        episodes_sorted(spec_insert_episode(s, e)),
    decreases s.len(),
{
    if s.len() == 0 {
    } else if episode_le(s.last(), e) {
        let t = s.push(e);
        assert forall|i: int, j: int| 0 <= i < j < t.len() implies episode_le(
            #[trigger] t[i],
            #[trigger] t[j],
        ) by {
            if j == t.len() - 1 {
                if i < s.len() - 1 {
                    assert(episode_le(s[i], s[s.len() - 1]));
                }
            }
        }
    } else {
        let prev = s.drop_last();
        assert(episodes_sorted(prev));
        lemma_insert_episode_sorted(prev, e);
        lemma_insert_episode_multiset(prev, e);
        let t0 = spec_insert_episode(prev, e);
        let t = t0.push(s.last());
        assert forall|i: int, j: int| 0 <= i < j < t.len() implies episode_le(
            #[trigger] t[i],
            #[trigger] t[j],
        ) by {
            if j == t.len() - 1 {
                assert(t0.contains(t0[i]));
                assert(t0.to_multiset().count(t0[i]) > 0);
                if t0[i] == e {
                    assert(episode_le(e, s.last()));
                } else {
                    assert(prev.to_multiset().count(t0[i]) > 0);
                    assert(prev.contains(t0[i]));
                    let k = choose|k: int| 0 <= k < prev.len() && prev[k] == t0[i];
                    assert(episode_le(s[k], s[s.len() - 1]));
                }
            }
        }
    }
}

/// The sorted sequence is sorted.
pub proof fn lemma_sort_episodes_sorted(s: Seq<EpisodeModel>)
    ensures
        episodes_sorted(spec_sort_episodes(s)),
    decreases s.len(),
{
    if s.len() > 0 {
        lemma_sort_episodes_sorted(s.drop_last());
        lemma_insert_episode_sorted(spec_sort_episodes(s.drop_last()), s.last());
    }
}

/// Sorting preserves the multiset of episodes.
pub proof fn lemma_sort_episodes_multiset(s: Seq<EpisodeModel>)
    ensures
        spec_sort_episodes(s).to_multiset() == s.to_multiset(),
    decreases s.len(),
{
    if s.len() == 0 {
        assert(spec_sort_episodes(s).to_multiset() =~= s.to_multiset());
    } else {
        lemma_sort_episodes_multiset(s.drop_last());
        lemma_insert_episode_multiset(spec_sort_episodes(s.drop_last()), s.last());
        assert(s =~= s.drop_last().push(s.last()));
        assert(s.to_multiset() == s.drop_last().push(s.last()).to_multiset());
    }
}

fn insert_episode(out: &mut Vec<Episode>, e: Episode)
    ensures
        episode_views(final(out)@) == spec_insert_episode(episode_views(old(out)@), e@),
{
    let mut j: usize = out.len();
    while j > 0 && !episode_le_exec(&out[j - 1], &e)
        invariant
            0 <= j <= out@.len(),
            out@ == old(out)@,
            forall|k: int|
                j <= k < out@.len() ==> !episode_le(#[trigger] episode_views(out@)[k], e@),
        decreases j,
    {
        proof {
            assert(episode_views(out@)[j - 1] == out@[j - 1]@);
        }
        j = j - 1;
    }
    proof {
        if j > 0 {
            assert(episode_views(out@)[j - 1] == out@[j - 1]@);
        }
        lemma_insert_episode_at(episode_views(out@), e@, j as int);
    }
    out.insert(j, e);
    proof {
        assert(episode_views(out@) =~= episode_views(old(out)@).take(j as int) + seq![e@]
            + episode_views(old(out)@).skip(j as int));
    }
}

/// Episodes of `v` in ascending (season, episode) order; equal keys keep
/// their source order.
pub fn sort_episode_vec(v: Vec<Episode>) -> (r: Vec<Episode>)
    ensures
        episode_views(r@) == spec_sort_episodes(episode_views(v@)),
{
    let ghost orig = episode_views(v@);
    let mut work = v;
    let mut out: Vec<Episode> = Vec::new();
    proof {
        assert(episode_views(out@) =~= spec_sort_episodes(orig.take(0)));
        assert(episode_views(work@) =~= orig.skip(0));
    }
    while work.len() > 0
        invariant
            work@.len() <= orig.len(),
            episode_views(work@) == orig.skip(orig.len() - work@.len()),
            episode_views(out@) == spec_sort_episodes(orig.take(orig.len() - work@.len())),
        decreases work@.len(),
    {
        let ghost d = orig.len() - work@.len();
        let ghost work0 = work@;
        let e = work.remove(0);
        proof {
            assert(episode_views(work0)[0] == e@);
            assert(e@ == orig[d]);
            assert(work@ =~= work0.skip(1));
            assert(episode_views(work@) =~= episode_views(work0).skip(1));
            assert(episode_views(work@) =~= orig.skip(d + 1));
            assert(orig.take(d + 1).drop_last() =~= orig.take(d));
            assert(orig.take(d + 1).last() == orig[d]);
        }
        insert_episode(&mut out, e);
    }
    proof {
        assert(orig.take(orig.len() - work@.len()) =~= orig);
    }
    out
}

/// `s` with its episodes sorted.
pub open spec fn sorted_series(s: SeriesModel) -> SeriesModel {
    with_episodes(s, spec_sort_episodes(s.episodes))
}

/// What the Filter & Sort stage yields over a joined root list.
pub open spec fn spec_filter_sort(roots: Seq<SeriesModel>, policy: InclusionPolicy) -> Seq<
    SeriesModel,
> {
    roots.filter(included_pred(policy)).map_values(|s: SeriesModel| sorted_series(s))
}

/// Applies the inclusion policy, then sorts each retained series's
/// episodes.
pub fn filter_and_sort(all: Vec<Series>, policy: InclusionPolicy) -> (r: Vec<Series>)
    ensures
        series_views(r@) == spec_filter_sort(series_views(all@), policy),
{
    let kept = filter_series(all, policy);
    let ghost orig = series_views(kept@);
    let mut work = kept;
    let mut out: Vec<Series> = Vec::new();
    proof {
        assert(series_views(out@) =~= orig.take(0).map_values(|s: SeriesModel| sorted_series(s)));
        assert(series_views(work@) =~= orig.skip(0));
    }
    while work.len() > 0
        invariant
            work@.len() <= orig.len(),
            series_views(work@) == orig.skip(orig.len() - work@.len()),
            series_views(out@) == orig.take(orig.len() - work@.len()).map_values(
                |s: SeriesModel| sorted_series(s),
            ),
        decreases work@.len(),
    {
        let ghost d = orig.len() - work@.len();
        let ghost work0 = work@;
        let s = work.remove(0);
        proof {
            assert(series_views(work0)[0] == s@);
            assert(s@ == orig[d]);
            assert(work@ =~= work0.skip(1));
            assert(series_views(work@) =~= series_views(work0).skip(1));
            assert(series_views(work@) =~= orig.skip(d + 1));
        }
        let Series { id, primary_title, original_title, start_year, end_year, genres, rating, episodes } =
            s;
        let sorted_eps = sort_episode_vec(episodes);
        let snew = Series {
            id,
            primary_title,
            original_title,
            start_year,
            end_year,
            genres,
            rating,
            episodes: sorted_eps,
        };
        let ghost out0 = series_views(out@);
        proof {
            assert(snew@ =~= sorted_series(orig[d]));
        }
        out.push(snew);
        proof {
            assert(series_views(out@) =~= out0.push(sorted_series(orig[d])));
            assert(series_views(out@) =~= orig.take(d + 1).map_values(
                |s: SeriesModel| sorted_series(s),
            ));
        }
    }
    proof {
        assert(orig.take(orig.len() - work@.len()) =~= orig);
        assert(series_views(out@) =~= spec_filter_sort(series_views(all@), policy));
    }
    out
}

} // verus!
