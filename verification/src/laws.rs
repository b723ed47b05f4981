//! Laws of the pipeline output, proved from the stage specifications.
//!
//! Each proof function here states a property of every value the
//! pipeline can yield: episode-to-parent linkage, ordinal presence under
//! the strict policy, episode ordering, and provenance of every output
//! series from a series-typed title record.

use crate::filter_sort::{
    episodes_sorted, included_pred, lemma_filter_member, lemma_sort_episodes_multiset,
    lemma_sort_episodes_sorted, sorted_series, spec_filter_sort, spec_included,
};
use crate::index::{spec_link_index, spec_rating_index};
use crate::join::{
    episode_of_record, episode_typed, lemma_find_series_ensures, series_typed, spec_find_series,
    spec_pass1, spec_pass2,
};
use crate::model::{EpisodeModel, InclusionPolicy, LinkModel, Rating, SeriesModel};
use crate::pipeline::spec_pipeline;
use crate::text::spec_records;
use vstd::prelude::*;

verus! {

broadcast use {vstd::seq_lib::group_to_multiset_ensures, vstd::seq_lib::group_filter_ensures};

/// Every episode of every root is linked, through `links`, to exactly
/// the root that owns it.
pub open spec fn episodes_linked(roots: Seq<SeriesModel>, links: Map<Seq<char>, LinkModel>) -> bool {
    forall|i: int, j: int|
        0 <= i < roots.len() && 0 <= j < roots[i].episodes.len() ==> links.contains_key(
            (#[trigger] roots[i].episodes[j]).id,
        ) && links[roots[i].episodes[j].id].parent_id == roots[i].id
}

proof fn lemma_pass1_no_episodes(records: Seq<Seq<Seq<char>>>, ratings: Map<Seq<char>, Rating>)
    ensures
        forall|i: int|
            0 <= i < spec_pass1(records, ratings).len() ==> (#[trigger] spec_pass1(
                records,
                ratings,
            )[i]).episodes == Seq::<EpisodeModel>::empty(),
    decreases records.len(),
{
    if records.len() > 0 {
        lemma_pass1_no_episodes(records.drop_last(), ratings);
        let prev = spec_pass1(records.drop_last(), ratings);
        let cur = spec_pass1(records, ratings);
        let rec = records.last();
        if series_typed(rec) && rec.len() >= 4 && ratings.contains_key(rec[0]) {
            lemma_find_series_ensures(prev, rec[0]);
        }
        assert forall|i: int| 0 <= i < cur.len() implies (#[trigger] cur[i]).episodes == Seq::<
            EpisodeModel,
        >::empty() by {
            if i < prev.len() {
                assert(prev[i].episodes == Seq::<EpisodeModel>::empty());
            }
        }
    }
}

proof fn lemma_pass2_linked(
    records: Seq<Seq<Seq<char>>>,
    roots: Seq<SeriesModel>,
    links: Map<Seq<char>, LinkModel>,
    ratings: Map<Seq<char>, Rating>,
)
    requires
        episodes_linked(roots, links),
    ensures
        episodes_linked(spec_pass2(records, roots, links, ratings), links),
    decreases records.len(),
{
    if records.len() > 0 {
        lemma_pass2_linked(records.drop_last(), roots, links, ratings);
        let prev = spec_pass2(records.drop_last(), roots, links, ratings);
        let cur = spec_pass2(records, roots, links, ratings);
        let rec = records.last();
        if episode_typed(rec) && rec.len() >= 4 && links.contains_key(rec[0])
            && ratings.contains_key(rec[0]) {
            let link = links[rec[0]];
            let j = spec_find_series(prev, link.parent_id);
            lemma_find_series_ensures(prev, link.parent_id);
            if j != -1 {
                let e = episode_of_record(rec, link, ratings[rec[0]]);
                assert forall|i: int, j2: int|
                    0 <= i < cur.len() && 0 <= j2 < cur[i].episodes.len() implies links.contains_key(
                    (#[trigger] cur[i].episodes[j2]).id,
                ) && links[cur[i].episodes[j2].id].parent_id == cur[i].id by {
                    if i == j {
                        if j2 < prev[i].episodes.len() {
                            assert(cur[i].episodes[j2] == prev[i].episodes[j2]);
                        } else {
                            assert(cur[i].episodes[j2] == e);
                        }
                    } else {
                        assert(cur[i].episodes[j2] == prev[i].episodes[j2]);
                    }
                }
            }
        }
    }
}

/// The output of the pipeline, when there is one; its parts are named by
/// the lemmas below.
spec fn pipeline_stages(
    ratings_text: Seq<char>,
    links_text: Seq<char>,
    titles_text: Seq<char>,
) -> (Map<Seq<char>, Rating>, Map<Seq<char>, LinkModel>, Seq<SeriesModel>)
    recommends
        spec_rating_index(spec_records(ratings_text)) is Some,
{
    let ratings = spec_rating_index(spec_records(ratings_text))->Some_0;
    let links = spec_link_index(spec_records(links_text));
    let titles = spec_records(titles_text);
    let joined = spec_pass2(titles, spec_pass1(titles, ratings), links, ratings);
    (ratings, links, joined)
}

proof fn lemma_pipeline_shape(
    ratings_text: Seq<char>,
    links_text: Seq<char>,
    titles_text: Seq<char>,
    policy: InclusionPolicy,
    out: Seq<SeriesModel>,
    i: int,
)
    requires
        spec_pipeline(ratings_text, links_text, titles_text, policy) == Some(out),
        0 <= i < out.len(),
    ensures
        ({
            let (ratings, links, joined) = pipeline_stages(ratings_text, links_text, titles_text);
            let kept = joined.filter(included_pred(policy));
            &&& kept.len() == out.len()
            &&& out[i] == sorted_series(kept[i])
            &&& spec_included(kept[i], policy)
            &&& exists|k: int| 0 <= k < joined.len() && joined[k] == kept[i]
        }),
{
    let (ratings, links, joined) = pipeline_stages(ratings_text, links_text, titles_text);
    let kept = joined.filter(included_pred(policy));
    assert(out == spec_filter_sort(joined, policy));
    assert(out[i] == sorted_series(kept[i]));
    assert(included_pred(policy)(kept[i]));
    lemma_filter_member(joined, included_pred(policy), i);
}

/// Every episode of every output series belongs, through the Episode
/// Link Index, to exactly the series that owns it: the index has the
/// episode's identifier, and maps it to the owner's identifier.
pub proof fn lemma_output_episode_parent(
    ratings_text: Seq<char>,
    links_text: Seq<char>,
    titles_text: Seq<char>,
    policy: InclusionPolicy,
    out: Seq<SeriesModel>,
    i: int,
    j: int,
)
    requires
        spec_pipeline(ratings_text, links_text, titles_text, policy) == Some(out),
        0 <= i < out.len(),
        0 <= j < out[i].episodes.len(),
    ensures
        spec_link_index(spec_records(links_text)).contains_key(out[i].episodes[j].id),
        spec_link_index(spec_records(links_text))[out[i].episodes[j].id].parent_id == out[i].id,
{
    let (ratings, links, joined) = pipeline_stages(ratings_text, links_text, titles_text);
    let titles = spec_records(titles_text);
    let kept = joined.filter(included_pred(policy));
    lemma_pipeline_shape(ratings_text, links_text, titles_text, policy, out, i);
    lemma_pass1_no_episodes(titles, ratings);
    assert(episodes_linked(spec_pass1(titles, ratings), links)) by {
        assert forall|a: int, b: int|
            0 <= a < spec_pass1(titles, ratings).len() && 0 <= b < spec_pass1(
                titles,
                ratings,
            )[a].episodes.len() implies links.contains_key(
            (#[trigger] spec_pass1(titles, ratings)[a].episodes[b]).id,
        ) && links[spec_pass1(titles, ratings)[a].episodes[b].id].parent_id == spec_pass1(
            titles,
            ratings,
        )[a].id by {
            assert(spec_pass1(titles, ratings)[a].episodes == Seq::<EpisodeModel>::empty());
        }
    }
    lemma_pass2_linked(titles, spec_pass1(titles, ratings), links, ratings);
    let k = choose|k: int| 0 <= k < joined.len() && joined[k] == kept[i];
    let ep = out[i].episodes[j];
    lemma_sort_episodes_multiset(kept[i].episodes);
    assert(out[i].episodes.contains(ep));
    assert(kept[i].episodes.to_multiset().count(ep) > 0);
    assert(kept[i].episodes.contains(ep));
    let j2 = choose|j2: int| 0 <= j2 < kept[i].episodes.len() && kept[i].episodes[j2] == ep;
    assert(joined[k].episodes[j2] == ep);
    assert(links.contains_key(ep.id) && links[ep.id].parent_id == joined[k].id);
    assert(out[i].id == kept[i].id);
}

/// Under the strict inclusion policy every episode of every output
/// series carries both ordinals; its rating is present by construction
/// (the `rating` field of an episode is never absent).
pub proof fn lemma_complete_policy_total(
    ratings_text: Seq<char>,
    links_text: Seq<char>,
    titles_text: Seq<char>,
    out: Seq<SeriesModel>,
    i: int,
    j: int,
)
    requires
        spec_pipeline(
            ratings_text,
            links_text,
            titles_text,
            InclusionPolicy::CompleteEpisodeData,
        ) == Some(out),
        0 <= i < out.len(),
        0 <= j < out[i].episodes.len(),
    ensures
        out[i].episodes[j].season_number is Some,
        out[i].episodes[j].episode_number is Some,
{
    let policy = InclusionPolicy::CompleteEpisodeData;
    let (ratings, links, joined) = pipeline_stages(ratings_text, links_text, titles_text);
    let kept = joined.filter(included_pred(policy));
    lemma_pipeline_shape(ratings_text, links_text, titles_text, policy, out, i);
    let ep = out[i].episodes[j];
    lemma_sort_episodes_multiset(kept[i].episodes);
    assert(out[i].episodes.contains(ep));
    assert(kept[i].episodes.to_multiset().count(ep) > 0);
    assert(kept[i].episodes.contains(ep));
    let j2 = choose|j2: int| 0 <= j2 < kept[i].episodes.len() && kept[i].episodes[j2] == ep;
    assert(kept[i].episodes[j2].season_number is Some);
}

/// Within every output series the episodes ascend by (season, episode):
/// for all positions `i < j` the pair at `i` is at most the pair at `j`.
pub proof fn lemma_output_sorted(
    ratings_text: Seq<char>,
    links_text: Seq<char>,
    titles_text: Seq<char>,
    policy: InclusionPolicy,
    out: Seq<SeriesModel>,
    i: int,
)
    requires
        spec_pipeline(ratings_text, links_text, titles_text, policy) == Some(out),
        0 <= i < out.len(),
    ensures
        episodes_sorted(out[i].episodes),
{
    let (ratings, links, joined) = pipeline_stages(ratings_text, links_text, titles_text);
    let kept = joined.filter(included_pred(policy));
    lemma_pipeline_shape(ratings_text, links_text, titles_text, policy, out, i);
    lemma_sort_episodes_sorted(kept[i].episodes);
}

/// `id` is the identifier of some series-typed record of `records`.
pub open spec fn id_from_series_record(records: Seq<Seq<Seq<char>>>, id: Seq<char>) -> bool {
    exists|k: int| 0 <= k < records.len() && series_typed(#[trigger] records[k]) && records[k][0]
        == id
}

proof fn lemma_id_from_extend(records: Seq<Seq<Seq<char>>>, id: Seq<char>)
    requires
        records.len() > 0,
        id_from_series_record(records.drop_last(), id),
    ensures
        id_from_series_record(records, id),
{
    let k = choose|k: int|
        0 <= k < records.drop_last().len() && series_typed(#[trigger] records.drop_last()[k])
            && records.drop_last()[k][0] == id;
    assert(records[k] == records.drop_last()[k]);
    assert(series_typed(records[k]) && records[k][0] == id);
}

proof fn lemma_pass1_ids_from(records: Seq<Seq<Seq<char>>>, ratings: Map<Seq<char>, Rating>)
    ensures
        forall|i: int|
            0 <= i < spec_pass1(records, ratings).len() ==> id_from_series_record(
                records,
                (#[trigger] spec_pass1(records, ratings)[i]).id,
            ),
    decreases records.len(),
{
    if records.len() > 0 {
        lemma_pass1_ids_from(records.drop_last(), ratings);
        let prev = spec_pass1(records.drop_last(), ratings);
        let cur = spec_pass1(records, ratings);
        let rec = records.last();
        if series_typed(rec) && rec.len() >= 4 && ratings.contains_key(rec[0]) {
            lemma_find_series_ensures(prev, rec[0]);
        }
        assert forall|i: int| 0 <= i < cur.len() implies id_from_series_record(
            records,
            (#[trigger] cur[i]).id,
        ) by {
            if series_typed(rec) && rec.len() >= 4 && ratings.contains_key(rec[0]) && cur[i].id
                == rec[0] {
                assert(series_typed(records[records.len() - 1]) && records[records.len() - 1][0]
                    == cur[i].id);
            } else {
                assert(0 <= i < prev.len() && cur[i] == prev[i]);
                lemma_id_from_extend(records, cur[i].id);
            }
        }
    }
}

proof fn lemma_pass2_keeps_ids(
    records: Seq<Seq<Seq<char>>>,
    roots: Seq<SeriesModel>,
    links: Map<Seq<char>, LinkModel>,
    ratings: Map<Seq<char>, Rating>,
)
    ensures
        spec_pass2(records, roots, links, ratings).len() == roots.len(),
        forall|i: int|
            0 <= i < roots.len() ==> (#[trigger] spec_pass2(records, roots, links, ratings)[i]).id
                == roots[i].id,
    decreases records.len(),
{
    if records.len() > 0 {
        lemma_pass2_keeps_ids(records.drop_last(), roots, links, ratings);
        let prev = spec_pass2(records.drop_last(), roots, links, ratings);
        let rec = records.last();
        if episode_typed(rec) && rec.len() >= 4 && links.contains_key(rec[0])
            && ratings.contains_key(rec[0]) {
            lemma_find_series_ensures(prev, links[rec[0]].parent_id);
        }
    }
}

/// No series appears in the output whose identifier was absent from the
/// title source's series-typed records.
pub proof fn lemma_output_from_title_source(
    ratings_text: Seq<char>,
    links_text: Seq<char>,
    titles_text: Seq<char>,
    policy: InclusionPolicy,
    out: Seq<SeriesModel>,
    i: int,
)
    requires
        spec_pipeline(ratings_text, links_text, titles_text, policy) == Some(out),
        0 <= i < out.len(),
    ensures
        id_from_series_record(spec_records(titles_text), out[i].id),
{
    let (ratings, links, joined) = pipeline_stages(ratings_text, links_text, titles_text);
    let titles = spec_records(titles_text);
    let kept = joined.filter(included_pred(policy));
    lemma_pipeline_shape(ratings_text, links_text, titles_text, policy, out, i);
    let k = choose|k: int| 0 <= k < joined.len() && joined[k] == kept[i];
    lemma_pass2_keeps_ids(titles, spec_pass1(titles, ratings), links, ratings);
    lemma_pass1_ids_from(titles, ratings);
    assert(joined[k].id == spec_pass1(titles, ratings)[k].id);
    assert(out[i].id == kept[i].id);
}

} // verus!
