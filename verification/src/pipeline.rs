//! The whole transform, one call: indexes, two-pass join, filter, sort.

use crate::filter_sort::{filter_and_sort, spec_filter_sort};
use crate::index::{build_link_index, build_rating_index, spec_link_index, spec_rating_index};
use crate::join::{attach_episodes, build_series, spec_pass1, spec_pass2};
use crate::model::{InclusionPolicy, PipelineError, Series, SeriesModel, series_views};
use crate::text::{read_records, spec_records};
use vstd::prelude::*;

verus! {

/// What the pipeline yields over the three source texts: `None` exactly
/// when some ratings record is malformed, otherwise the filtered,
/// episode-sorted series list in join order.
pub open spec fn spec_pipeline(
    ratings_text: Seq<char>,
    links_text: Seq<char>,
    titles_text: Seq<char>,
    policy: InclusionPolicy,
) -> Option<Seq<SeriesModel>> {
    match spec_rating_index(spec_records(ratings_text)) {
        None => None,
        Some(ratings) => {
            let links = spec_link_index(spec_records(links_text));
            let titles = spec_records(titles_text);
            let joined = spec_pass2(titles, spec_pass1(titles, ratings), links, ratings);
            Some(spec_filter_sort(joined, policy))
        },
    }
}

/// Runs the whole batch transform over the three raw source texts.
pub fn run_pipeline(
    ratings_text: &str,
    links_text: &str,
    titles_text: &str,
    policy: InclusionPolicy,
) -> (r: Result<Vec<Series>, PipelineError>)
    ensures
        match r {
            Ok(out) => spec_pipeline(ratings_text@, links_text@, titles_text@, policy) == Some(
                series_views(out@),
            ),
            Err(e) => spec_pipeline(ratings_text@, links_text@, titles_text@, policy) is None && e
                == PipelineError::MalformedRating,
        },
{
    let rating_records = read_records(ratings_text);
    let link_records = read_records(links_text);
    let title_records = read_records(titles_text);
    let ratings = match build_rating_index(&rating_records) {
        Ok(ix) => ix,
        Err(e) => {
            return Err(e);
        },
    };
    let links = build_link_index(&link_records);
    let mut roots = build_series(&title_records, &ratings);
    attach_episodes(&mut roots, &title_records, &links, &ratings);
    Ok(filter_and_sort(roots, policy))
}

/// The transform is deterministic: over identical inputs it yields the
/// identical output sequence, so re-running it reproduces the same
/// logical output set.
pub proof fn lemma_pipeline_deterministic(
    ratings_a: Seq<char>,
    links_a: Seq<char>,
    titles_a: Seq<char>,
    ratings_b: Seq<char>,
    links_b: Seq<char>,
    titles_b: Seq<char>,
    policy: InclusionPolicy,
)
    requires
        ratings_a == ratings_b,
        links_a == links_b,
        titles_a == titles_b,
    ensures
        spec_pipeline(ratings_a, links_a, titles_a, policy) == spec_pipeline(
            ratings_b,
            links_b,
            titles_b,
            policy,
        ),
{
}

} // verus!
