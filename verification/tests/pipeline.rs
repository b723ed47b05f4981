use show_pipeline::index::{build_link_index, build_rating_index};
use show_pipeline::join::build_series;
use show_pipeline::model::{InclusionPolicy, PipelineError, Rating};
use show_pipeline::num::Decimal;
use show_pipeline::pipeline::run_pipeline;
use show_pipeline::text::read_records;

const RATINGS_HEADER: &str = "titleId\taverageRating\tnumVotes\n";
const LINKS_HEADER: &str = "titleId\tparentTconst\tseasonNumber\tepisodeNumber\n";
const TITLES_HEADER: &str =
    "tconst\ttitleType\tprimaryTitle\toriginalTitle\tisAdult\tstartYear\tendYear\truntimeMinutes\tgenres\n";

fn ratings_src(body: &str) -> String {
    format!("{}{}", RATINGS_HEADER, body)
}

fn links_src(body: &str) -> String {
    format!("{}{}", LINKS_HEADER, body)
}

fn titles_src(body: &str) -> String {
    format!("{}{}", TITLES_HEADER, body)
}

#[test]
fn rating_index_scenario() {
    let records = read_records(&ratings_src("tt1\t8.5\t120\n"));
    let ix = build_rating_index(&records).unwrap();
    let rt = ix.get(&"tt1".to_string()).copied().unwrap();
    assert_eq!(
        rt,
        Rating { average: Decimal { digits: 85, scale: 1 }, count: 120 }
    );
    assert!(ix.get(&"tt2".to_string()).is_none());
}

#[test]
fn rating_index_last_record_wins() {
    let records = read_records(&ratings_src("tt1\t8.5\t120\ntt1\t7.0\t3\n"));
    let ix = build_rating_index(&records).unwrap();
    let rt = ix.get(&"tt1".to_string()).copied().unwrap();
    assert_eq!(
        rt,
        Rating { average: Decimal { digits: 70, scale: 1 }, count: 3 }
    );
}

#[test]
fn malformed_rating_score_aborts() {
    let records = read_records(&ratings_src("tt1\tabc\t5\n"));
    let err = match build_rating_index(&records) {
        Ok(_) => panic!("a malformed score was accepted"),
        Err(e) => e,
    };
    assert_eq!(err, PipelineError::MalformedRating);
}

#[test]
fn malformed_rating_count_aborts() {
    let out = run_pipeline(
        &ratings_src("tt1\t8.5\tmany\n"),
        &links_src(""),
        &titles_src(""),
        InclusionPolicy::NonEmptyEpisodes,
    );
    assert_eq!(out.unwrap_err(), PipelineError::MalformedRating);
}

#[test]
fn short_rating_record_aborts() {
    let records = read_records(&ratings_src("tt1\t8.5\n"));
    assert!(build_rating_index(&records).is_err());
}

#[test]
fn link_index_permissive_ordinals() {
    let records = read_records(&links_src("e1\ts1\t\\N\t2\n"));
    let ix = build_link_index(&records);
    let link = ix.get(&"e1".to_string()).unwrap();
    assert_eq!(link.parent_id, "s1");
    assert_eq!(link.season_number, None);
    assert_eq!(link.episode_number, Some(2));
}

#[test]
fn link_record_without_parent_is_skipped() {
    let records = read_records(&links_src("onlyid\n"));
    let ix = build_link_index(&records);
    assert!(ix.get(&"onlyid".to_string()).is_none());
}

#[test]
fn series_materialized_in_pass_one() {
    let ratings = build_rating_index(&read_records(&ratings_src("tt1\t8.5\t120\n"))).unwrap();
    let titles = read_records(&titles_src(
        "tt1\ttvSeries\tA\tA\t0\t2001\t\\N\t\\N\tDrama,Comedy\n",
    ));
    let roots = build_series(&titles, &ratings);
    assert_eq!(roots.len(), 1);
    let s = &roots[0];
    assert_eq!(s.id, "tt1");
    assert_eq!(s.primary_title, "A");
    assert_eq!(s.original_title, "A");
    assert_eq!(s.start_year, Some(2001));
    assert_eq!(s.end_year, None);
    assert_eq!(s.genres, vec!["Drama".to_string(), "Comedy".to_string()]);
    assert_eq!(
        s.rating,
        Rating { average: Decimal { digits: 85, scale: 1 }, count: 120 }
    );
    assert!(s.episodes.is_empty());
}

#[test]
fn series_without_rating_is_not_materialized() {
    let ratings = build_rating_index(&read_records(&ratings_src(""))).unwrap();
    let titles = read_records(&titles_src(
        "tt1\ttvSeries\tA\tA\t0\t2001\t\\N\t\\N\tDrama\n",
    ));
    let roots = build_series(&titles, &ratings);
    assert!(roots.is_empty());
}

#[test]
fn non_series_records_are_skipped() {
    let ratings = build_rating_index(&read_records(&ratings_src("m1\t8.5\t120\n"))).unwrap();
    let titles = read_records(&titles_src("m1\tmovie\tM\tM\t0\t2001\t\\N\t90\tDrama\n"));
    let roots = build_series(&titles, &ratings);
    assert!(roots.is_empty());
}

#[test]
fn episode_attached_in_pass_two() {
    let out = run_pipeline(
        &ratings_src("tt1\t8.5\t120\ntt2\t7.1\t40\n"),
        &links_src("tt2\ttt1\t1\t3\n"),
        &titles_src(
            "tt1\ttvSeries\tA\tA\t0\t2001\t\\N\t\\N\tDrama\n\
             tt2\ttvEpisode\tPilot\tPilot\t0\t2001\t\\N\t\\N\tDrama\n",
        ),
        InclusionPolicy::NonEmptyEpisodes,
    )
    .unwrap();
    assert_eq!(out.len(), 1);
    assert_eq!(out[0].id, "tt1");
    assert_eq!(out[0].episodes.len(), 1);
    let ep = &out[0].episodes[0];
    assert_eq!(ep.id, "tt2");
    assert_eq!(ep.primary_title, "Pilot");
    assert_eq!(ep.season_number, Some(1));
    assert_eq!(ep.episode_number, Some(3));
    assert_eq!(
        ep.rating,
        Rating { average: Decimal { digits: 71, scale: 1 }, count: 40 }
    );
}

#[test]
fn episode_with_unresolvable_parent_is_dropped() {
    let out = run_pipeline(
        &ratings_src("tt1\t8.5\t120\ntt2\t7.1\t40\n"),
        &links_src("tt2\ttt9\t1\t3\n"),
        &titles_src(
            "tt1\ttvSeries\tA\tA\t0\t2001\t\\N\t\\N\tDrama\n\
             tt2\ttvEpisode\tPilot\tPilot\t0\t2001\t\\N\t\\N\tDrama\n",
        ),
        InclusionPolicy::NonEmptyEpisodes,
    )
    .unwrap();
    assert!(out.is_empty());
}

#[test]
fn unlinked_episode_is_dropped() {
    let out = run_pipeline(
        &ratings_src("tt1\t8.5\t120\ntt2\t7.1\t40\n"),
        &links_src(""),
        &titles_src(
            "tt1\ttvSeries\tA\tA\t0\t2001\t\\N\t\\N\tDrama\n\
             tt2\ttvEpisode\tPilot\tPilot\t0\t2001\t\\N\t\\N\tDrama\n",
        ),
        InclusionPolicy::NonEmptyEpisodes,
    )
    .unwrap();
    assert!(out.is_empty());
}

#[test]
fn series_without_episodes_is_excluded() {
    let out = run_pipeline(
        &ratings_src("tt1\t8.5\t120\n"),
        &links_src(""),
        &titles_src("tt1\ttvSeries\tA\tA\t0\t2001\t\\N\t\\N\tDrama\n"),
        InclusionPolicy::NonEmptyEpisodes,
    )
    .unwrap();
    assert!(out.is_empty());
}

#[test]
fn episodes_sorted_by_season_then_number_absent_last() {
    let out = run_pipeline(
        &ratings_src("tt1\t8.5\t120\ne1\t7.0\t1\ne2\t7.0\t1\ne3\t7.0\t1\ne4\t7.0\t1\n"),
        &links_src("e3\ttt1\t2\t1\ne1\ttt1\t1\t2\ne2\ttt1\t1\t1\ne4\ttt1\t\\N\t\\N\n"),
        &titles_src(
            "tt1\ttvSeries\tA\tA\t0\t2001\t\\N\t\\N\tDrama\n\
             e3\ttvEpisode\tE3\tE3\t0\t2002\t\\N\t\\N\tDrama\n\
             e1\ttvEpisode\tE1\tE1\t0\t2001\t\\N\t\\N\tDrama\n\
             e2\ttvEpisode\tE2\tE2\t0\t2001\t\\N\t\\N\tDrama\n\
             e4\ttvEpisode\tE4\tE4\t0\t2003\t\\N\t\\N\tDrama\n",
        ),
        InclusionPolicy::NonEmptyEpisodes,
    )
    .unwrap();
    assert_eq!(out.len(), 1);
    let ids: Vec<&str> = out[0].episodes.iter().map(|e| e.id.as_str()).collect();
    assert_eq!(ids, vec!["e2", "e1", "e3", "e4"]);
}

#[test]
fn complete_policy_excludes_partial_ordinals() {
    let ratings = ratings_src("tt1\t8.5\t120\ne1\t7.0\t1\ne4\t7.0\t1\n");
    let titles = titles_src(
        "tt1\ttvSeries\tA\tA\t0\t2001\t\\N\t\\N\tDrama\n\
         e1\ttvEpisode\tE1\tE1\t0\t2001\t\\N\t\\N\tDrama\n\
         e4\ttvEpisode\tE4\tE4\t0\t2003\t\\N\t\\N\tDrama\n",
    );
    let links = links_src("e1\ttt1\t1\t1\ne4\ttt1\t\\N\t\\N\n");
    let strict = run_pipeline(&ratings, &links, &titles, InclusionPolicy::CompleteEpisodeData)
        .unwrap();
    assert!(strict.is_empty());
    let lax = run_pipeline(&ratings, &links, &titles, InclusionPolicy::NonEmptyEpisodes).unwrap();
    assert_eq!(lax.len(), 1);
    assert_eq!(lax[0].episodes.len(), 2);
}

#[test]
fn complete_policy_keeps_total_data() {
    let out = run_pipeline(
        &ratings_src("tt1\t8.5\t120\ne1\t7.0\t1\n"),
        &links_src("e1\ttt1\t1\t1\n"),
        &titles_src(
            "tt1\ttvSeries\tA\tA\t0\t2001\t\\N\t\\N\tDrama\n\
             e1\ttvEpisode\tE1\tE1\t0\t2001\t\\N\t\\N\tDrama\n",
        ),
        InclusionPolicy::CompleteEpisodeData,
    )
    .unwrap();
    assert_eq!(out.len(), 1);
    assert!(out[0].episodes.iter().all(|e| {
        e.season_number.is_some() && e.episode_number.is_some()
    }));
}

#[test]
fn pipeline_is_deterministic_over_identical_inputs() {
    let ratings = ratings_src("tt1\t8.5\t120\ne1\t7.0\t1\ne2\t6.0\t2\n");
    let links = links_src("e1\ttt1\t1\t2\ne2\ttt1\t1\t1\n");
    let titles = titles_src(
        "tt1\ttvSeries\tA\tA\t0\t2001\t\\N\t\\N\tDrama,Comedy\n\
         e1\ttvEpisode\tE1\tE1\t0\t2001\t\\N\t\\N\tDrama\n\
         e2\ttvEpisode\tE2\tE2\t0\t2001\t\\N\t\\N\tDrama\n",
    );
    let a = run_pipeline(&ratings, &links, &titles, InclusionPolicy::NonEmptyEpisodes).unwrap();
    let b = run_pipeline(&ratings, &links, &titles, InclusionPolicy::NonEmptyEpisodes).unwrap();
    assert_eq!(a, b);
}

#[test]
fn every_episode_belongs_to_its_linked_parent() {
    let links_text = links_src("e1\ttt1\t1\t1\ne2\ttt2\t1\t1\ne3\ttt1\t1\t2\n");
    let out = run_pipeline(
        &ratings_src("tt1\t8.5\t120\ntt2\t6.5\t50\ne1\t7.0\t1\ne2\t7.0\t1\ne3\t7.0\t1\n"),
        &links_text,
        &titles_src(
            "tt1\ttvSeries\tA\tA\t0\t2001\t\\N\t\\N\tDrama\n\
             tt2\ttvSeries\tB\tB\t0\t2002\t\\N\t\\N\tComedy\n\
             e1\ttvEpisode\tE1\tE1\t0\t2001\t\\N\t\\N\tDrama\n\
             e2\ttvEpisode\tE2\tE2\t0\t2002\t\\N\t\\N\tComedy\n\
             e3\ttvEpisode\tE3\tE3\t0\t2001\t\\N\t\\N\tDrama\n",
        ),
        InclusionPolicy::NonEmptyEpisodes,
    )
    .unwrap();
    assert_eq!(out.len(), 2);
    let link_ix = build_link_index(&read_records(&links_text));
    for series in &out {
        for ep in &series.episodes {
            let link = link_ix.get(&ep.id).unwrap();
            assert_eq!(link.parent_id, series.id);
        }
    }
    assert_eq!(out[0].episodes.len(), 2);
    assert_eq!(out[1].episodes.len(), 1);
}
