//! The Title Join Engine.
//!
//! Pass 1 walks the title source and materializes a series root for each
//! series-typed record that has a rating (rating-required policy); a
//! later record for the same identifier overwrites the earlier root in
//! place. Pass 2 walks the same records again and, for each
//! episode-typed record that has a link, a resolvable parent series and a
//! rating, appends an episode to that parent, in source order.
//!
//! A record needs its identifier, type tag and both title fields to take
//! part; years are parsed permissively and the genre field, when absent,
//! yields no genres.

use crate::model::{
    Episode, EpisodeLink, EpisodeModel, LinkModel, Rating, Series, SeriesModel, series_views,
    with_episodes,
};
use crate::num::{parse_u32_digits, spec_parse_u32};
use crate::strmap::StrMap;
use crate::text::{spec_split, split_str};
use vstd::prelude::*;

verus! {

/// A record whose type tag marks a series.
pub open spec fn series_typed(rec: Seq<Seq<char>>) -> bool {
    rec.len() >= 2 && rec[1] == "tvSeries"@
}

/// A record whose type tag marks an episode.
pub open spec fn episode_typed(rec: Seq<Seq<char>>) -> bool {
    rec.len() >= 2 && rec[1] == "tvEpisode"@
}

/// The series materialized from one title record; no episodes yet.
pub open spec fn series_of_record(rec: Seq<Seq<char>>, rating: Rating) -> SeriesModel {
    SeriesModel {
        id: rec[0],
        primary_title: rec[2],
        original_title: rec[3],
        start_year: if rec.len() > 5 {
            spec_parse_u32(rec[5])
        } else {
            None
        },
        end_year: if rec.len() > 6 {
            spec_parse_u32(rec[6])
        } else {
            None
        },
        genres: if rec.len() > 8 {
            spec_split(rec[8], ',')
        } else {
            Seq::empty()
        },
        rating: rating,
        episodes: Seq::empty(),
    }
}

/// The episode constructed from one title record plus its link and
/// rating.
pub open spec fn episode_of_record(
    rec: Seq<Seq<char>>,
    link: LinkModel,
    rating: Rating,
) -> EpisodeModel {
    EpisodeModel {
        id: rec[0],
        primary_title: rec[2],
        original_title: rec[3],
        start_year: if rec.len() > 5 {
            spec_parse_u32(rec[5])
        } else {
            None
        },
        end_year: if rec.len() > 6 {
            spec_parse_u32(rec[6])
        } else {
            None
        },
        season_number: link.season_number,
        episode_number: link.episode_number,
        rating: rating,
    }
}

/// The position of the first series with identifier `id`, or -1.
pub open spec fn spec_find_series(roots: Seq<SeriesModel>, id: Seq<char>) -> int
    decreases roots.len(),
{
    if roots.len() == 0 {
        -1
    } else if roots[0].id == id {
        0
    } else {
        let r = spec_find_series(roots.skip(1), id);
        if r == -1 {
            -1
        } else {
            r + 1
        }
    }
}

pub proof fn lemma_find_series_ensures(roots: Seq<SeriesModel>, id: Seq<char>)
    ensures
        -1 <= spec_find_series(roots, id) < roots.len(),
        spec_find_series(roots, id) == -1 ==> forall|k: int|
            0 <= k < roots.len() ==> roots[k].id != id,
        spec_find_series(roots, id) != -1 ==> roots[spec_find_series(roots, id)].id == id && (
        forall|k: int| 0 <= k < spec_find_series(roots, id) ==> roots[k].id != id),
    decreases roots.len(),
{
    if roots.len() == 0 {
    } else if roots[0].id == id {
    } else {
        let rest = roots.skip(1);
        lemma_find_series_ensures(rest, id);
        let r = spec_find_series(rest, id);
        if r == -1 {
            assert forall|k: int| 0 <= k < roots.len() implies roots[k].id != id by {
                if k > 0 {
                    assert(rest[k - 1] == roots[k]);
                }
            }
        } else {
            assert(roots[r + 1] == rest[r]);
            assert forall|k: int| 0 <= k < r + 1 implies roots[k].id != id by {
                if k > 0 {
                    assert(rest[k - 1] == roots[k]);
                }
            }
        }
    }
}

/// Finds the series with identifier `id` in the root list.
pub fn find_series(roots: &Vec<Series>, id: &String) -> (r: Option<usize>)
    ensures
        match r {
            Some(j) => spec_find_series(series_views(roots@), id@) == j,
            None => spec_find_series(series_views(roots@), id@) == -1,
        },
{
    proof {
        lemma_find_series_ensures(series_views(roots@), id@);
    }
    let mut j: usize = 0;
    while j < roots.len()
        invariant
            0 <= j <= roots@.len(),
            forall|k: int| 0 <= k < j ==> series_views(roots@)[k].id != id@,
        decreases roots@.len() - j,
    {
        proof {
            assert(series_views(roots@)[j as int] == roots@[j as int]@);
        }
        if roots[j].id == *id {
            proof {
                lemma_find_series_ensures(series_views(roots@), id@);
                let vs = series_views(roots@);
                let r = spec_find_series(vs, id@);
                if r == -1 {
                    assert(vs[j as int].id != id@);
                } else if r < j as int {
                    assert(vs[r].id != id@);
                } else if r > j as int {
                    assert(vs[j as int].id != id@);
                }
            }
            return Some(j);
        }
        j = j + 1;
    }
    None
}

/// Pass 1, one record: materialize or overwrite a series root.
pub open spec fn spec_pass1_step(
    roots: Seq<SeriesModel>,
    rec: Seq<Seq<char>>,
    ratings: Map<Seq<char>, Rating>,
) -> Seq<SeriesModel> {
    if series_typed(rec) && rec.len() >= 4 && ratings.contains_key(rec[0]) {
        let s = series_of_record(rec, ratings[rec[0]]);
        let i = spec_find_series(roots, rec[0]);
        if i == -1 {
            roots.push(s)
        } else {
            roots.update(i, s)
        }
    } else {
        roots
    }
}

/// Pass 1 over a record sequence.
pub open spec fn spec_pass1(
    records: Seq<Seq<Seq<char>>>,
    ratings: Map<Seq<char>, Rating>,
) -> Seq<SeriesModel>
    decreases records.len(),
{
    if records.len() == 0 {
        Seq::empty()
    } else {
        spec_pass1_step(spec_pass1(records.drop_last(), ratings), records.last(), ratings)
    }
}

/// Pass 2, one record: attach an episode to its parent series.
pub open spec fn spec_pass2_step(
    roots: Seq<SeriesModel>,
    rec: Seq<Seq<char>>,
    links: Map<Seq<char>, LinkModel>,
    ratings: Map<Seq<char>, Rating>,
) -> Seq<SeriesModel> {
    if episode_typed(rec) && rec.len() >= 4 && links.contains_key(rec[0]) && ratings.contains_key(
        rec[0],
    ) {
        let link = links[rec[0]];
        let j = spec_find_series(roots, link.parent_id);
        if j == -1 {
            roots
        } else {
            let e = episode_of_record(rec, link, ratings[rec[0]]);
            roots.update(j, with_episodes(roots[j], roots[j].episodes.push(e)))
        }
    } else {
        roots
    }
}

/// Pass 2 over a record sequence.
pub open spec fn spec_pass2(
    records: Seq<Seq<Seq<char>>>,
    roots: Seq<SeriesModel>,
    links: Map<Seq<char>, LinkModel>,
    ratings: Map<Seq<char>, Rating>,
) -> Seq<SeriesModel>
    decreases records.len(),
{
    if records.len() == 0 {
        roots
    } else {
        spec_pass2_step(
            spec_pass2(records.drop_last(), roots, links, ratings),
            records.last(),
            links,
            ratings,
        )
    }
}

/// Pass 1: materializes the series roots of the title source.
pub fn build_series(titles: &Vec<Vec<String>>, ratings: &StrMap<Rating>) -> (r: Vec<Series>)
    requires
        ratings.wf(),
    ensures
        series_views(r@) == spec_pass1(titles.deep_view(), ratings@),
{
    let ghost tdv = titles.deep_view();
    let series_tag = String::from_str("tvSeries");
    let mut roots: Vec<Series> = Vec::new();
    let mut i: usize = 0;
    proof {
        assert(tdv.take(0) =~= Seq::<Seq<Seq<char>>>::empty());
        assert(series_views(roots@) =~= spec_pass1(tdv.take(0), ratings@));
    }
    while i < titles.len()
        invariant
            0 <= i <= titles@.len(),
            tdv == titles.deep_view(),
            ratings.wf(),
            series_tag@ == "tvSeries"@,
            series_views(roots@) == spec_pass1(tdv.take(i as int), ratings@),
        decreases titles@.len() - i,
    {
        let rec = &titles[i];
        let ghost rm = tdv[i as int];
        let ghost views0 = series_views(roots@);
        proof {
            assert(rec.deep_view() == rm);
            assert(tdv.take(i + 1).drop_last() =~= tdv.take(i as int));
            assert(tdv.take(i + 1).last() == rm);
            if rec@.len() >= 2 {
                assert(rec@[1]@ == rm[1]);
            }
        }
        if rec.len() >= 4 && rec[1] == series_tag {
            proof {
                assert(rec@[0]@ == rm[0]);
            }
            match ratings.get(&rec[0]) {
                Some(rt) => {
                    proof {
                        assert(rec@[2]@ == rm[2]);
                        assert(rec@[3]@ == rm[3]);
                        if rec@.len() > 5 {
                            assert(rec@[5]@ == rm[5]);
                        }
                        if rec@.len() > 6 {
                            assert(rec@[6]@ == rm[6]);
                        }
                        if rec@.len() > 8 {
                            assert(rec@[8]@ == rm[8]);
                        }
                    }
                    let snew = Series {
                        id: rec[0].clone(),
                        primary_title: rec[2].clone(),
                        original_title: rec[3].clone(),
                        start_year: if rec.len() > 5 {
                            parse_u32_digits(rec[5].as_str())
                        } else {
                            None
                        },
                        end_year: if rec.len() > 6 {
                            parse_u32_digits(rec[6].as_str())
                        } else {
                            None
                        },
                        genres: if rec.len() > 8 {
                            split_str(rec[8].as_str(), ',')
                        } else {
                            Vec::new()
                        },
                        rating: *rt,
                        episodes: Vec::new(),
                    };
                    proof {
                        assert(snew@.episodes =~= Seq::<EpisodeModel>::empty());
                        assert(snew@.genres =~= series_of_record(rm, ratings@[rm[0]]).genres);
                        assert(snew@ =~= series_of_record(rm, ratings@[rm[0]]));
                    }
                    let found = find_series(&roots, &rec[0]);
                    match found {
                        Some(j) => {
                            proof {
                                lemma_find_series_ensures(views0, rm[0]);
                            }
                            roots.remove(j);
                            roots.insert(j, snew);
                            proof {
                                assert(series_views(roots@) =~= views0.update(j as int, snew@));
                            }
                        },
                        None => {
                            roots.push(snew);
                            proof {
                                assert(series_views(roots@) =~= views0.push(snew@));
                            }
                        },
                    }
                },
                None => {},
            }
        }
        proof {
            assert(series_views(roots@) == spec_pass1(tdv.take(i + 1), ratings@));
        }
        i = i + 1;
    }
    proof {
        assert(tdv.take(i as int) =~= tdv);
    }
    roots
}

/// Pass 2: attaches episodes of the title source to their parent series,
/// in source order.
pub fn attach_episodes(
    roots: &mut Vec<Series>,
    titles: &Vec<Vec<String>>,
    links: &StrMap<EpisodeLink>,
    ratings: &StrMap<Rating>,
)
    requires
        links.wf(),
        ratings.wf(),
    ensures
        series_views(final(roots)@) == spec_pass2(
            titles.deep_view(),
            series_views(old(roots)@),
            links@,
            ratings@,
        ),
{
    let ghost tdv = titles.deep_view();
    let ghost roots0 = series_views(old(roots)@);
    let episode_tag = String::from_str("tvEpisode");
    let mut i: usize = 0;
    proof {
        assert(tdv.take(0) =~= Seq::<Seq<Seq<char>>>::empty());
    }
    while i < titles.len()
        invariant
            0 <= i <= titles@.len(),
            tdv == titles.deep_view(),
            links.wf(),
            ratings.wf(),
            episode_tag@ == "tvEpisode"@,
            series_views(roots@) == spec_pass2(tdv.take(i as int), roots0, links@, ratings@),
        decreases titles@.len() - i,
    {
        let rec = &titles[i];
        let ghost rm = tdv[i as int];
        let ghost views0 = series_views(roots@);
        proof {
            assert(rec.deep_view() == rm);
            assert(tdv.take(i + 1).drop_last() =~= tdv.take(i as int));
            assert(tdv.take(i + 1).last() == rm);
            if rec@.len() >= 2 {
                assert(rec@[1]@ == rm[1]);
            }
        }
        if rec.len() >= 4 && rec[1] == episode_tag {
            proof {
                assert(rec@[0]@ == rm[0]);
            }
            match links.get(&rec[0]) {
                Some(link) => {
                    let found = find_series(roots, &link.parent_id);
                    match found {
                        Some(j) => {
                            proof {
                                lemma_find_series_ensures(views0, link@.parent_id);
                            }
                            match ratings.get(&rec[0]) {
                                Some(rt) => {
                                    proof {
                                        assert(rec@[2]@ == rm[2]);
                                        assert(rec@[3]@ == rm[3]);
                                        if rec@.len() > 5 {
                                            assert(rec@[5]@ == rm[5]);
                                        }
                                        if rec@.len() > 6 {
                                            assert(rec@[6]@ == rm[6]);
                                        }
                                    }
                                    let ep = Episode {
                                        id: rec[0].clone(),
                                        primary_title: rec[2].clone(),
                                        original_title: rec[3].clone(),
                                        start_year: if rec.len() > 5 {
                                            parse_u32_digits(rec[5].as_str())
                                        } else {
                                            None
                                        },
                                        end_year: if rec.len() > 6 {
                                            parse_u32_digits(rec[6].as_str())
                                        } else {
                                            None
                                        },
                                        season_number: link.season_number,
                                        episode_number: link.episode_number,
                                        rating: *rt,
                                    };
                                    proof {
                                        assert(ep@ =~= episode_of_record(
                                            rm,
                                            links@[rm[0]],
                                            ratings@[rm[0]],
                                        ));
                                    }
                                    let mut snew = roots.remove(j);
                                    let ghost sv = snew@;
                                    snew.episodes.push(ep);
                                    proof {
                                        assert(snew@.episodes =~= sv.episodes.push(ep@));
                                        assert(snew@ =~= with_episodes(
                                            views0[j as int],
                                            views0[j as int].episodes.push(ep@),
                                        ));
                                    }
                                    roots.insert(j, snew);
                                    proof {
                                        assert(series_views(roots@) =~= views0.update(
                                            j as int,
                                            snew@,
                                        ));
                                    }
                                },
                                None => {},
                            }
                        },
                        None => {},
                    }
                },
                None => {},
            }
        }
        proof {
            assert(series_views(roots@) == spec_pass2(tdv.take(i + 1), roots0, links@, ratings@));
        }
        i = i + 1;
    }
    proof {
        assert(tdv.take(i as int) =~= tdv);
    }
}

} // verus!
