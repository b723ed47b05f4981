//! The Rating Index and the Episode Link Index.
//!
//! Both are built by one pass over their source's records, later records
//! for the same key overwriting earlier ones. Ratings are parsed
//! strictly: one malformed record rejects the whole run. Episode links
//! are parsed permissively: a record without its episode and parent
//! fields is skipped, and an ordinal that does not parse is absent.

use crate::model::{EpisodeLink, LinkModel, PipelineError, Rating};
use crate::num::{parse_decimal, parse_u32_digits, spec_parse_decimal, spec_parse_u32};
use crate::strmap::StrMap;
use vstd::prelude::*;

verus! {

/// The rating carried by one ratings record, when the record has its
/// three fields and both numbers parse.
pub open spec fn spec_rating_of(rec: Seq<Seq<char>>) -> Option<Rating> {
    if rec.len() >= 3 {
        match spec_parse_decimal(rec[1]) {
            Some(average) => match spec_parse_u32(rec[2]) {
                Some(count) => Some(Rating { average, count }),
                None => None,
            },
            None => None,
        }
    } else {
        None
    }
}

/// The Rating Index over a record sequence: title identifier to rating
/// summary, or `None` as soon as any record is malformed.
pub open spec fn spec_rating_index(records: Seq<Seq<Seq<char>>>) -> Option<Map<Seq<char>, Rating>>
    decreases records.len(),
{
    if records.len() == 0 {
        Some(Map::empty())
    } else {
        match spec_rating_index(records.drop_last()) {
            None => None,
            Some(m) => match spec_rating_of(records.last()) {
                None => None,
                Some(rt) => Some(m.insert(records.last()[0], rt)),
            },
        }
    }
}

proof fn lemma_rating_index_none(records: Seq<Seq<Seq<char>>>, j: int)
    requires
        0 <= j <= records.len(),
        spec_rating_index(records.take(j)) is None,
    ensures
        spec_rating_index(records) is None,
    decreases records.len() - j,
{
    if j == records.len() {
        assert(records.take(j) =~= records);
    } else {
        assert(records.take(j + 1).drop_last() =~= records.take(j));
        lemma_rating_index_none(records, j + 1);
    }
}

/// Builds the Rating Index; rejects the run on the first malformed
/// ratings record.
pub fn build_rating_index(records: &Vec<Vec<String>>) -> (r: Result<
    StrMap<Rating>,
    PipelineError,
>)
    ensures
        match r {
            Ok(ix) => ix.wf() && spec_rating_index(records.deep_view()) == Some(ix@),
            Err(e) => spec_rating_index(records.deep_view()) is None && e
                == PipelineError::MalformedRating,
        },
{
    let ghost rdv = records.deep_view();
    let mut ix: StrMap<Rating> = StrMap::new();
    let mut i: usize = 0;
    proof {
        assert(rdv.take(0) =~= Seq::<Seq<Seq<char>>>::empty());
    }
    while i < records.len()
        invariant
            0 <= i <= records@.len(),
            rdv == records.deep_view(),
            ix.wf(),
            spec_rating_index(rdv.take(i as int)) == Some(ix@),
        decreases records@.len() - i,
    {
        let rec = &records[i];
        proof {
            assert(rec.deep_view() == rdv[i as int]);
            assert(rdv.take(i + 1).drop_last() =~= rdv.take(i as int));
            assert(rdv.take(i + 1).last() == rdv[i as int]);
        }
        let mut parsed: Option<Rating> = None;
        if rec.len() >= 3 {
            proof {
                assert(rec@[1]@ == rdv[i as int][1]);
                assert(rec@[2]@ == rdv[i as int][2]);
            }
            match parse_decimal(rec[1].as_str()) {
                Some(average) => match parse_u32_digits(rec[2].as_str()) {
                    Some(count) => {
                        parsed = Some(Rating { average, count });
                    },
                    None => {},
                },
                None => {},
            }
        }
        match parsed {
            Some(rt) => {
                proof {
                    assert(spec_rating_of(rdv[i as int]) == Some(rt));
                    assert(rec@[0]@ == rdv[i as int][0]);
                }
                ix.set(rec[0].clone(), rt);
            },
            None => {
                proof {
                    assert(spec_rating_of(rdv[i as int]) is None);
                    lemma_rating_index_none(rdv, i + 1);
                }
                return Err(PipelineError::MalformedRating);
            },
        }
        i = i + 1;
    }
    proof {
        assert(rdv.take(i as int) =~= rdv);
    }
    Ok(ix)
}

/// The link carried by one episode-linkage record: present when the
/// record declares its episode and parent identifiers; absent ordinals
/// are tolerated (permissive retention).
pub open spec fn spec_link_of(rec: Seq<Seq<char>>) -> Option<LinkModel> {
    if rec.len() >= 2 {
        Some(
            LinkModel {
                parent_id: rec[1],
                season_number: if rec.len() > 2 {
                    spec_parse_u32(rec[2])
                } else {
                    None
                },
                episode_number: if rec.len() > 3 {
                    spec_parse_u32(rec[3])
                } else {
                    None
                },
            },
        )
    } else {
        None
    }
}

/// The Episode Link Index over a record sequence: episode identifier to
/// its link.
pub open spec fn spec_link_index(records: Seq<Seq<Seq<char>>>) -> Map<Seq<char>, LinkModel>
    decreases records.len(),
{
    if records.len() == 0 {
        Map::empty()
    } else {
        let m = spec_link_index(records.drop_last());
        match spec_link_of(records.last()) {
            Some(link) => m.insert(records.last()[0], link),
            None => m,
        }
    }
}

/// Builds the Episode Link Index.
pub fn build_link_index(records: &Vec<Vec<String>>) -> (r: StrMap<EpisodeLink>)
    ensures
        r.wf(),
        r@ == spec_link_index(records.deep_view()),
{
    let ghost rdv = records.deep_view();
    let mut ix: StrMap<EpisodeLink> = StrMap::new();
    let mut i: usize = 0;
    proof {
        assert(rdv.take(0) =~= Seq::<Seq<Seq<char>>>::empty());
        assert(spec_link_index(rdv.take(0)) == ix@);
    }
    while i < records.len()
        invariant
            0 <= i <= records@.len(),
            rdv == records.deep_view(),
            ix.wf(),
            spec_link_index(rdv.take(i as int)) == ix@,
        decreases records@.len() - i,
    {
        let rec = &records[i];
        proof {
            assert(rec.deep_view() == rdv[i as int]);
            assert(rdv.take(i + 1).drop_last() =~= rdv.take(i as int));
            assert(rdv.take(i + 1).last() == rdv[i as int]);
        }
        if rec.len() >= 2 {
            proof {
                assert(rec@[0]@ == rdv[i as int][0]);
                assert(rec@[1]@ == rdv[i as int][1]);
                if rec@.len() > 2 {
                    assert(rec@[2]@ == rdv[i as int][2]);
                }
                if rec@.len() > 3 {
                    assert(rec@[3]@ == rdv[i as int][3]);
                }
            }
            let link = EpisodeLink {
                parent_id: rec[1].clone(),
                season_number: if rec.len() > 2 {
                    parse_u32_digits(rec[2].as_str())
                } else {
                    None
                },
                episode_number: if rec.len() > 3 {
                    parse_u32_digits(rec[3].as_str())
                } else {
                    None
                },
            };
            proof {
                assert(spec_link_of(rdv[i as int]) == Some(link@));
            }
            ix.set(rec[0].clone(), link);
        }
        i = i + 1;
    }
    proof {
        assert(rdv.take(i as int) =~= rdv);
    }
    ix
}

} // verus!
