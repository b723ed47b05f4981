//! The data model of the pipeline.
//!
//! Each executable type has a mathematical model over `Seq<char>`
//! obtained through its view; contracts and the pipeline specification
//! speak only of the models.
//!
//! Policy choices, stated once here: a series or episode is created only
//! when a rating exists for its identifier (rating-required), so the
//! `rating` fields are always present; season and episode ordinals are
//! parsed permissively and may be absent; years are parsed permissively
//! and may be absent. The inclusion predicate applied after the join is
//! the one configurable policy.

use crate::num::Decimal;
use vstd::prelude::*;

verus! {

/// An average score and a vote count for one title.
#[derive(Clone, Copy, Debug, PartialEq, Eq, Structural)]
pub struct Rating {
    pub average: Decimal,
    pub count: u32,
}

impl View for Rating {
    type V = Rating;

    open spec fn view(&self) -> Rating {
        *self
    }
}

/// The model of an episode-to-series link.
#[verifier::ext_equal]
pub struct LinkModel {
    pub parent_id: Seq<char>,
    pub season_number: Option<u32>,
    pub episode_number: Option<u32>,
}

/// One record of the episode-linkage source: the parent series of an
/// episode and its ordinals, either of which may be absent.
#[derive(Clone, Debug, PartialEq)]
pub struct EpisodeLink {
    pub parent_id: String,
    pub season_number: Option<u32>,
    pub episode_number: Option<u32>,
}

impl View for EpisodeLink {
    type V = LinkModel;

    open spec fn view(&self) -> LinkModel {
        LinkModel {
            parent_id: self.parent_id@,
            season_number: self.season_number,
            episode_number: self.episode_number,
        }
    }
}

/// The model of an episode.
#[verifier::ext_equal]
pub struct EpisodeModel {
    pub id: Seq<char>,
    pub primary_title: Seq<char>,
    pub original_title: Seq<char>,
    pub start_year: Option<u32>,
    pub end_year: Option<u32>,
    pub season_number: Option<u32>,
    pub episode_number: Option<u32>,
    pub rating: Rating,
}

/// A single installment of a series.
#[derive(Clone, Debug, PartialEq)]
pub struct Episode {
    pub id: String,
    pub primary_title: String,
    pub original_title: String,
    pub start_year: Option<u32>,
    pub end_year: Option<u32>,
    pub season_number: Option<u32>,
    pub episode_number: Option<u32>,
    pub rating: Rating,
}

impl View for Episode {
    type V = EpisodeModel;

    open spec fn view(&self) -> EpisodeModel {
        EpisodeModel {
            id: self.id@,
            primary_title: self.primary_title@,
            original_title: self.original_title@,
            start_year: self.start_year,
            end_year: self.end_year,
            season_number: self.season_number,
            episode_number: self.episode_number,
            rating: self.rating,
        }
    }
}

/// The model of a series.
#[verifier::ext_equal]
pub struct SeriesModel {
    pub id: Seq<char>,
    pub primary_title: Seq<char>,
    pub original_title: Seq<char>,
    pub start_year: Option<u32>,
    pub end_year: Option<u32>,
    pub genres: Seq<Seq<char>>,
    pub rating: Rating,
    pub episodes: Seq<EpisodeModel>,
}

/// An aggregate root: a show together with the episodes attached to it.
#[derive(Clone, Debug, PartialEq)]
pub struct Series {
    pub id: String,
    pub primary_title: String,
    pub original_title: String,
    pub start_year: Option<u32>,
    pub end_year: Option<u32>,
    pub genres: Vec<String>,
    pub rating: Rating,
    pub episodes: Vec<Episode>,
}

impl View for Series {
    type V = SeriesModel;

    open spec fn view(&self) -> SeriesModel {
        SeriesModel {
            id: self.id@,
            primary_title: self.primary_title@,
            original_title: self.original_title@,
            start_year: self.start_year,
            end_year: self.end_year,
            genres: self.genres.deep_view(),
            rating: self.rating,
            episodes: self.episodes@.map_values(|e: Episode| e@),
        }
    }
}

/// The models of a sequence of episodes.
pub open spec fn episode_views(s: Seq<Episode>) -> Seq<EpisodeModel> {
    s.map_values(|e: Episode| e@)
}

/// The models of a sequence of series.
pub open spec fn series_views(s: Seq<Series>) -> Seq<SeriesModel> {
    s.map_values(|x: Series| x@)
}

/// `s` with its episode sequence replaced.
pub open spec fn with_episodes(s: SeriesModel, episodes: Seq<EpisodeModel>) -> SeriesModel {
    SeriesModel {
        id: s.id,
        primary_title: s.primary_title,
        original_title: s.original_title,
        start_year: s.start_year,
        end_year: s.end_year,
        genres: s.genres,
        rating: s.rating,
        episodes: episodes,
    }
}

/// Which joined series are retained for output.
///
/// Under the rating-required construction policy every episode carries a
/// rating, so the observed variant "at least one episode has a rating"
/// coincides with `NonEmptyEpisodes` and is not listed separately.
#[derive(Clone, Copy, Debug, PartialEq, Eq, Structural)]
pub enum InclusionPolicy {
    /// Keep a series when at least one episode is attached.
    NonEmptyEpisodes,
    /// Keep a series when at least one episode is attached and every
    /// episode carries both ordinals.
    CompleteEpisodeData,
}

/// The one fatal failure of the transform itself: a ratings record whose
/// score or vote count does not parse. Ratings are assumed canonical, so
/// the whole run is rejected rather than the record skipped.
#[derive(Clone, Copy, Debug, PartialEq, Eq, Structural)]
pub enum PipelineError {
    MalformedRating,
}

} // verus!
