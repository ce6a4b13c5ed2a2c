//! The record types extraction produces: one search-page entry and the
//! full record of a series page, each an immutable snapshot with getters.
use vstd::prelude::*;

use crate::author::AuthorId;
use crate::group::GroupId;
use crate::publisher::PublisherId;
use crate::strutil::opt_str;

verus! {

/// The identifier of a series on the site.
#[derive(Debug, Clone, Copy, Default, PartialEq, Eq, Structural)]
pub struct SeriesId(pub usize);

/// Maps an optional borrowed string to its optional view.
pub open spec fn opt_ref_str(o: Option<&str>) -> Option<Seq<char>> {
    match o {
        Some(s) => Some(s@),
        None => None,
    }
}

/// One entry of a search-results page.
#[derive(Debug, PartialEq)]
pub struct SeriesSearchResult {
    pub id: SeriesId,
    pub title: String,
    pub description: Option<String>,
    pub image: Option<String>,
    pub year: Option<String>,
    pub rating: Option<String>,
}

impl SeriesSearchResult {
    pub fn id(&self) -> (r: SeriesId)
        ensures
            r == self.id,
    {
        self.id
    }

    pub fn title(&self) -> (r: &str)
        ensures
            r@ == self.title@,
    {
        self.title.as_str()
    }

    pub fn description(&self) -> (r: Option<&str>)
        ensures
            opt_ref_str(r) == opt_str(self.description),
    {
        match &self.description {
            Some(d) => Some(d.as_str()),
            None => None,
        }
    }

    pub fn image(&self) -> (r: Option<&str>)
        ensures
            opt_ref_str(r) == opt_str(self.image),
    {
        match &self.image {
            Some(d) => Some(d.as_str()),
            None => None,
        }
    }

    pub fn year(&self) -> (r: Option<&str>)
        ensures
            opt_ref_str(r) == opt_str(self.year),
    {
        match &self.year {
            Some(d) => Some(d.as_str()),
            None => None,
        }
    }

    pub fn rating(&self) -> (r: Option<&str>)
        ensures
            opt_ref_str(r) == opt_str(self.rating),
    {
        match &self.rating {
            Some(d) => Some(d.as_str()),
            None => None,
        }
    }
}

/// All the information on a series page.
#[derive(Debug, PartialEq)]
pub struct Series {
    pub id: SeriesId,
    pub title: String,
    pub description: Option<String>,
    pub ty: Option<String>,
    pub related_series: Vec<(SeriesId, String, String)>,
    pub associated_names: Vec<String>,
    pub groups_scanlating: Vec<(GroupId, String)>,
    pub status_in_coo: Vec<String>,
    pub completely_scanlated: bool,
    pub anime_start_end: Vec<String>,
    pub image: Option<String>,
    pub genre: Vec<String>,
    pub categories: Vec<String>,
    pub category_recommendations: Vec<(SeriesId, String)>,
    pub recommendations: Vec<(SeriesId, String)>,
    pub authors: Vec<(AuthorId, String)>,
    pub artists: Vec<(AuthorId, String)>,
    pub year: Option<String>,
    pub original_publisher: Option<(PublisherId, String)>,
    pub serialized_in: Vec<(String, String)>,
    pub licensed: bool,
    pub english_publisher: Vec<(PublisherId, String, Option<String>)>,
}

impl Series {
    /// Get a reference to the series's id.
    pub fn id(&self) -> (r: &SeriesId)
        ensures
            *r == self.id,
    {
        &self.id
    }

    /// Get a reference to the series's title.
    pub fn title(&self) -> (r: &str)
        ensures
            r@ == self.title@,
    {
        self.title.as_str()
    }

    /// Get a reference to the series's description.
    pub fn description(&self) -> (r: Option<&str>)
        ensures
            opt_ref_str(r) == opt_str(self.description),
    {
        match &self.description {
            Some(d) => Some(d.as_str()),
            None => None,
        }
    }

    /// Get a reference to the series's type tag.
    pub fn ty(&self) -> (r: Option<&str>)
        ensures
            opt_ref_str(r) == opt_str(self.ty),
    {
        match &self.ty {
            Some(d) => Some(d.as_str()),
            None => None,
        }
    }

    /// Get a reference to the series's related series.
    pub fn related_series(&self) -> (r: &Vec<(SeriesId, String, String)>)
        ensures
            r@ == self.related_series@,
    {
        &self.related_series
    }

    /// Get a reference to the series's associated names.
    pub fn associated_names(&self) -> (r: &Vec<String>)
        ensures
            r@ == self.associated_names@,
    {
        &self.associated_names
    }

    /// Get a reference to the series's scanlating groups.
    pub fn groups_scanlating(&self) -> (r: &Vec<(GroupId, String)>)
        ensures
            r@ == self.groups_scanlating@,
    {
        &self.groups_scanlating
    }

    /// Get a reference to the series's status in its country of origin.
    pub fn status_in_coo(&self) -> (r: &Vec<String>)
        ensures
            r@ == self.status_in_coo@,
    {
        &self.status_in_coo
    }

    /// Whether the series is completely scanlated.
    pub fn completely_scanlated(&self) -> (r: bool)
        ensures
            r == self.completely_scanlated,
    {
        self.completely_scanlated
    }

    /// Get a reference to the series's anime adaptation date lines.
    pub fn anime_start_end(&self) -> (r: &Vec<String>)
        ensures
            r@ == self.anime_start_end@,
    {
        &self.anime_start_end
    }

    /// Get a reference to the series's cover image URL.
    pub fn image(&self) -> (r: Option<&str>)
        ensures
            opt_ref_str(r) == opt_str(self.image),
    {
        match &self.image {
            Some(d) => Some(d.as_str()),
            None => None,
        }
    }

    /// Get a reference to the series's genres.
    pub fn genre(&self) -> (r: &Vec<String>)
        ensures
            r@ == self.genre@,
    {
        &self.genre
    }

    /// Get a reference to the series's categories.
    pub fn categories(&self) -> (r: &Vec<String>)
        ensures
            r@ == self.categories@,
    {
        &self.categories
    }

    /// Get a reference to the series's category recommendations.
    pub fn category_recommendations(&self) -> (r: &Vec<(SeriesId, String)>)
        ensures
            r@ == self.category_recommendations@,
    {
        &self.category_recommendations
    }

    /// Get a reference to the series's recommendations.
    pub fn recommendations(&self) -> (r: &Vec<(SeriesId, String)>)
        ensures
            r@ == self.recommendations@,
    {
        &self.recommendations
    }

    /// Get a reference to the series's authors.
    pub fn authors(&self) -> (r: &Vec<(AuthorId, String)>)
        ensures
            r@ == self.authors@,
    {
        &self.authors
    }

    /// Get a reference to the series's artists.
    pub fn artists(&self) -> (r: &Vec<(AuthorId, String)>)
        ensures
            r@ == self.artists@,
    {
        &self.artists
    }

    /// Get a reference to the series's publication year.
    pub fn year(&self) -> (r: Option<&str>)
        ensures
            opt_ref_str(r) == opt_str(self.year),
    {
        match &self.year {
            Some(d) => Some(d.as_str()),
            None => None,
        }
    }

    /// Get a reference to the series's original publisher.
    pub fn original_publisher(&self) -> (r: &Option<(PublisherId, String)>)
        ensures
            *r == self.original_publisher,
    {
        &self.original_publisher
    }

    /// Get a reference to the series's serialization venues.
    pub fn serialized_in(&self) -> (r: &Vec<(String, String)>)
        ensures
            r@ == self.serialized_in@,
    {
        &self.serialized_in
    }

    /// Whether the series is licensed in English.
    pub fn licensed(&self) -> (r: bool)
        ensures
            r == self.licensed,
    {
        self.licensed
    }

    /// Get a reference to the series's English publishers.
    pub fn english_publisher(&self) -> (r: &Vec<(PublisherId, String, Option<String>)>)
        ensures
            r@ == self.english_publisher@,
    {
        &self.english_publisher
    }
}

} // verus!
