//! An extraction engine for the HTML pages of a manga-tracking site.
//!
//! The engine walks an already-parsed DOM tree, supplied as a [`DomNode`],
//! and decodes it into record types. Fetching pages and parsing HTML into
//! the tree are collaborators outside this crate; the one secondary fetch
//! the engine needs is injected through the [`Transport`] capability.
use vstd::prelude::*;

mod author;
mod dom;
mod endpoints;
mod group;
mod laws;
mod parsing;
mod publisher;
mod series;
mod strutil;
mod transport;

verus! {

pub use crate::author::AuthorId;
pub use crate::dom::DomNode;
pub use crate::dom::Element;
pub use crate::dom::Query;
pub use crate::dom::QuerySpec;
pub use crate::endpoints::category_url;
pub use crate::endpoints::search_url;
pub use crate::endpoints::series_url;
pub use crate::group::GroupId;
pub use crate::publisher::PublisherId;
pub use crate::series::Series;
pub use crate::series::SeriesId;
pub use crate::series::SeriesSearchResult;
pub use crate::strutil::find_sub_spec;
pub use crate::strutil::all_digits;
pub use crate::strutil::digits_val;
pub use crate::strutil::spec_parse_usize;
pub use crate::strutil::unsigned_part;
pub use crate::transport::Transport;
pub use crate::parsing::collect_categories;
pub use crate::parsing::is_sentinel_block;
pub use crate::parsing::parse_associated_names;
pub use crate::parsing::parse_artists;
pub use crate::parsing::parse_authors;
pub use crate::parsing::parse_categories;
pub use crate::parsing::parse_category_recommendations;
pub use crate::parsing::parse_description;
pub use crate::parsing::parse_english_publisher;
pub use crate::parsing::parse_genre;
pub use crate::parsing::parse_image;
pub use crate::parsing::parse_original_publisher;
pub use crate::parsing::parse_recommendations;
pub use crate::parsing::parse_related;
pub use crate::parsing::parse_scanlating;
pub use crate::parsing::parse_search_results;
pub use crate::parsing::parse_serialized_in;
pub use crate::parsing::parse_series;
pub use crate::parsing::parse_status_lines;
pub use crate::parsing::parse_type_tag;
pub use crate::parsing::parse_year;
pub use crate::parsing::parse_year_and_rating;
pub use crate::parsing::parse_yes_flag;

/// The position just past the first `id=` marker in `u`, if the marker occurs.
pub open spec fn id_start(u: Seq<char>) -> Option<int> {
    match find_sub_spec(u, "id="@) {
        Some(i) => Some(i + "id="@.len() as int),
        None => None,
    }
}

/// What identifier extraction yields on a hyperlink target: the base-ten
/// value of everything after the first `id=` marker, provided that suffix
/// is a number — after one optional leading plus sign, non-empty, all
/// digits, and within machine range.
pub open spec fn spec_get_id(u: Seq<char>) -> Option<int> {
    match id_start(u) {
        None => None,
        Some(p) => {
            match crate::strutil::spec_parse_usize(u.subrange(p, u.len() as int)) {
                None => None,
                Some(v) => Some(v as int),
            }
        },
    }
}

/// Extracts the numeric identifier from an optional hyperlink target.
pub fn get_id(url: Option<&str>) -> (r: Option<usize>)
    ensures
        match url {
            None => r is None,
            Some(u) => match spec_get_id(u@) {
                None => r is None,
                Some(v) => r == Some(v as usize),
            },
        },
{
    let u = match url {
        Some(u) => u,
        None => {
            return None;
        },
    };
    let marker: &str = "id=";
    proof {
        reveal_strlit("id=");
    }
    let pos = match crate::strutil::find_sub(u, marker) {
        Some(p) => p,
        None => {
            return None;
        },
    };
    proof {
        crate::strutil::lemma_find_sub_spec_first(u@, marker@);
    }
    let n = u.unicode_len();
    let rest = u.substring_char(pos + 3, n);
    proof {
        assert(rest@ == u@.subrange(pos as int + 3, n as int));
    }
    crate::strutil::parse_usize(rest)
}

} // verus!
