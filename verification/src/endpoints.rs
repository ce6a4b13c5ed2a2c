//! The site's endpoints: verified construction of the request URLs.
use vstd::prelude::*;

use crate::strutil::dec_digits;
use crate::strutil::push_dec;

verus! {

/// The URL of the search page for a free-text query.
pub open spec fn search_url_spec(q: Seq<char>) -> Seq<char> {
    "https://www.mangaupdates.com/series.html?search="@ + q
}

pub fn search_url(query: &str) -> (r: String)
    ensures
        r@ == search_url_spec(query@),
{
    let mut s = String::from_str("https://www.mangaupdates.com/series.html?search=");
    s.append(query);
    s
}

/// The URL of the page for one series.
pub open spec fn series_url_spec(id: nat) -> Seq<char> {
    "https://www.mangaupdates.com/series.html?id="@ + dec_digits(id)
}

pub fn series_url(id: usize) -> (r: String)
    ensures
        r@ == series_url_spec(id as nat),
{
    let mut s = String::from_str("https://www.mangaupdates.com/series.html?id=");
    push_dec(&mut s, id);
    s
}

/// The URL of the auxiliary fragment listing one series' categories.
pub open spec fn category_url_spec(id: nat) -> Seq<char> {
    "https://www.mangaupdates.com/ajax/show_categories.php?s="@ + dec_digits(id) + "&type=1"@
}

pub fn category_url(id: usize) -> (r: String)
    ensures
        r@ == category_url_spec(id as nat),
{
    let mut s = String::from_str("https://www.mangaupdates.com/ajax/show_categories.php?s=");
    push_dec(&mut s, id);
    s.append("&type=1");
    s
}

} // verus!
