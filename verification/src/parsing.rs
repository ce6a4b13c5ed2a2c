//! The extraction engine: field decoders over content blocks, the two
//! column decoders of a series page, and the search-results decoder.
use vstd::prelude::*;

use crate::author::AuthorId;
use crate::dom::{
    attr_of, children_of, derefd, find_in, text_of, DomNode, Query, QuerySpec,
};
use crate::get_id;
use crate::group::GroupId;
use crate::publisher::PublisherId;
use crate::series::SeriesId;
use crate::spec_get_id;
use crate::strutil::{opt_str, str_eq, trim, trim_spec};

verus! {

// ---------------------------------------------------------------------------
// Views of the collections the decoders build, over character sequences.
// ---------------------------------------------------------------------------
pub open spec fn strs_view(v: Seq<String>) -> Seq<Seq<char>> {
    v.map_values(|s: String| s@)
}

pub open spec fn upairs_view(v: Seq<(usize, String)>) -> Seq<(int, Seq<char>)> {
    v.map_values(|t: (usize, String)| (t.0 as int, t.1@))
}

pub open spec fn aid_pairs_view(v: Seq<(AuthorId, String)>) -> Seq<(int, Seq<char>)> {
    v.map_values(|t: (AuthorId, String)| (t.0.0 as int, t.1@))
}

pub open spec fn gid_pairs_view(v: Seq<(GroupId, String)>) -> Seq<(int, Seq<char>)> {
    v.map_values(|t: (GroupId, String)| (t.0.0 as int, t.1@))
}

pub open spec fn sid_pairs_view(v: Seq<(SeriesId, String)>) -> Seq<(int, Seq<char>)> {
    v.map_values(|t: (SeriesId, String)| (t.0.0 as int, t.1@))
}

pub open spec fn rel_view(v: Seq<(SeriesId, String, String)>) -> Seq<(int, Seq<char>, Seq<char>)> {
    v.map_values(|t: (SeriesId, String, String)| (t.0.0 as int, t.1@, t.2@))
}

pub open spec fn ser_view(v: Seq<(String, String)>) -> Seq<(Seq<char>, Seq<char>)> {
    v.map_values(|t: (String, String)| (t.0@, t.1@))
}

pub open spec fn pub_view(v: Seq<(PublisherId, String, Option<String>)>) -> Seq<
    (int, Seq<char>, Option<Seq<char>>),
> {
    v.map_values(|t: (PublisherId, String, Option<String>)| (t.0.0 as int, t.1@, opt_str(t.2)))
}

pub open spec fn texts_list(s: Seq<DomNode>) -> Seq<Seq<char>> {
    s.map_values(|n: DomNode| text_of(n))
}

// ---------------------------------------------------------------------------
// Query construction.
// ---------------------------------------------------------------------------
fn q_class(name: &str) -> (q: Query)
    ensures
        q@ == QuerySpec::Class(name@),
{
    Query::Class(String::from_str(name))
}

fn q_classes(a: &str, b: &str) -> (q: Query)
    ensures
        q@ == QuerySpec::Classes(a@, b@),
{
    Query::Classes(String::from_str(a), String::from_str(b))
}

fn q_tag(name: &str) -> (q: Query)
    ensures
        q@ == QuerySpec::Tag(name@),
{
    Query::Tag(String::from_str(name))
}

fn q_attr(key: &str, val: &str) -> (q: Query)
    ensures
        q@ == QuerySpec::AttrIs(key@, val@),
{
    Query::AttrIs(String::from_str(key), String::from_str(val))
}

fn q_text() -> (q: Query)
    ensures
        q@ == QuerySpec::AnyText,
{
    Query::AnyText
}

// ---------------------------------------------------------------------------
// Shared primitives: sentinel detection and link identifiers.
// ---------------------------------------------------------------------------
/// The block's trimmed text is exactly the placeholder the site renders
/// for absent data.
pub open spec fn sentinel_block(b: DomNode) -> bool {
    trim_spec(text_of(b)) == "N/A"@
}

/// Detects the placeholder block; run before any structural decoding.
pub fn is_sentinel_block(b: &DomNode) -> (r: bool)
    ensures
        r == sentinel_block(*b),
{
    let t = b.text();
    str_eq(trim(t.as_str()), "N/A")
}

/// The identifier a hyperlink node carries in its target, if any.
pub open spec fn link_id(n: DomNode) -> Option<int> {
    match attr_of(n, "href"@) {
        None => None,
        Some(h) => spec_get_id(h),
    }
}

fn link_id_exec(n: &DomNode) -> (r: Option<usize>)
    ensures
        match link_id(*n) {
            None => r is None,
            Some(v) => r == Some(v as usize),
        },
{
    match n.attr("href") {
        Some(h) => get_id(Some(h.as_str())),
        None => get_id(None),
    }
}

// ---------------------------------------------------------------------------
// Scalar field decoders.
// ---------------------------------------------------------------------------
/// A scalar text block: the block's trimmed text, absent on the
/// placeholder.
pub open spec fn spec_trimmed_text(b: DomNode) -> Option<Seq<char>> {
    if sentinel_block(b) {
        None
    } else {
        Some(trim_spec(text_of(b)))
    }
}

/// Publication year: a scalar text block.
pub open spec fn spec_year(b: DomNode) -> Option<Seq<char>> {
    spec_trimmed_text(b)
}

pub fn parse_year(b: &DomNode) -> (r: Option<String>)
    ensures
        opt_str(r) == spec_year(*b),
{
    if is_sentinel_block(b) {
        return None;
    }
    let t = b.text();
    Some(String::from_str(trim(t.as_str())))
}

/// The series type tag: a scalar text block, decoded as the year is.
pub fn parse_type_tag(b: &DomNode) -> (r: Option<String>)
    ensures
        opt_str(r) == spec_trimmed_text(*b),
{
    parse_year(b)
}

/// An affirmative block: trimmed text exactly `Yes`.
pub open spec fn spec_yes_flag(b: DomNode) -> bool {
    trim_spec(text_of(b)) == "Yes"@
}

pub fn parse_yes_flag(b: &DomNode) -> (r: bool)
    ensures
        r == spec_yes_flag(*b),
{
    let t = b.text();
    str_eq(trim(t.as_str()), "Yes")
}

/// The source attribute of the block's first image element, if any.
pub open spec fn spec_image(b: DomNode) -> Option<Seq<char>> {
    let imgs = find_in(b, QuerySpec::Tag("img"@));
    if imgs.len() == 0 {
        None
    } else {
        attr_of(imgs[0], "src"@)
    }
}

pub fn parse_image(b: &DomNode) -> (r: Option<String>)
    ensures
        opt_str(r) == spec_image(*b),
{
    let imgs = b.find(&q_tag("img"));
    if imgs.len() == 0 {
        None
    } else {
        proof {
            assert(derefd(imgs@)[0] == *imgs@[0]);
        }
        imgs[0].attr("src")
    }
}

/// The description block: the placeholder yields nothing; a hidden
/// expansion's first child supplies the text when present, else the block
/// itself; blank text yields nothing; the text is kept trimmed.
pub open spec fn spec_description(b: DomNode) -> Option<Seq<char>> {
    if sentinel_block(b) {
        None
    } else {
        let mores = find_in(b, QuerySpec::AttrIs("id"@, "div_desc_more"@));
        if mores.len() > 0 {
            if children_of(mores[0]).len() == 0 {
                None
            } else {
                trimmed_nonempty(text_of(children_of(mores[0])[0]))
            }
        } else {
            trimmed_nonempty(text_of(b))
        }
    }
}

pub open spec fn trimmed_nonempty(t: Seq<char>) -> Option<Seq<char>> {
    if trim_spec(t).len() > 0 {
        Some(trim_spec(t))
    } else {
        None
    }
}

pub fn parse_description(b: &DomNode) -> (r: Option<String>)
    ensures
        opt_str(r) == spec_description(*b),
{
    if is_sentinel_block(b) {
        return None;
    }
    let mores = b.find(&q_attr("id", "div_desc_more"));
    let raw: String;
    if mores.len() > 0 {
        proof {
            assert(derefd(mores@)[0] == *mores@[0]);
        }
        let m = mores[0];
        if m.child_count() == 0 {
            return None;
        }
        raw = m.child(0).text();
    } else {
        raw = b.text();
    }
    let t = trim(raw.as_str());
    if t.unicode_len() > 0 {
        Some(String::from_str(t))
    } else {
        None
    }
}

/// Status-line blocks: the placeholder (exact, untrimmed) yields nothing,
/// else the text of every text descendant, in order.
pub open spec fn spec_status_lines(b: DomNode) -> Seq<Seq<char>> {
    if text_of(b) == "N/A"@ {
        Seq::empty()
    } else {
        texts_list(find_in(b, QuerySpec::AnyText))
    }
}

pub fn parse_status_lines(b: &DomNode) -> (r: Vec<String>)
    ensures
        strs_view(r@) == spec_status_lines(*b),
{
    let t = b.text();
    if str_eq(t.as_str(), "N/A") {
        let r: Vec<String> = Vec::new();
        proof {
            assert(strs_view(r@) =~= Seq::<Seq<char>>::empty());
        }
        return r;
    }
    let nodes = b.find(&q_text());
    let ghost ls = derefd(nodes@);
    let count = nodes.len();
    let mut r: Vec<String> = Vec::new();
    let mut i: usize = 0;
    while i < count
        invariant
            i <= count,
            count == nodes@.len(),
            ls == derefd(nodes@),
            strs_view(r@) == texts_list(ls.subrange(0, i as int)),
        decreases count - i,
    {
        proof {
            assert(ls[i as int] == *nodes@[i as int]);
        }
        let ghost prev = r@;
        let part = nodes[i].text();
        r.push(part);
        proof {
            assert(strs_view(r@) =~= strs_view(prev) + seq![text_of(ls[i as int])]);
            assert(texts_list(ls.subrange(0, i as int + 1)) =~= texts_list(
                ls.subrange(0, i as int),
            ) + seq![text_of(ls[i as int])]);
        }
        i += 1;
    }
    proof {
        assert(ls.subrange(0, count as int) =~= ls);
    }
    r
}

/// Genre tags: the text of every link, with the final one always dropped.
pub open spec fn spec_genre(b: DomNode) -> Seq<Seq<char>> {
    let links = find_in(b, QuerySpec::Tag("a"@));
    if links.len() == 0 {
        Seq::empty()
    } else {
        texts_list(links).drop_last()
    }
}

pub fn parse_genre(b: &DomNode) -> (r: Vec<String>)
    ensures
        strs_view(r@) == spec_genre(*b),
{
    let links = b.find(&q_tag("a"));
    let ghost ls = derefd(links@);
    let count = links.len();
    let mut r: Vec<String> = Vec::new();
    let mut i: usize = 0;
    while i < count
        invariant
            i <= count,
            count == links@.len(),
            ls == derefd(links@),
            strs_view(r@) == texts_list(ls.subrange(0, i as int)),
        decreases count - i,
    {
        proof {
            assert(ls[i as int] == *links@[i as int]);
        }
        let ghost prev = r@;
        let part = links[i].text();
        r.push(part);
        proof {
            assert(strs_view(r@) =~= strs_view(prev) + seq![text_of(ls[i as int])]);
            assert(texts_list(ls.subrange(0, i as int + 1)) =~= texts_list(
                ls.subrange(0, i as int),
            ) + seq![text_of(ls[i as int])]);
        }
        i += 1;
    }
    proof {
        assert(ls.subrange(0, count as int) =~= ls);
    }
    let _ = r.pop();
    proof {
        if ls.len() == 0 {
            assert(strs_view(r@) =~= Seq::<Seq<char>>::empty());
        } else {
            assert(strs_view(r@) =~= texts_list(ls).drop_last());
        }
    }
    r
}

/// Alternate names: the placeholder yields nothing; else every text
/// descendant's trimmed text, keeping only non-blank entries that are not
/// themselves the placeholder.
pub open spec fn assoc_items(s: Seq<DomNode>) -> Seq<Seq<char>>
    decreases s.len(),
{
    if s.len() == 0 {
        Seq::empty()
    } else {
        let t = trim_spec(text_of(s[0]));
        (if t.len() > 0 && t != "N/A"@ {
            seq![t]
        } else {
            Seq::empty()
        }) + assoc_items(s.subrange(1, s.len() as int))
    }
}

pub open spec fn spec_associated_names(b: DomNode) -> Seq<Seq<char>> {
    if sentinel_block(b) {
        Seq::empty()
    } else {
        assoc_items(find_in(b, QuerySpec::AnyText))
    }
}

pub fn parse_associated_names(b: &DomNode) -> (r: Vec<String>)
    ensures
        strs_view(r@) == spec_associated_names(*b),
{
    let mut r: Vec<String> = Vec::new();
    if is_sentinel_block(b) {
        proof {
            assert(strs_view(r@) =~= Seq::<Seq<char>>::empty());
        }
        return r;
    }
    let nodes = b.find(&q_text());
    let ghost ls = derefd(nodes@);
    let count = nodes.len();
    let mut i: usize = 0;
    proof {
        assert(ls.subrange(0, count as int) =~= ls);
        assert(strs_view(r@) + assoc_items(ls) =~= assoc_items(ls));
    }
    while i < count
        invariant
            i <= count,
            count == nodes@.len(),
            ls == derefd(nodes@),
            assoc_items(ls) == strs_view(r@) + assoc_items(ls.subrange(i as int, count as int)),
        decreases count - i,
    {
        proof {
            assert(ls[i as int] == *nodes@[i as int]);
            assert(ls.subrange(i as int, count as int)[0] == ls[i as int]);
            assert(ls.subrange(i as int, count as int).subrange(1, (count - i) as int)
                =~= ls.subrange(i as int + 1, count as int));
        }
        let ghost prev = r@;
        let raw = nodes[i].text();
        let name = trim(raw.as_str());
        if name.unicode_len() > 0 && !str_eq(name, "N/A") {
            r.push(String::from_str(name));
            proof {
                assert(strs_view(r@) =~= strs_view(prev) + seq![trim_spec(text_of(ls[i as int]))]);
                assert(strs_view(r@) + assoc_items(ls.subrange(i as int + 1, count as int))
                    =~= strs_view(prev) + assoc_items(ls.subrange(i as int, count as int)));
            }
        } else {
            proof {
                assert(strs_view(r@) + assoc_items(ls.subrange(i as int + 1, count as int))
                    =~= strs_view(prev) + assoc_items(ls.subrange(i as int, count as int)));
            }
        }
        i += 1;
    }
    proof {
        assert(ls.subrange(count as int, count as int).len() == 0);
        assert(strs_view(r@) + Seq::<Seq<char>>::empty() =~= strs_view(r@));
    }
    r
}

// ---------------------------------------------------------------------------
// Link collections: (identifier, text) pairs gathered until a link without
// a parsable identifier stops the collection.
// ---------------------------------------------------------------------------
pub open spec fn linked_items(s: Seq<DomNode>) -> Seq<(int, Seq<char>)>
    decreases s.len(),
{
    if s.len() == 0 {
        Seq::empty()
    } else {
        match link_id(s[0]) {
            None => Seq::empty(),
            Some(id) => seq![(id, text_of(s[0]))] + linked_items(s.subrange(1, s.len() as int)),
        }
    }
}

fn collect_linked(links: &Vec<&DomNode>) -> (r: Vec<(usize, String)>)
    ensures
        upairs_view(r@) == linked_items(derefd(links@)),
{
    let ghost ls = derefd(links@);
    let count = links.len();
    let mut r: Vec<(usize, String)> = Vec::new();
    let mut i: usize = 0;
    proof {
        assert(ls.subrange(0, count as int) =~= ls);
        assert(upairs_view(r@) + linked_items(ls) =~= linked_items(ls));
    }
    while i < count
        invariant
            i <= count,
            count == links@.len(),
            ls == derefd(links@),
            linked_items(ls) == upairs_view(r@) + linked_items(
                ls.subrange(i as int, count as int),
            ),
        decreases count - i,
    {
        proof {
            assert(ls[i as int] == *links@[i as int]);
            assert(ls.subrange(i as int, count as int)[0] == ls[i as int]);
            assert(ls.subrange(i as int, count as int).subrange(1, (count - i) as int)
                =~= ls.subrange(i as int + 1, count as int));
        }
        let ghost prev = r@;
        match link_id_exec(links[i]) {
            None => {
                proof {
                    assert(linked_items(ls.subrange(i as int, count as int)) =~= Seq::<
                        (int, Seq<char>),
                    >::empty());
                    assert(upairs_view(r@) + Seq::<(int, Seq<char>)>::empty() =~= upairs_view(r@));
                }
                return r;
            },
            Some(id) => {
                let name = links[i].text();
                r.push((id, name));
                proof {
                    let item = (id as int, text_of(ls[i as int]));
                    assert(upairs_view(r@) =~= upairs_view(prev) + seq![item]);
                    assert(upairs_view(r@) + linked_items(ls.subrange(i as int + 1, count as int))
                        =~= upairs_view(prev) + linked_items(
                        ls.subrange(i as int, count as int),
                    ));
                }
            },
        }
        i += 1;
    }
    proof {
        assert(ls.subrange(count as int, count as int).len() == 0);
        assert(upairs_view(r@) + Seq::<(int, Seq<char>)>::empty() =~= upairs_view(r@));
    }
    r
}

/// Scanlating groups: every link bearing the group-info title attribute.
pub open spec fn spec_scanlating(b: DomNode) -> Seq<(int, Seq<char>)> {
    if sentinel_block(b) {
        Seq::empty()
    } else {
        linked_items(find_in(b, QuerySpec::AttrIs("title"@, "Group Info"@)))
    }
}

pub fn parse_scanlating(b: &DomNode) -> (r: Vec<(GroupId, String)>)
    ensures
        gid_pairs_view(r@) == spec_scanlating(*b),
{
    let mut r: Vec<(GroupId, String)> = Vec::new();
    if is_sentinel_block(b) {
        proof {
            assert(gid_pairs_view(r@) =~= Seq::<(int, Seq<char>)>::empty());
        }
        return r;
    }
    let links = b.find(&q_attr("title", "Group Info"));
    let pairs = collect_linked(&links);
    let count = pairs.len();
    let mut i: usize = 0;
    while i < count
        invariant
            i <= count,
            count == pairs@.len(),
            gid_pairs_view(r@) == upairs_view(pairs@.subrange(0, i as int)),
        decreases count - i,
    {
        let ghost prev = r@;
        r.push((GroupId(pairs[i].0), pairs[i].1.clone()));
        proof {
            let item = (pairs@[i as int].0 as int, pairs@[i as int].1@);
            assert(gid_pairs_view(r@) =~= gid_pairs_view(prev) + seq![item]);
            assert(upairs_view(pairs@.subrange(0, i as int + 1)) =~= upairs_view(
                pairs@.subrange(0, i as int),
            ) + seq![item]);
        }
        i += 1;
    }
    proof {
        assert(pairs@.subrange(0, count as int) =~= pairs@);
    }
    r
}

/// Authors: every link of the block.
pub open spec fn spec_authors(b: DomNode) -> Seq<(int, Seq<char>)> {
    if sentinel_block(b) {
        Seq::empty()
    } else {
        linked_items(find_in(b, QuerySpec::Tag("a"@)))
    }
}

pub fn parse_authors(b: &DomNode) -> (r: Vec<(AuthorId, String)>)
    ensures
        aid_pairs_view(r@) == spec_authors(*b),
{
    let mut r: Vec<(AuthorId, String)> = Vec::new();
    if is_sentinel_block(b) {
        proof {
            assert(aid_pairs_view(r@) =~= Seq::<(int, Seq<char>)>::empty());
        }
        return r;
    }
    let links = b.find(&q_tag("a"));
    let pairs = collect_linked(&links);
    let count = pairs.len();
    let mut i: usize = 0;
    while i < count
        invariant
            i <= count,
            count == pairs@.len(),
            aid_pairs_view(r@) == upairs_view(pairs@.subrange(0, i as int)),
        decreases count - i,
    {
        let ghost prev = r@;
        r.push((AuthorId(pairs[i].0), pairs[i].1.clone()));
        proof {
            let item = (pairs@[i as int].0 as int, pairs@[i as int].1@);
            assert(aid_pairs_view(r@) =~= aid_pairs_view(prev) + seq![item]);
            assert(upairs_view(pairs@.subrange(0, i as int + 1)) =~= upairs_view(
                pairs@.subrange(0, i as int),
            ) + seq![item]);
        }
        i += 1;
    }
    proof {
        assert(pairs@.subrange(0, count as int) =~= pairs@);
    }
    r
}

/// Artists: decoded exactly as authors are.
pub fn parse_artists(b: &DomNode) -> (r: Vec<(AuthorId, String)>)
    ensures
        aid_pairs_view(r@) == spec_authors(*b),
{
    parse_authors(b)
}

/// Category-based recommendations: a starts-with placeholder check, then
/// every link of the block.
pub open spec fn spec_category_recommendations(b: DomNode) -> Seq<(int, Seq<char>)> {
    if crate::strutil::has_prefix(trim_spec(text_of(b)), "N/A"@) {
        Seq::empty()
    } else {
        linked_items(find_in(b, QuerySpec::Tag("a"@)))
    }
}

pub fn parse_category_recommendations(b: &DomNode) -> (r: Vec<(SeriesId, String)>)
    ensures
        sid_pairs_view(r@) == spec_category_recommendations(*b),
{
    let mut r: Vec<(SeriesId, String)> = Vec::new();
    let t = b.text();
    if crate::strutil::str_starts_with(trim(t.as_str()), "N/A") {
        proof {
            assert(sid_pairs_view(r@) =~= Seq::<(int, Seq<char>)>::empty());
        }
        return r;
    }
    let links = b.find(&q_tag("a"));
    let pairs = collect_linked(&links);
    let count = pairs.len();
    let mut i: usize = 0;
    while i < count
        invariant
            i <= count,
            count == pairs@.len(),
            sid_pairs_view(r@) == upairs_view(pairs@.subrange(0, i as int)),
        decreases count - i,
    {
        let ghost prev = r@;
        r.push((SeriesId(pairs[i].0), pairs[i].1.clone()));
        proof {
            let item = (pairs@[i as int].0 as int, pairs@[i as int].1@);
            assert(sid_pairs_view(r@) =~= sid_pairs_view(prev) + seq![item]);
            assert(upairs_view(pairs@.subrange(0, i as int + 1)) =~= upairs_view(
                pairs@.subrange(0, i as int),
            ) + seq![item]);
        }
        i += 1;
    }
    proof {
        assert(pairs@.subrange(0, count as int) =~= pairs@);
    }
    r
}

/// Original publisher: the first link's identifier and text.
pub open spec fn spec_original_publisher(b: DomNode) -> Option<(int, Seq<char>)> {
    if sentinel_block(b) {
        None
    } else {
        let links = find_in(b, QuerySpec::Tag("a"@));
        if links.len() == 0 {
            None
        } else {
            match link_id(links[0]) {
                None => None,
                Some(id) => Some((id, text_of(links[0]))),
            }
        }
    }
}

pub fn parse_original_publisher(b: &DomNode) -> (r: Option<(PublisherId, String)>)
    ensures
        match r {
            None => spec_original_publisher(*b) is None,
            Some(p) => spec_original_publisher(*b) == Some((p.0.0 as int, p.1@)),
        },
{
    if is_sentinel_block(b) {
        return None;
    }
    let links = b.find(&q_tag("a"));
    if links.len() == 0 {
        return None;
    }
    proof {
        assert(derefd(links@)[0] == *links@[0]);
    }
    let link = links[0];
    match link_id_exec(link) {
        None => None,
        Some(id) => {
            let name = link.text();
            Some((PublisherId(id), name))
        },
    }
}

} // verus!

verus! {

use crate::series::Series;
use crate::series::SeriesSearchResult;
use crate::strutil::{find_char_spec, has_prefix, str_starts_with, find_char};
use crate::transport::Transport;
use crate::dom::elems_only;
use crate::endpoints::category_url;

// ---------------------------------------------------------------------------
// The combined year/rating block of a search entry.
// ---------------------------------------------------------------------------
/// Decoding of a combined `year - rating` text: the text before the first
/// hyphen (less the character just before it) is the year; the rest (or,
/// with no hyphen, the whole text) holds the rating before a slash (less
/// the character just before it); with neither separator, non-blank text
/// is the year itself, trimmed.
pub open spec fn spec_year_rating(t: Seq<char>) -> (Option<Seq<char>>, Option<Seq<char>>) {
    let year0: Option<Seq<char>> = match find_char_spec(t, '-') {
        Some(p) => Some(t.subrange(0, if p >= 1 { p - 1 } else { 0 })),
        None => None,
    };
    let rest: Seq<char> = match find_char_spec(t, '-') {
        Some(p) => trim_spec(t.subrange(p + 1, t.len() as int)),
        None => t,
    };
    match find_char_spec(rest, '/') {
        Some(q) => (year0, Some(rest.subrange(0, if q >= 1 { q - 1 } else { 0 }))),
        None => (
            if year0 is None && rest.len() > 0 {
                Some(trim_spec(rest))
            } else {
                year0
            },
            None,
        ),
    }
}

pub fn parse_year_and_rating(node: &DomNode) -> (r: (Option<String>, Option<String>))
    ensures
        opt_str(r.0) == spec_year_rating(text_of(*node)).0,
        opt_str(r.1) == spec_year_rating(text_of(*node)).1,
{
    let text = node.text();
    let s: &str = text.as_str();
    let n: usize = s.unicode_len();
    let mut year: Option<String> = None;
    let rest: &str;
    match find_char(s, '-') {
        Some(p) => {
            let cut: usize = if p >= 1 {
                p - 1
            } else {
                0
            };
            year = Some(String::from_str(s.substring_char(0, cut)));
            rest = trim(s.substring_char(p + 1, n));
        },
        None => {
            rest = s;
        },
    }
    match find_char(rest, '/') {
        Some(q) => {
            let cut: usize = if q >= 1 {
                q - 1
            } else {
                0
            };
            let rating = Some(String::from_str(rest.substring_char(0, cut)));
            (year, rating)
        },
        None => {
            if rest.unicode_len() > 0 && year.is_none() {
                year = Some(String::from_str(trim(rest)));
            }
            (year, None)
        },
    }
}

// ---------------------------------------------------------------------------
// Paired-children decoders: repeating (link, annotation, separator) triples.
// ---------------------------------------------------------------------------
/// Triples with a link: stop before an incomplete pair or a link without
/// an identifier; the separator after each pair is discarded.
pub open spec fn related_items(s: Seq<DomNode>) -> Seq<(int, Seq<char>, Seq<char>)>
    decreases s.len(),
{
    if s.len() < 2 {
        Seq::empty()
    } else {
        match link_id(s[0]) {
            None => Seq::empty(),
            Some(id) => seq![(id, text_of(s[0]), text_of(s[1]))] + (if s.len() >= 3 {
                related_items(s.subrange(3, s.len() as int))
            } else {
                Seq::empty()
            }),
        }
    }
}

pub open spec fn spec_related(b: DomNode) -> Seq<(int, Seq<char>, Seq<char>)> {
    if sentinel_block(b) {
        Seq::empty()
    } else {
        related_items(children_of(b))
    }
}

pub fn parse_related(b: &DomNode) -> (r: Vec<(SeriesId, String, String)>)
    ensures
        rel_view(r@) == spec_related(*b),
{
    let mut r: Vec<(SeriesId, String, String)> = Vec::new();
    if is_sentinel_block(b) {
        proof {
            assert(rel_view(r@) =~= Seq::<(int, Seq<char>, Seq<char>)>::empty());
        }
        return r;
    }
    let count = b.child_count();
    let ghost cs = children_of(*b);
    let mut i: usize = 0;
    proof {
        assert(cs.subrange(0, count as int) =~= cs);
        assert(rel_view(r@) + related_items(cs) =~= related_items(cs));
    }
    while count - i >= 2
        invariant
            i <= count,
            count == cs.len(),
            cs == children_of(*b),
            !sentinel_block(*b),
            related_items(cs) == rel_view(r@) + related_items(cs.subrange(i as int, count as int)),
        decreases count - i,
    {
        proof {
            assert(cs.subrange(i as int, count as int)[0] == cs[i as int]);
            assert(cs.subrange(i as int, count as int)[1] == cs[i as int + 1]);
            if count - i >= 3 {
                assert(cs.subrange(i as int, count as int).subrange(3, (count - i) as int)
                    =~= cs.subrange(i as int + 3, count as int));
            }
        }
        let link = b.child(i);
        let ghost prev = r@;
        match link_id_exec(link) {
            None => {
                proof {
                    assert(related_items(cs.subrange(i as int, count as int)) =~= Seq::<
                        (int, Seq<char>, Seq<char>),
                    >::empty());
                    assert(rel_view(r@) + Seq::<(int, Seq<char>, Seq<char>)>::empty()
                        =~= rel_view(r@));
                }
                return r;
            },
            Some(id) => {
                let name = link.text();
                let extra = b.child(i + 1).text();
                r.push((SeriesId(id), name, extra));
                proof {
                    let item = (id as int, text_of(cs[i as int]), text_of(cs[i as int + 1]));
                    assert(rel_view(r@) =~= rel_view(prev) + seq![item]);
                    if count - i >= 3 {
                        assert(rel_view(r@) + related_items(cs.subrange(i as int + 3, count as int))
                            =~= rel_view(prev) + related_items(
                            cs.subrange(i as int, count as int),
                        ));
                    } else {
                        assert(related_items(cs.subrange(i as int, count as int)) =~= seq![item]);
                        assert(rel_view(r@) + related_items(cs.subrange(count as int, count as int))
                            =~= rel_view(prev) + related_items(
                            cs.subrange(i as int, count as int),
                        ));
                    }
                }
            },
        }
        if count - i >= 3 {
            i += 3;
        } else {
            i = count;
        }
    }
    proof {
        assert(related_items(cs.subrange(i as int, count as int)) =~= Seq::<
            (int, Seq<char>, Seq<char>),
        >::empty());
        assert(rel_view(r@) + Seq::<(int, Seq<char>, Seq<char>)>::empty() =~= rel_view(r@));
    }
    r
}

/// Triples without a link: venue name and trimmed annotation.
pub open spec fn ser_items(s: Seq<DomNode>) -> Seq<(Seq<char>, Seq<char>)>
    decreases s.len(),
{
    if s.len() < 2 {
        Seq::empty()
    } else {
        seq![(text_of(s[0]), trim_spec(text_of(s[1])))] + (if s.len() >= 3 {
            ser_items(s.subrange(3, s.len() as int))
        } else {
            Seq::empty()
        })
    }
}

pub open spec fn spec_serialized(b: DomNode) -> Seq<(Seq<char>, Seq<char>)> {
    if sentinel_block(b) {
        Seq::empty()
    } else {
        ser_items(children_of(b))
    }
}

pub fn parse_serialized_in(b: &DomNode) -> (r: Vec<(String, String)>)
    ensures
        ser_view(r@) == spec_serialized(*b),
{
    let mut r: Vec<(String, String)> = Vec::new();
    if is_sentinel_block(b) {
        proof {
            assert(ser_view(r@) =~= Seq::<(Seq<char>, Seq<char>)>::empty());
        }
        return r;
    }
    let count = b.child_count();
    let ghost cs = children_of(*b);
    let mut i: usize = 0;
    proof {
        assert(cs.subrange(0, count as int) =~= cs);
        assert(ser_view(r@) + ser_items(cs) =~= ser_items(cs));
    }
    while count - i >= 2
        invariant
            i <= count,
            count == cs.len(),
            cs == children_of(*b),
            !sentinel_block(*b),
            ser_items(cs) == ser_view(r@) + ser_items(cs.subrange(i as int, count as int)),
        decreases count - i,
    {
        proof {
            assert(cs.subrange(i as int, count as int)[0] == cs[i as int]);
            assert(cs.subrange(i as int, count as int)[1] == cs[i as int + 1]);
            if count - i >= 3 {
                assert(cs.subrange(i as int, count as int).subrange(3, (count - i) as int)
                    =~= cs.subrange(i as int + 3, count as int));
            }
        }
        let ghost prev = r@;
        let name = b.child(i).text();
        let extra = b.child(i + 1).text();
        let note = String::from_str(trim(extra.as_str()));
        r.push((name, note));
        proof {
            let item = (text_of(cs[i as int]), trim_spec(text_of(cs[i as int + 1])));
            assert(ser_view(r@) =~= ser_view(prev) + seq![item]);
            if count - i >= 3 {
                assert(ser_view(r@) + ser_items(cs.subrange(i as int + 3, count as int))
                    =~= ser_view(prev) + ser_items(cs.subrange(i as int, count as int)));
            } else {
                assert(ser_items(cs.subrange(i as int, count as int)) =~= seq![item]);
                assert(ser_view(r@) + ser_items(cs.subrange(count as int, count as int))
                    =~= ser_view(prev) + ser_items(cs.subrange(i as int, count as int)));
            }
        }
        if count - i >= 3 {
            i += 3;
        } else {
            i = count;
        }
    }
    proof {
        assert(ser_items(cs.subrange(i as int, count as int)) =~= Seq::<
            (Seq<char>, Seq<char>),
        >::empty());
        assert(ser_view(r@) + Seq::<(Seq<char>, Seq<char>)>::empty() =~= ser_view(r@));
    }
    r
}

/// Triples with a link and an optional note: the note is absent when its
/// trimmed text is blank.
pub open spec fn epub_items(s: Seq<DomNode>) -> Seq<(int, Seq<char>, Option<Seq<char>>)>
    decreases s.len(),
{
    if s.len() < 2 {
        Seq::empty()
    } else {
        match link_id(s[0]) {
            None => Seq::empty(),
            Some(id) => seq![
                (
                    id,
                    text_of(s[0]),
                    if trim_spec(text_of(s[1])).len() == 0 {
                        None
                    } else {
                        Some(trim_spec(text_of(s[1])))
                    },
                ),
            ] + (if s.len() >= 3 {
                epub_items(s.subrange(3, s.len() as int))
            } else {
                Seq::empty()
            }),
        }
    }
}

pub open spec fn spec_english_publisher(b: DomNode) -> Seq<(int, Seq<char>, Option<Seq<char>>)> {
    if sentinel_block(b) {
        Seq::empty()
    } else {
        epub_items(children_of(b))
    }
}

pub fn parse_english_publisher(b: &DomNode) -> (r: Vec<(PublisherId, String, Option<String>)>)
    ensures
        pub_view(r@) == spec_english_publisher(*b),
{
    let mut r: Vec<(PublisherId, String, Option<String>)> = Vec::new();
    if is_sentinel_block(b) {
        proof {
            assert(pub_view(r@) =~= Seq::<(int, Seq<char>, Option<Seq<char>>)>::empty());
        }
        return r;
    }
    let count = b.child_count();
    let ghost cs = children_of(*b);
    let mut i: usize = 0;
    proof {
        assert(cs.subrange(0, count as int) =~= cs);
        assert(pub_view(r@) + epub_items(cs) =~= epub_items(cs));
    }
    while count - i >= 2
        invariant
            i <= count,
            count == cs.len(),
            cs == children_of(*b),
            !sentinel_block(*b),
            epub_items(cs) == pub_view(r@) + epub_items(cs.subrange(i as int, count as int)),
        decreases count - i,
    {
        proof {
            assert(cs.subrange(i as int, count as int)[0] == cs[i as int]);
            assert(cs.subrange(i as int, count as int)[1] == cs[i as int + 1]);
            if count - i >= 3 {
                assert(cs.subrange(i as int, count as int).subrange(3, (count - i) as int)
                    =~= cs.subrange(i as int + 3, count as int));
            }
        }
        let link = b.child(i);
        let ghost prev = r@;
        match link_id_exec(link) {
            None => {
                proof {
                    assert(epub_items(cs.subrange(i as int, count as int)) =~= Seq::<
                        (int, Seq<char>, Option<Seq<char>>),
                    >::empty());
                    assert(pub_view(r@) + Seq::<(int, Seq<char>, Option<Seq<char>>)>::empty()
                        =~= pub_view(r@));
                }
                return r;
            },
            Some(id) => {
                let name = link.text();
                let extra = b.child(i + 1).text();
                let trimmed = trim(extra.as_str());
                let note: Option<String> = if trimmed.unicode_len() == 0 {
                    None
                } else {
                    Some(String::from_str(trimmed))
                };
                r.push((PublisherId(id), name, note));
                proof {
                    let item = (
                        id as int,
                        text_of(cs[i as int]),
                        if trim_spec(text_of(cs[i as int + 1])).len() == 0 {
                            None::<Seq<char>>
                        } else {
                            Some(trim_spec(text_of(cs[i as int + 1])))
                        },
                    );
                    assert(pub_view(r@) =~= pub_view(prev) + seq![item]);
                    if count - i >= 3 {
                        assert(pub_view(r@) + epub_items(cs.subrange(i as int + 3, count as int))
                            =~= pub_view(prev) + epub_items(cs.subrange(i as int, count as int)));
                    } else {
                        assert(epub_items(cs.subrange(i as int, count as int)) =~= seq![item]);
                        assert(pub_view(r@) + epub_items(cs.subrange(count as int, count as int))
                            =~= pub_view(prev) + epub_items(cs.subrange(i as int, count as int)));
                    }
                }
            },
        }
        if count - i >= 3 {
            i += 3;
        } else {
            i = count;
        }
    }
    proof {
        assert(epub_items(cs.subrange(i as int, count as int)) =~= Seq::<
            (int, Seq<char>, Option<Seq<char>>),
        >::empty());
        assert(pub_view(r@) + Seq::<(int, Seq<char>, Option<Seq<char>>)>::empty() =~= pub_view(r@));
    }
    r
}

} // verus!

verus! {

// ---------------------------------------------------------------------------
// Recommendations: links collected with script-pseudo-links skipped.
// ---------------------------------------------------------------------------
pub open spec fn rec_items(s: Seq<DomNode>) -> Seq<(int, Seq<char>)>
    decreases s.len(),
{
    if s.len() == 0 {
        Seq::empty()
    } else {
        match attr_of(s[0], "href"@) {
            None => Seq::empty(),
            Some(h) => if has_prefix(h, "javascript"@) {
                rec_items(s.subrange(1, s.len() as int))
            } else {
                match crate::spec_get_id(h) {
                    None => Seq::empty(),
                    Some(id) => seq![(id, text_of(s[0]))] + rec_items(s.subrange(1, s.len() as int)),
                }
            },
        }
    }
}

/// General recommendations: the placeholder yields nothing; a hidden
/// expansion container is preferred over the block itself when present.
pub open spec fn spec_recommendations(b: DomNode) -> Seq<(int, Seq<char>)> {
    if sentinel_block(b) {
        Seq::empty()
    } else {
        let mores = find_in(b, QuerySpec::AttrIs("id"@, "div_recom_more"@));
        rec_items(
            find_in(
                if mores.len() > 0 {
                    mores[0]
                } else {
                    b
                },
                QuerySpec::Tag("a"@),
            ),
        )
    }
}

pub fn parse_recommendations(b: &DomNode) -> (r: Vec<(SeriesId, String)>)
    ensures
        sid_pairs_view(r@) == spec_recommendations(*b),
{
    let mut r: Vec<(SeriesId, String)> = Vec::new();
    if is_sentinel_block(b) {
        proof {
            assert(sid_pairs_view(r@) =~= Seq::<(int, Seq<char>)>::empty());
        }
        return r;
    }
    let mores = b.find(&q_attr("id", "div_recom_more"));
    let container: &DomNode = if mores.len() > 0 {
        proof {
            assert(derefd(mores@)[0] == *mores@[0]);
        }
        mores[0]
    } else {
        b
    };
    let links = container.find(&q_tag("a"));
    let ghost ls = derefd(links@);
    let count = links.len();
    let mut i: usize = 0;
    proof {
        assert(ls.subrange(0, count as int) =~= ls);
        assert(sid_pairs_view(r@) + rec_items(ls) =~= rec_items(ls));
    }
    while i < count
        invariant
            i <= count,
            count == links@.len(),
            ls == derefd(links@),
            !sentinel_block(*b),
            ls == find_in(
                if find_in(*b, QuerySpec::AttrIs("id"@, "div_recom_more"@)).len() > 0 {
                    find_in(*b, QuerySpec::AttrIs("id"@, "div_recom_more"@))[0]
                } else {
                    *b
                },
                QuerySpec::Tag("a"@),
            ),
            rec_items(ls) == sid_pairs_view(r@) + rec_items(ls.subrange(i as int, count as int)),
        decreases count - i,
    {
        proof {
            assert(ls[i as int] == *links@[i as int]);
            assert(ls.subrange(i as int, count as int)[0] == ls[i as int]);
            assert(ls.subrange(i as int, count as int).subrange(1, (count - i) as int)
                =~= ls.subrange(i as int + 1, count as int));
        }
        let link = links[i];
        let ghost prev = r@;
        let href = match link.attr("href") {
            Some(h) => h,
            None => {
                proof {
                    assert(rec_items(ls.subrange(i as int, count as int)) =~= Seq::<
                        (int, Seq<char>),
                    >::empty());
                    assert(sid_pairs_view(r@) + Seq::<(int, Seq<char>)>::empty()
                        =~= sid_pairs_view(r@));
                }
                return r;
            },
        };
        if !str_starts_with(href.as_str(), "javascript") {
            match crate::get_id(Some(href.as_str())) {
                None => {
                    proof {
                        assert(rec_items(ls.subrange(i as int, count as int)) =~= Seq::<
                            (int, Seq<char>),
                        >::empty());
                        assert(sid_pairs_view(r@) + Seq::<(int, Seq<char>)>::empty()
                            =~= sid_pairs_view(r@));
                    }
                    return r;
                },
                Some(id) => {
                    let name = link.text();
                    r.push((SeriesId(id), name));
                    proof {
                        let item = (id as int, text_of(ls[i as int]));
                        assert(sid_pairs_view(r@) =~= sid_pairs_view(prev) + seq![item]);
                        assert(sid_pairs_view(r@) + rec_items(
                            ls.subrange(i as int + 1, count as int),
                        ) =~= sid_pairs_view(prev) + rec_items(
                            ls.subrange(i as int, count as int),
                        ));
                    }
                },
            }
        }
        i += 1;
    }
    proof {
        assert(ls.subrange(count as int, count as int).len() == 0);
        assert(sid_pairs_view(r@) + Seq::<(int, Seq<char>)>::empty() =~= sid_pairs_view(r@));
    }
    r
}

// ---------------------------------------------------------------------------
// Categories: the one decoder with a secondary fetch.
// ---------------------------------------------------------------------------
/// The category names in a fetched fragment: every link's text, skipping
/// blank text and script-pseudo-links, stopping at a link with no target.
pub open spec fn cat_items(s: Seq<DomNode>) -> Seq<Seq<char>>
    decreases s.len(),
{
    if s.len() == 0 {
        Seq::empty()
    } else {
        let t = text_of(s[0]);
        if trim_spec(t).len() == 0 {
            cat_items(s.subrange(1, s.len() as int))
        } else {
            match attr_of(s[0], "href"@) {
                None => Seq::empty(),
                Some(h) => if has_prefix(h, "javascript"@) {
                    cat_items(s.subrange(1, s.len() as int))
                } else {
                    seq![t] + cat_items(s.subrange(1, s.len() as int))
                },
            }
        }
    }
}

pub open spec fn spec_categories_of(frag: DomNode) -> Seq<Seq<char>> {
    cat_items(find_in(frag, QuerySpec::Tag("a"@)))
}

/// Collects the category names of an already-fetched fragment.
pub fn collect_categories(frag: &DomNode) -> (r: Vec<String>)
    ensures
        strs_view(r@) == spec_categories_of(*frag),
{
    let links = frag.find(&q_tag("a"));
    let ghost ls = derefd(links@);
    let count = links.len();
    let mut r: Vec<String> = Vec::new();
    let mut i: usize = 0;
    proof {
        assert(ls.subrange(0, count as int) =~= ls);
        assert(strs_view(r@) + cat_items(ls) =~= cat_items(ls));
    }
    while i < count
        invariant
            i <= count,
            count == links@.len(),
            ls == derefd(links@),
            ls == find_in(*frag, QuerySpec::Tag("a"@)),
            cat_items(ls) == strs_view(r@) + cat_items(ls.subrange(i as int, count as int)),
        decreases count - i,
    {
        proof {
            assert(ls[i as int] == *links@[i as int]);
            assert(ls.subrange(i as int, count as int)[0] == ls[i as int]);
            assert(ls.subrange(i as int, count as int).subrange(1, (count - i) as int)
                =~= ls.subrange(i as int + 1, count as int));
        }
        let link = links[i];
        let ghost prev = r@;
        let text = link.text();
        if trim(text.as_str()).unicode_len() > 0 {
            let href = match link.attr("href") {
                Some(h) => h,
                None => {
                    proof {
                        assert(cat_items(ls.subrange(i as int, count as int)) =~= Seq::<
                            Seq<char>,
                        >::empty());
                        assert(strs_view(r@) + Seq::<Seq<char>>::empty() =~= strs_view(r@));
                    }
                    return r;
                },
            };
            if !str_starts_with(href.as_str(), "javascript") {
                r.push(text);
                proof {
                    let item = text_of(ls[i as int]);
                    assert(strs_view(r@) =~= strs_view(prev) + seq![item]);
                    assert(strs_view(r@) + cat_items(ls.subrange(i as int + 1, count as int))
                        =~= strs_view(prev) + cat_items(ls.subrange(i as int, count as int)));
                }
            }
        }
        i += 1;
    }
    proof {
        assert(ls.subrange(count as int, count as int).len() == 0);
        assert(strs_view(r@) + Seq::<Seq<char>>::empty() =~= strs_view(r@));
    }
    r
}

/// The category block: the placeholder yields no categories and no fetch;
/// otherwise one fragment is fetched through the transport, keyed by the
/// record's identifier, and its links supply the names. Nothing is assumed
/// of the fetched tree: whatever comes back, the result is the collection
/// `spec_categories_of` names on it.
pub fn parse_categories<T: Transport>(client: &T, b: &DomNode, id: SeriesId) -> (r: Vec<String>)
    ensures
        sentinel_block(*b) ==> r@ == Seq::<String>::empty(),
        !sentinel_block(*b) ==> (exists|frag: DomNode|
            strs_view(r@) == spec_categories_of(frag)),
{
    if is_sentinel_block(b) {
        let r: Vec<String> = Vec::new();
        proof {
            assert(r@ =~= Seq::<String>::empty());
        }
        return r;
    }
    let url = category_url(id.0);
    let frag = client.get(url.as_str());
    let r = collect_categories(&frag);
    proof {
        assert(strs_view(r@) == spec_categories_of(frag));
    }
    r
}

} // verus!

verus! {

// ---------------------------------------------------------------------------
// The two column decoders of a series page: one content block per field,
// consumed in strict positional order.
// ---------------------------------------------------------------------------
/// The content blocks of a column, in document order.
pub open spec fn col_blocks(col: DomNode) -> Seq<DomNode> {
    find_in(col, QuerySpec::Class("sContent"@))
}

/// What the first column's blocks say of a record's narrative and
/// relational fields. One block among them (rendered latest-release data)
/// is consumed and never exposed.
pub open spec fn col1_fields_ok(s: Series, col: DomNode) -> bool {
    let blocks = col_blocks(col);
    &&& opt_str(s.description) == spec_description(blocks[0])
    &&& opt_str(s.ty) == spec_trimmed_text(blocks[1])
    &&& rel_view(s.related_series@) == spec_related(blocks[2])
    &&& strs_view(s.associated_names@) == spec_associated_names(blocks[3])
    &&& gid_pairs_view(s.groups_scanlating@) == spec_scanlating(blocks[4])
    &&& strs_view(s.status_in_coo@) == spec_status_lines(blocks[6])
    &&& s.completely_scanlated == spec_yes_flag(blocks[7])
    &&& strs_view(s.anime_start_end@) == spec_status_lines(blocks[8])
}

/// The fields the first column's decoder leaves alone.
pub open spec fn col1_others_kept(a: Series, b: Series) -> bool {
    &&& a.id == b.id
    &&& a.title == b.title
    &&& a.image == b.image
    &&& a.genre == b.genre
    &&& a.categories == b.categories
    &&& a.category_recommendations == b.category_recommendations
    &&& a.recommendations == b.recommendations
    &&& a.authors == b.authors
    &&& a.artists == b.artists
    &&& a.year == b.year
    &&& a.original_publisher == b.original_publisher
    &&& a.serialized_in == b.serialized_in
    &&& a.licensed == b.licensed
    &&& a.english_publisher == b.english_publisher
}

pub fn parse_col_1(col: &DomNode, series: &mut Series) -> (r: Option<()>)
    ensures
        r is Some <==> col_blocks(*col).len() >= 9,
        r is Some ==> col1_fields_ok(*final(series), *col),
        col1_others_kept(*final(series), *old(series)),
{
    let blocks = col.find(&q_class("sContent"));
    proof {
        assert forall|k: int| 0 <= k < blocks@.len() implies derefd(blocks@)[k]
            == *blocks@[k] by {}
    }
    if blocks.len() < 9 {
        return None;
    }
    series.description = parse_description(blocks[0]);
    series.ty = parse_type_tag(blocks[1]);
    series.related_series = parse_related(blocks[2]);
    series.associated_names = parse_associated_names(blocks[3]);
    series.groups_scanlating = parse_scanlating(blocks[4]);
    series.status_in_coo = parse_status_lines(blocks[6]);
    series.completely_scanlated = parse_yes_flag(blocks[7]);
    series.anime_start_end = parse_status_lines(blocks[8]);
    Some(())
}

/// What the second column's blocks say of a record's classification and
/// attribution fields. Categories are pinned only where the block is the
/// placeholder: their values otherwise come through the transport.
pub open spec fn col2_fields_ok(s: Series, col: DomNode) -> bool {
    let blocks = col_blocks(col);
    &&& opt_str(s.image) == spec_image(blocks[0])
    &&& strs_view(s.genre@) == spec_genre(blocks[1])
    &&& (sentinel_block(blocks[2]) ==> s.categories@ == Seq::<String>::empty())
    &&& (!sentinel_block(blocks[2]) ==> (exists|frag: DomNode|
        strs_view(s.categories@) == spec_categories_of(frag)))
    &&& sid_pairs_view(s.category_recommendations@) == spec_category_recommendations(blocks[3])
    &&& sid_pairs_view(s.recommendations@) == spec_recommendations(blocks[4])
    &&& aid_pairs_view(s.authors@) == spec_authors(blocks[5])
    &&& aid_pairs_view(s.artists@) == spec_authors(blocks[6])
    &&& opt_str(s.year) == spec_year(blocks[7])
    &&& (match s.original_publisher {
        None => spec_original_publisher(blocks[8]) is None,
        Some(p) => spec_original_publisher(blocks[8]) == Some((p.0.0 as int, p.1@)),
    })
    &&& ser_view(s.serialized_in@) == spec_serialized(blocks[9])
    &&& s.licensed == spec_yes_flag(blocks[10])
    &&& pub_view(s.english_publisher@) == spec_english_publisher(blocks[11])
}

/// The fields the second column's decoder leaves alone.
pub open spec fn col2_others_kept(a: Series, b: Series) -> bool {
    &&& a.id == b.id
    &&& a.title == b.title
    &&& a.description == b.description
    &&& a.ty == b.ty
    &&& a.related_series == b.related_series
    &&& a.associated_names == b.associated_names
    &&& a.groups_scanlating == b.groups_scanlating
    &&& a.status_in_coo == b.status_in_coo
    &&& a.completely_scanlated == b.completely_scanlated
    &&& a.anime_start_end == b.anime_start_end
}

pub fn parse_col_2<T: Transport>(client: &T, col: &DomNode, series: &mut Series) -> (r: Option<()>)
    ensures
        r is Some <==> col_blocks(*col).len() >= 12,
        r is Some ==> col2_fields_ok(*final(series), *col),
        col2_others_kept(*final(series), *old(series)),
{
    let blocks = col.find(&q_class("sContent"));
    proof {
        assert forall|k: int| 0 <= k < blocks@.len() implies derefd(blocks@)[k]
            == *blocks@[k] by {}
    }
    if blocks.len() < 12 {
        return None;
    }
    series.image = parse_image(blocks[0]);
    series.genre = parse_genre(blocks[1]);
    let sid = series.id;
    series.categories = parse_categories(client, blocks[2], sid);
    series.category_recommendations = parse_category_recommendations(blocks[3]);
    series.recommendations = parse_recommendations(blocks[4]);
    series.authors = parse_authors(blocks[5]);
    series.artists = parse_artists(blocks[6]);
    series.year = parse_year(blocks[7]);
    series.original_publisher = parse_original_publisher(blocks[8]);
    series.serialized_in = parse_serialized_in(blocks[9]);
    series.licensed = parse_yes_flag(blocks[10]);
    series.english_publisher = parse_english_publisher(blocks[11]);
    Some(())
}

// ---------------------------------------------------------------------------
// The series-page decoder.
// ---------------------------------------------------------------------------
pub open spec fn title_nodes(doc: DomNode) -> Seq<DomNode> {
    find_in(doc, QuerySpec::Class("releasestitle"@))
}

pub open spec fn page_columns(doc: DomNode) -> Seq<DomNode> {
    find_in(doc, QuerySpec::Classes("col-6"@, "p-2"@))
}

/// The structural demands of a series page: a title node, two columns,
/// and each column with its full count of content blocks. Exactly the
/// pages meeting them produce a record; a record is never partial.
pub open spec fn series_page_ok(doc: DomNode) -> bool {
    &&& title_nodes(doc).len() > 0
    &&& page_columns(doc).len() >= 2
    &&& col_blocks(page_columns(doc)[0]).len() >= 9
    &&& col_blocks(page_columns(doc)[1]).len() >= 12
}

/// Decodes a series page into one record, fetching categories through the
/// injected transport when the page has any.
pub fn parse_series<T: Transport>(client: &T, doc: &DomNode, id: SeriesId) -> (r: Option<Series>)
    ensures
        r is Some <==> series_page_ok(*doc),
        match r {
            Some(s) => {
                &&& s.id == id
                &&& s.title@ == text_of(title_nodes(*doc)[0])
                &&& col1_fields_ok(s, page_columns(*doc)[0])
                &&& col2_fields_ok(s, page_columns(*doc)[1])
            },
            None => true,
        },
{
    let titles = doc.find(&q_class("releasestitle"));
    if titles.len() == 0 {
        return None;
    }
    proof {
        assert(derefd(titles@)[0] == *titles@[0]);
    }
    let title = titles[0].text();
    let cols = doc.find(&q_classes("col-6", "p-2"));
    if cols.len() < 2 {
        return None;
    }
    proof {
        assert(derefd(cols@)[0] == *cols@[0]);
        assert(derefd(cols@)[1] == *cols@[1]);
    }
    let mut series = Series {
        id,
        title,
        description: None,
        ty: None,
        related_series: Vec::new(),
        associated_names: Vec::new(),
        groups_scanlating: Vec::new(),
        status_in_coo: Vec::new(),
        completely_scanlated: false,
        anime_start_end: Vec::new(),
        image: None,
        genre: Vec::new(),
        categories: Vec::new(),
        category_recommendations: Vec::new(),
        recommendations: Vec::new(),
        authors: Vec::new(),
        artists: Vec::new(),
        year: None,
        original_publisher: None,
        serialized_in: Vec::new(),
        licensed: false,
        english_publisher: Vec::new(),
    };
    match parse_col_1(cols[0], &mut series) {
        Some(_) => {},
        None => {
            return None;
        },
    }
    match parse_col_2(client, cols[1], &mut series) {
        Some(_) => {},
        None => {
            return None;
        },
    }
    Some(series)
}

// ---------------------------------------------------------------------------
// The search-results decoder.
// ---------------------------------------------------------------------------
/// What one result container yields: identifier, title, optional
/// description, image, year and rating — or nothing, when a sub-block the
/// layout expects is missing, in which case the container is skipped.
pub open spec fn spec_search_entry(c: DomNode) -> Option<
    (int, Seq<char>, Option<Seq<char>>, Option<Seq<char>>, Option<Seq<char>>, Option<Seq<char>>),
> {
    let imgs = find_in(c, QuerySpec::Tag("img"@));
    let image = if imgs.len() == 0 {
        None
    } else {
        attr_of(imgs[0], "src"@)
    };
    let flexes = find_in(c, QuerySpec::Class("flex-column"@));
    if flexes.len() == 0 {
        None
    } else {
        let data = elems_only(children_of(flexes[0]));
        if data.len() < 4 {
            None
        } else {
            let anchors = find_in(data[0], QuerySpec::Tag("a"@));
            if anchors.len() == 0 {
                None
            } else {
                match link_id(anchors[0]) {
                    None => None,
                    Some(id) => {
                        let title = text_of(data[0]);
                        let desc_raw = text_of(data[2]);
                        let desc = if trim_spec(desc_raw) == "N/A"@ || desc_raw.len() == 0 {
                            None
                        } else {
                            Some(desc_raw)
                        };
                        let yr = spec_year_rating(text_of(data[3]));
                        Some((id, title, desc, image, yr.0, yr.1))
                    },
                }
            }
        }
    }
}

pub open spec fn ssr_view(r: SeriesSearchResult) -> (
    int,
    Seq<char>,
    Option<Seq<char>>,
    Option<Seq<char>>,
    Option<Seq<char>>,
    Option<Seq<char>>,
) {
    (r.id.0 as int, r.title@, opt_str(r.description), opt_str(r.image), opt_str(r.year), opt_str(
        r.rating,
    ))
}

pub open spec fn results_view(v: Seq<SeriesSearchResult>) -> Seq<
    (int, Seq<char>, Option<Seq<char>>, Option<Seq<char>>, Option<Seq<char>>, Option<Seq<char>>),
> {
    v.map_values(|x: SeriesSearchResult| ssr_view(x))
}

/// The entries of a whole page, container by container, skipping the ones
/// that yield nothing.
pub open spec fn spec_search_results(cs: Seq<DomNode>) -> Seq<
    (int, Seq<char>, Option<Seq<char>>, Option<Seq<char>>, Option<Seq<char>>, Option<Seq<char>>),
>
    decreases cs.len(),
{
    if cs.len() == 0 {
        Seq::empty()
    } else {
        (match spec_search_entry(cs[0]) {
            Some(t) => seq![t],
            None => Seq::empty(),
        }) + spec_search_results(cs.subrange(1, cs.len() as int))
    }
}

fn parse_search_entry(c: &DomNode) -> (r: Option<SeriesSearchResult>)
    ensures
        match r {
            Some(res) => spec_search_entry(*c) == Some(ssr_view(res)),
            None => spec_search_entry(*c) is None,
        },
{
    let imgs = c.find(&q_tag("img"));
    let image: Option<String> = if imgs.len() == 0 {
        None
    } else {
        proof {
            assert(derefd(imgs@)[0] == *imgs@[0]);
        }
        imgs[0].attr("src")
    };
    let flexes = c.find(&q_class("flex-column"));
    if flexes.len() == 0 {
        return None;
    }
    proof {
        assert(derefd(flexes@)[0] == *flexes@[0]);
    }
    let data = flexes[0].elem_children();
    if data.len() < 4 {
        return None;
    }
    proof {
        assert(derefd(data@)[0] == *data@[0]);
        assert(derefd(data@)[2] == *data@[2]);
        assert(derefd(data@)[3] == *data@[3]);
    }
    let anchors = data[0].find(&q_tag("a"));
    if anchors.len() == 0 {
        return None;
    }
    proof {
        assert(derefd(anchors@)[0] == *anchors@[0]);
    }
    let id = match link_id_exec(anchors[0]) {
        Some(id) => id,
        None => {
            return None;
        },
    };
    let title = data[0].text();
    let desc_raw = data[2].text();
    let description: Option<String> = if str_eq(trim(desc_raw.as_str()), "N/A")
        || desc_raw.unicode_len() == 0 {
        None
    } else {
        Some(desc_raw)
    };
    let (year, rating) = parse_year_and_rating(data[3]);
    Some(
        SeriesSearchResult {
            id: SeriesId(id),
            title,
            description,
            image,
            year,
            rating,
        },
    )
}

/// Decodes a search-results page: one summary per result container, in
/// page order, each container best-effort.
pub fn parse_search_results(doc: &DomNode) -> (r: Vec<SeriesSearchResult>)
    ensures
        results_view(r@) == spec_search_results(
            find_in(*doc, QuerySpec::Class("col-lg-6"@)),
        ),
{
    let containers = doc.find(&q_class("col-lg-6"));
    let ghost cs = derefd(containers@);
    let count = containers.len();
    let mut r: Vec<SeriesSearchResult> = Vec::new();
    let mut i: usize = 0;
    proof {
        assert(cs.subrange(0, count as int) =~= cs);
        assert(results_view(r@) + spec_search_results(cs) =~= spec_search_results(cs));
    }
    while i < count
        invariant
            i <= count,
            count == containers@.len(),
            cs == derefd(containers@),
            cs == find_in(*doc, QuerySpec::Class("col-lg-6"@)),
            spec_search_results(cs) == results_view(r@) + spec_search_results(
                cs.subrange(i as int, count as int),
            ),
        decreases count - i,
    {
        proof {
            assert(cs[i as int] == *containers@[i as int]);
            assert(cs.subrange(i as int, count as int)[0] == cs[i as int]);
            assert(cs.subrange(i as int, count as int).subrange(1, (count - i) as int)
                =~= cs.subrange(i as int + 1, count as int));
        }
        let ghost prev = r@;
        match parse_search_entry(containers[i]) {
            Some(res) => {
                let ghost item = ssr_view(res);
                r.push(res);
                proof {
                    assert(results_view(r@) =~= results_view(prev) + seq![item]);
                    assert(results_view(r@) + spec_search_results(
                        cs.subrange(i as int + 1, count as int),
                    ) =~= results_view(prev) + spec_search_results(
                        cs.subrange(i as int, count as int),
                    ));
                }
            },
            None => {
                proof {
                    assert(results_view(r@) + spec_search_results(
                        cs.subrange(i as int + 1, count as int),
                    ) =~= results_view(prev) + spec_search_results(
                        cs.subrange(i as int, count as int),
                    ));
                }
            },
        }
        i += 1;
    }
    proof {
        assert(cs.subrange(count as int, count as int).len() == 0);
        assert(results_view(r@) + Seq::<
            (int, Seq<char>, Option<Seq<char>>, Option<Seq<char>>, Option<Seq<char>>, Option<
                Seq<char>,
            >),
        >::empty() =~= results_view(r@));
    }
    r
}

} // verus!
