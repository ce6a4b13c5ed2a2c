//! The laws the extraction engine obeys, stated and proved over the spec
//! functions that the decoders' contracts use.
use vstd::prelude::*;

use crate::dom::{find_in, text_of, DomNode, QuerySpec};
use crate::parsing::{
    col1_fields_ok, col2_fields_ok, page_columns, related_items, results_view, sentinel_block,
    ser_items, spec_associated_names, spec_authors, spec_category_recommendations,
    spec_description, spec_english_publisher, spec_genre, spec_original_publisher,
    spec_recommendations, spec_related, spec_scanlating, spec_search_results, spec_serialized,
    spec_status_lines, spec_trimmed_text, spec_year, spec_yes_flag, texts_list, title_nodes,
    link_id, col_blocks, series_page_ok, strs_view,
};
use crate::series::{Series, SeriesId, SeriesSearchResult};
use crate::strutil::{
    all_digits, digits_val, find_sub_spec, is_digit, opt_str, trim_spec, has_prefix,
    unsigned_part,
};
use crate::spec_get_id;

verus! {

// ---------------------------------------------------------------------------
// Identifier extraction.
// ---------------------------------------------------------------------------
/// A target whose whole suffix after the first `id=` marker is a digit
/// string within machine range yields exactly that number.
pub proof fn lemma_get_id_digit_suffix(u: Seq<char>, p: int)
    requires
        find_sub_spec(u, "id="@) == Some(p),
        u.subrange(p + "id="@.len(), u.len() as int).len() > 0,
        all_digits(u.subrange(p + "id="@.len(), u.len() as int)),
        digits_val(u.subrange(p + "id="@.len(), u.len() as int)) <= usize::MAX,
    ensures
        spec_get_id(u) == Some(digits_val(u.subrange(p + "id="@.len(), u.len() as int)) as int),
{
    let rest = u.subrange(p + "id="@.len(), u.len() as int);
    assert(is_digit(rest[0]));
    assert(rest[0] != '+');
    assert(unsigned_part(rest) == rest);
}

/// A suffix written with one leading plus sign and then digits yields the
/// digits' value, as the underlying numeric parse accepts the sign.
pub proof fn lemma_get_id_plus_digit_suffix(u: Seq<char>, p: int)
    requires
        find_sub_spec(u, "id="@) == Some(p),
        u.subrange(p + "id="@.len(), u.len() as int).len() > 1,
        u.subrange(p + "id="@.len(), u.len() as int)[0] == '+',
        all_digits(unsigned_part(u.subrange(p + "id="@.len(), u.len() as int))),
        digits_val(unsigned_part(u.subrange(p + "id="@.len(), u.len() as int))) <= usize::MAX,
    ensures
        spec_get_id(u) == Some(
            digits_val(unsigned_part(u.subrange(p + "id="@.len(), u.len() as int))) as int,
        ),
{
}

/// A target whose suffix after the first `id=` marker is exactly `42`
/// yields the identifier of that value.
pub proof fn lemma_get_id_forty_two(u: Seq<char>, p: int)
    requires
        find_sub_spec(u, "id="@) == Some(p),
        u.subrange(p + "id="@.len(), u.len() as int) == "42"@,
    ensures
        spec_get_id(u) == Some(42int),
{
    reveal_strlit("id=");
    reveal_strlit("42");
    let rest = u.subrange(p + 3, u.len() as int);
    assert(rest =~= "42"@);
    assert(rest.len() == 2);
    assert(rest[0] == '4' && rest[1] == '2');
    assert(unsigned_part(rest) == rest);
    assert(is_digit('4') && is_digit('2'));
    assert(digits_val(rest) == 42) by {
        reveal_with_fuel(digits_val, 3);
        assert(rest.drop_last() =~= seq!['4']);
        assert(seq!['4'].drop_last() =~= Seq::<char>::empty());
        assert(digits_val(seq!['4']) == 4);
    }
}

/// A target without the `id=` marker yields no identifier.
pub proof fn lemma_get_id_no_marker(u: Seq<char>)
    requires
        find_sub_spec(u, "id="@) is None,
    ensures
        spec_get_id(u) is None,
{
}

/// A target whose suffix after the first `id=` marker holds, past one
/// optional leading plus sign, any non-digit yields no identifier.
pub proof fn lemma_get_id_non_numeric(u: Seq<char>, p: int, j: int)
    requires
        find_sub_spec(u, "id="@) == Some(p),
        0 <= j < unsigned_part(u.subrange(p + "id="@.len(), u.len() as int)).len(),
        !is_digit(unsigned_part(u.subrange(p + "id="@.len(), u.len() as int))[j]),
    ensures
        spec_get_id(u) is None,
{
    assert(!all_digits(unsigned_part(u.subrange(p + "id="@.len(), u.len() as int))));
}

// ---------------------------------------------------------------------------
// Sentinel detection.
// ---------------------------------------------------------------------------
/// A block whose trimmed text is exactly the placeholder yields every
/// field's empty representation — an empty collection, an absent scalar,
/// or `false` — whatever markup the block nests. The status-line decoders
/// compare the block's untrimmed text, so their clauses ask for the exact
/// placeholder.
pub proof fn lemma_sentinel_yields_empty(b: DomNode)
    requires
        trim_spec(text_of(b)) == "N/A"@,
    ensures
        spec_description(b) is None,
        spec_related(b) == Seq::<(int, Seq<char>, Seq<char>)>::empty(),
        spec_associated_names(b) == Seq::<Seq<char>>::empty(),
        spec_scanlating(b) == Seq::<(int, Seq<char>)>::empty(),
        spec_category_recommendations(b) == Seq::<(int, Seq<char>)>::empty(),
        spec_recommendations(b) == Seq::<(int, Seq<char>)>::empty(),
        spec_authors(b) == Seq::<(int, Seq<char>)>::empty(),
        spec_year(b) is None,
        spec_trimmed_text(b) is None,
        spec_original_publisher(b) is None,
        spec_serialized(b) == Seq::<(Seq<char>, Seq<char>)>::empty(),
        spec_english_publisher(b) == Seq::<(int, Seq<char>, Option<Seq<char>>)>::empty(),
        !spec_yes_flag(b),
        text_of(b) == "N/A"@ ==> spec_status_lines(b) == Seq::<Seq<char>>::empty(),
{
    assert(sentinel_block(b));
    assert(has_prefix(trim_spec(text_of(b)), "N/A"@)) by {
        assert("N/A"@.subrange(0, "N/A"@.len() as int) =~= "N/A"@);
    }
    assert(!spec_yes_flag(b)) by {
        reveal_strlit("N/A");
        reveal_strlit("Yes");
        assert("N/A"@[0] == 'N' && "Yes"@[0] == 'Y');
    }
}

// ---------------------------------------------------------------------------
// Paired-children extraction.
// ---------------------------------------------------------------------------
/// Paired-children extraction without identifiers: an exact multiple of
/// three children yields one pair per three, in document order; one or two
/// children past the last full pair yield at most one further pair, and a
/// lone trailing child is dropped.
pub proof fn lemma_ser_items_shape(s: Seq<DomNode>)
    ensures
        s.len() % 3 == 0 ==> ser_items(s).len() == s.len() / 3,
        s.len() % 3 == 1 ==> ser_items(s).len() == (s.len() - 1) / 3,
        s.len() % 3 == 2 ==> ser_items(s).len() == s.len() / 3 + 1,
        forall|k: int|
            0 <= k < ser_items(s).len() ==> #[trigger] ser_items(s)[k] == (
                text_of(s[3 * k]),
                trim_spec(text_of(s[3 * k + 1])),
            ),
    decreases s.len(),
{
    if s.len() < 2 {
    } else if s.len() >= 3 {
        let t = s.subrange(3, s.len() as int);
        lemma_ser_items_shape(t);
        assert(forall|j: int| 0 <= j < t.len() ==> t[j] == s[j + 3]);
        assert forall|k: int| 0 <= k < ser_items(s).len() implies #[trigger] ser_items(s)[k] == (
            text_of(s[3 * k]),
            trim_spec(text_of(s[3 * k + 1])),
        ) by {
            if k > 0 {
                assert(ser_items(s)[k] == ser_items(t)[k - 1]);
                assert(t[3 * (k - 1)] == s[3 * k]);
                assert(t[3 * (k - 1) + 1] == s[3 * k + 1]);
            }
        }
    } else {
        assert(ser_items(s) =~= seq![(text_of(s[0]), trim_spec(text_of(s[1])))]);
    }
}

/// Paired-children extraction with identifiers: when every pair-leading
/// link carries an identifier, an exact multiple of three children yields
/// one triple per three, in document order, and a lone trailing link is
/// dropped.
pub proof fn lemma_related_items_shape(s: Seq<DomNode>)
    requires
        forall|k: int| 0 <= k && 3 * k + 1 < s.len() ==> (#[trigger] link_id(s[3 * k])) is Some,
    ensures
        s.len() % 3 == 0 ==> related_items(s).len() == s.len() / 3,
        s.len() % 3 == 1 ==> related_items(s).len() == (s.len() - 1) / 3,
        s.len() % 3 == 2 ==> related_items(s).len() == s.len() / 3 + 1,
        forall|k: int|
            0 <= k < related_items(s).len() ==> (#[trigger] related_items(s)[k]).1 == text_of(
                s[3 * k],
            ) && related_items(s)[k].2 == text_of(s[3 * k + 1]) && link_id(s[3 * k]) == Some(
                related_items(s)[k].0,
            ),
    decreases s.len(),
{
    if s.len() < 2 {
    } else {
        assert(link_id(s[0]) is Some) by {
            assert(3 * 0 + 1 < s.len());
        }
        if s.len() >= 3 {
            let t = s.subrange(3, s.len() as int);
            assert forall|k: int| 0 <= k && 3 * k + 1 < t.len() implies (#[trigger] link_id(
                t[3 * k],
            )) is Some by {
                assert(t[3 * k] == s[3 * (k + 1)]);
                assert(3 * (k + 1) + 1 < s.len());
            }
            lemma_related_items_shape(t);
            assert(forall|j: int| 0 <= j < t.len() ==> t[j] == s[j + 3]);
            assert forall|k: int| 0 <= k < related_items(s).len() implies (
            #[trigger] related_items(s)[k]).1 == text_of(s[3 * k]) && related_items(s)[k].2
                == text_of(s[3 * k + 1]) && link_id(s[3 * k]) == Some(related_items(s)[k].0) by {
                if k > 0 {
                    assert(related_items(s)[k] == related_items(t)[k - 1]);
                    assert(t[3 * (k - 1)] == s[3 * k]);
                    assert(t[3 * (k - 1) + 1] == s[3 * k + 1]);
                }
            }
        } else {
            let id = match link_id(s[0]) {
                Some(id) => id,
                None => 0,
            };
            assert(related_items(s) =~= seq![(id, text_of(s[0]), text_of(s[1]))]);
        }
    }
}

// ---------------------------------------------------------------------------
// Genre extraction.
// ---------------------------------------------------------------------------
/// Genre extraction always drops the final parsed link, whatever the
/// count: one link yields an empty list, and `n` links yield the first
/// `n - 1` link texts in document order.
pub proof fn lemma_genre_drops_last(b: DomNode)
    ensures
        find_in(b, QuerySpec::Tag("a"@)).len() <= 1 ==> spec_genre(b) == Seq::<Seq<char>>::empty(),
        find_in(b, QuerySpec::Tag("a"@)).len() >= 1 ==> spec_genre(b).len() == find_in(
            b,
            QuerySpec::Tag("a"@),
        ).len() - 1,
        forall|k: int|
            0 <= k < spec_genre(b).len() ==> #[trigger] spec_genre(b)[k] == text_of(
                find_in(b, QuerySpec::Tag("a"@))[k],
            ),
{
    let links = find_in(b, QuerySpec::Tag("a"@));
    if links.len() == 0 {
        assert(spec_genre(b) =~= Seq::<Seq<char>>::empty());
    } else {
        assert(texts_list(links).len() == links.len());
        if links.len() == 1 {
            assert(spec_genre(b) =~= Seq::<Seq<char>>::empty());
        }
    }
}

// ---------------------------------------------------------------------------
// Idempotence of the extractors.
// ---------------------------------------------------------------------------
/// Two runs of the search extractor over one tree agree: the output is a
/// function of the tree alone.
pub proof fn lemma_search_deterministic(
    doc: DomNode,
    r1: Seq<SeriesSearchResult>,
    r2: Seq<SeriesSearchResult>,
)
    requires
        results_view(r1) == spec_search_results(find_in(doc, QuerySpec::Class("col-lg-6"@))),
        results_view(r2) == spec_search_results(find_in(doc, QuerySpec::Class("col-lg-6"@))),
    ensures
        results_view(r1) == results_view(r2),
{
}

/// Two records decoded from one series page agree on every field the page
/// itself determines; the categories agree where the page's category block
/// is the placeholder, the one case in which no fetch is made.
pub proof fn lemma_series_deterministic(doc: DomNode, id: SeriesId, s1: Series, s2: Series)
    requires
        series_page_ok(doc),
        s1.id == id,
        s1.title@ == text_of(title_nodes(doc)[0]),
        col1_fields_ok(s1, page_columns(doc)[0]),
        col2_fields_ok(s1, page_columns(doc)[1]),
        s2.id == id,
        s2.title@ == text_of(title_nodes(doc)[0]),
        col1_fields_ok(s2, page_columns(doc)[0]),
        col2_fields_ok(s2, page_columns(doc)[1]),
    ensures
        s1.id == s2.id,
        s1.title@ == s2.title@,
        opt_str(s1.description) == opt_str(s2.description),
        opt_str(s1.ty) == opt_str(s2.ty),
        crate::parsing::rel_view(s1.related_series@) == crate::parsing::rel_view(
            s2.related_series@,
        ),
        strs_view(s1.associated_names@) == strs_view(s2.associated_names@),
        crate::parsing::gid_pairs_view(s1.groups_scanlating@) == crate::parsing::gid_pairs_view(
            s2.groups_scanlating@,
        ),
        strs_view(s1.status_in_coo@) == strs_view(s2.status_in_coo@),
        s1.completely_scanlated == s2.completely_scanlated,
        strs_view(s1.anime_start_end@) == strs_view(s2.anime_start_end@),
        opt_str(s1.image) == opt_str(s2.image),
        strs_view(s1.genre@) == strs_view(s2.genre@),
        sentinel_block(col_blocks(page_columns(doc)[1])[2]) ==> s1.categories@ == s2.categories@,
        crate::parsing::sid_pairs_view(s1.category_recommendations@)
            == crate::parsing::sid_pairs_view(s2.category_recommendations@),
        crate::parsing::sid_pairs_view(s1.recommendations@) == crate::parsing::sid_pairs_view(
            s2.recommendations@,
        ),
        crate::parsing::aid_pairs_view(s1.authors@) == crate::parsing::aid_pairs_view(s2.authors@),
        crate::parsing::aid_pairs_view(s1.artists@) == crate::parsing::aid_pairs_view(s2.artists@),
        opt_str(s1.year) == opt_str(s2.year),
        crate::parsing::ser_view(s1.serialized_in@) == crate::parsing::ser_view(s2.serialized_in@),
        s1.licensed == s2.licensed,
        crate::parsing::pub_view(s1.english_publisher@) == crate::parsing::pub_view(
            s2.english_publisher@,
        ),
{
    match s1.original_publisher {
        None => {},
        Some(_) => {},
    }
}

} // verus!
