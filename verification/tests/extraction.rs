use std::cell::RefCell;

use mu_rs::{
    collect_categories, get_id, is_sentinel_block, parse_associated_names, parse_artists,
    parse_authors, parse_categories, parse_category_recommendations, parse_description,
    parse_english_publisher, parse_genre, parse_image, parse_original_publisher,
    parse_recommendations, parse_related, parse_scanlating, parse_search_results,
    parse_serialized_in, parse_series, parse_status_lines, parse_year, parse_year_and_rating,
    parse_yes_flag, category_url, search_url, series_url, DomNode, Element, SeriesId, Transport,
};

fn text(t: &str) -> DomNode {
    DomNode::Text(t.to_string())
}

fn elem(name: &str, classes: &[&str], attrs: &[(&str, &str)], children: Vec<DomNode>) -> DomNode {
    DomNode::Elem(Element {
        name: name.to_string(),
        classes: classes.iter().map(|c| c.to_string()).collect(),
        attrs: attrs
            .iter()
            .map(|(k, v)| (k.to_string(), v.to_string()))
            .collect(),
        children,
    })
}

fn link(id: usize, label: &str) -> DomNode {
    let href = format!("https://www.mangaupdates.com/series.html?id={}", id);
    elem("a", &[], &[("href", href.as_str())], vec![text(label)])
}

fn block(children: Vec<DomNode>) -> DomNode {
    elem("div", &["sContent"], &[], children)
}

fn sentinel() -> DomNode {
    block(vec![text("N/A")])
}

// --- identifier extraction -------------------------------------------------

#[test]
fn id_extraction_from_targets_with_marker() {
    assert_eq!(
        get_id(Some("https://www.mangaupdates.com/series.html?id=42")),
        Some(42)
    );
    assert_eq!(get_id(Some("id=42")), Some(42));
    assert_eq!(get_id(Some("a?x=1&id=42")), Some(42));
}

#[test]
fn id_extraction_accepts_one_leading_plus() {
    assert_eq!(get_id(Some("id=+42")), Some(42));
    assert_eq!(get_id(Some("id=++42")), None);
    assert_eq!(get_id(Some("id=+")), None);
    assert_eq!(get_id(Some("id=4+2")), None);
}

#[test]
fn trimming_covers_unicode_whitespace() {
    let b = block(vec![text("\u{a0}N/A\u{3000}")]);
    assert!(is_sentinel_block(&b));
    assert!(parse_authors(&b).is_empty());
    let y = block(vec![text("\u{2003}1999\u{a0}")]);
    assert_eq!(parse_year(&y), Some("1999".to_string()));
}

#[test]
fn type_tag_sentinel_yields_absent() {
    assert_eq!(mu_rs::parse_type_tag(&sentinel()), None);
    assert_eq!(
        mu_rs::parse_type_tag(&block(vec![text(" Manga ")])),
        Some("Manga".to_string())
    );
}

#[test]
fn id_extraction_absent_cases() {
    assert_eq!(get_id(None), None);
    assert_eq!(get_id(Some("https://example.org/page")), None);
    assert_eq!(get_id(Some("id=")), None);
    assert_eq!(get_id(Some("id=12x")), None);
    assert_eq!(get_id(Some("id=abc")), None);
}

#[test]
fn id_extraction_uses_first_marker() {
    assert_eq!(get_id(Some("id=id=7")), None);
    assert_eq!(get_id(Some("xid=9")), Some(9));
}

// --- sentinel detection ----------------------------------------------------

#[test]
fn sentinel_with_nested_markup_yields_empty() {
    let b = block(vec![
        text(" "),
        elem("b", &[], &[], vec![text("N/A")]),
        text(" "),
    ]);
    assert!(is_sentinel_block(&b));
    assert!(parse_related(&b).is_empty());
    assert!(parse_authors(&b).is_empty());
    assert!(parse_artists(&b).is_empty());
    assert!(parse_scanlating(&b).is_empty());
    assert!(parse_recommendations(&b).is_empty());
    assert!(parse_category_recommendations(&b).is_empty());
    assert!(parse_associated_names(&b).is_empty());
    assert!(parse_serialized_in(&b).is_empty());
    assert!(parse_english_publisher(&b).is_empty());
    assert_eq!(parse_year(&b), None);
    assert_eq!(parse_description(&b), None);
    assert!(parse_original_publisher(&b).is_none());
    assert!(!parse_yes_flag(&b));
}

#[test]
fn status_lines_sentinel_is_untrimmed() {
    let exact = block(vec![text("N/A")]);
    assert!(parse_status_lines(&exact).is_empty());
    let padded = block(vec![text(" N/A ")]);
    assert_eq!(parse_status_lines(&padded), vec![" N/A ".to_string()]);
}

// --- paired-children extraction --------------------------------------------

#[test]
fn triples_exact_multiple_of_three() {
    let b = block(vec![
        link(1, "R1"),
        text(" note1 "),
        elem("br", &[], &[], vec![]),
        link(2, "R2"),
        text("note2"),
        elem("br", &[], &[], vec![]),
    ]);
    let r = parse_related(&b);
    assert_eq!(r.len(), 2);
    assert_eq!(r[0].0 .0, 1);
    assert_eq!(r[0].1, "R1");
    assert_eq!(r[0].2, " note1 ");
    assert_eq!(r[1].0 .0, 2);
    assert_eq!(r[1].1, "R2");
    assert_eq!(r[1].2, "note2");
}

#[test]
fn triples_trailing_link_is_dropped() {
    let b = block(vec![
        link(1, "R1"),
        text("n1"),
        elem("br", &[], &[], vec![]),
        link(2, "R2"),
    ]);
    let r = parse_related(&b);
    assert_eq!(r.len(), 1);
    assert_eq!(r[0].0 .0, 1);
}

#[test]
fn triples_final_pair_without_separator_is_kept() {
    let b = block(vec![
        link(1, "R1"),
        text("n1"),
        elem("br", &[], &[], vec![]),
        link(2, "R2"),
        text("n2"),
    ]);
    let r = parse_related(&b);
    assert_eq!(r.len(), 2);
}

#[test]
fn serialization_triples() {
    let b = block(vec![
        text("Mag1"),
        text(" vol 1 "),
        elem("br", &[], &[], vec![]),
        text("Mag2"),
        text("v2"),
        elem("br", &[], &[], vec![]),
    ]);
    let r = parse_serialized_in(&b);
    assert_eq!(
        r,
        vec![
            ("Mag1".to_string(), "vol 1".to_string()),
            ("Mag2".to_string(), "v2".to_string())
        ]
    );
}

#[test]
fn english_publisher_optional_note() {
    let b = block(vec![
        link(3, "Pub A"),
        text(" (10 vols) "),
        elem("br", &[], &[], vec![]),
        link(4, "Pub B"),
        text("   "),
        elem("br", &[], &[], vec![]),
    ]);
    let r = parse_english_publisher(&b);
    assert_eq!(r.len(), 2);
    assert_eq!(r[0].0 .0, 3);
    assert_eq!(r[0].1, "Pub A");
    assert_eq!(r[0].2, Some("(10 vols)".to_string()));
    assert_eq!(r[1].0 .0, 4);
    assert_eq!(r[1].2, None);
}

// --- year/rating combined text ---------------------------------------------

#[test]
fn year_and_rating_both_present() {
    let n = elem("div", &[], &[], vec![text("2001 - 8.5 / 10")]);
    let (year, rating) = parse_year_and_rating(&n);
    assert_eq!(year, Some("2001".to_string()));
    assert_eq!(rating, Some("8.5".to_string()));
}

#[test]
fn year_only_no_separators() {
    let n = elem("div", &[], &[], vec![text("2001")]);
    let (year, rating) = parse_year_and_rating(&n);
    assert_eq!(year, Some("2001".to_string()));
    assert_eq!(rating, None);
}

#[test]
fn rating_only_no_hyphen() {
    let n = elem("div", &[], &[], vec![text("8.5 / 10")]);
    let (year, rating) = parse_year_and_rating(&n);
    assert_eq!(year, None);
    assert_eq!(rating, Some("8.5".to_string()));
}

// --- genre -------------------------------------------------------------------

#[test]
fn genre_drops_final_link() {
    let b = block(vec![
        link(0, "Action"),
        link(0, "Comedy"),
        link(0, "More..."),
    ]);
    assert_eq!(
        parse_genre(&b),
        vec!["Action".to_string(), "Comedy".to_string()]
    );
}

#[test]
fn genre_single_link_yields_empty() {
    let b = block(vec![link(0, "More...")]);
    assert!(parse_genre(&b).is_empty());
}

// --- descriptions ------------------------------------------------------------

#[test]
fn description_prefers_expansion_first_child() {
    let b = block(vec![
        text("short text "),
        elem(
            "div",
            &[],
            &[("id", "div_desc_more")],
            vec![text(" the full text ")],
        ),
    ]);
    assert_eq!(parse_description(&b), Some("the full text".to_string()));
}

#[test]
fn description_inline_trimmed_blank_absent() {
    let inline = block(vec![text("  plain  ")]);
    assert_eq!(parse_description(&inline), Some("plain".to_string()));
    let blank = block(vec![text("   ")]);
    assert_eq!(parse_description(&blank), None);
}

// --- the category fetch -------------------------------------------------------

struct MockTransport {
    calls: RefCell<Vec<String>>,
}

fn category_fragment() -> DomNode {
    elem(
        "html",
        &[],
        &[],
        vec![
            elem("a", &[], &[("href", "javascript:void(0)")], vec![text("Skip me")]),
            elem("a", &[], &[("href", "/x?id=1")], vec![text("Action")]),
            elem("a", &[], &[("href", "/x?id=2")], vec![text("   ")]),
            elem("a", &[], &[("href", "/x?id=3")], vec![text("Drama")]),
        ],
    )
}

impl Transport for MockTransport {
    fn get(&self, url: &str) -> DomNode {
        self.calls.borrow_mut().push(url.to_string());
        category_fragment()
    }
}

#[test]
fn category_fragment_collection() {
    let frag = category_fragment();
    assert_eq!(
        collect_categories(&frag),
        vec!["Action".to_string(), "Drama".to_string()]
    );
}

#[test]
fn sentinel_category_block_issues_no_fetch() {
    let t = MockTransport {
        calls: RefCell::new(Vec::new()),
    };
    let cats = parse_categories(&t, &sentinel(), SeriesId(77));
    assert!(cats.is_empty());
    assert_eq!(t.calls.borrow().len(), 0);
}

#[test]
fn non_sentinel_category_block_issues_one_fetch_with_id() {
    let t = MockTransport {
        calls: RefCell::new(Vec::new()),
    };
    let b = block(vec![text("Action")]);
    let cats = parse_categories(&t, &b, SeriesId(77));
    assert_eq!(cats, vec!["Action".to_string(), "Drama".to_string()]);
    let calls = t.calls.borrow();
    assert_eq!(calls.len(), 1);
    assert!(calls[0].contains("s=77"));
    assert_eq!(
        calls[0],
        "https://www.mangaupdates.com/ajax/show_categories.php?s=77&type=1"
    );
}

// --- the series page ----------------------------------------------------------

fn series_page(cat_block: DomNode) -> DomNode {
    let col1 = elem(
        "div",
        &["col-6", "p-2"],
        &[],
        (0..9).map(|_| sentinel()).collect(),
    );
    let mut blocks2: Vec<DomNode> = vec![sentinel(), sentinel(), cat_block];
    for _ in 3..12 {
        blocks2.push(sentinel());
    }
    let col2 = elem("div", &["col-6", "p-2"], &[], blocks2);
    elem(
        "html",
        &[],
        &[],
        vec![
            elem("span", &["releasestitle"], &[], vec![text("My Title")]),
            col1,
            col2,
        ],
    )
}

#[test]
fn minimal_sentinel_page_yields_empty_record() {
    let t = MockTransport {
        calls: RefCell::new(Vec::new()),
    };
    let doc = series_page(sentinel());
    let s = parse_series(&t, &doc, SeriesId(15)).expect("record");
    assert_eq!(s.id().0, 15);
    assert_eq!(s.title(), "My Title");
    assert_eq!(s.description(), None);
    assert_eq!(s.ty(), None);
    assert!(s.related_series().is_empty());
    assert!(s.associated_names().is_empty());
    assert!(s.groups_scanlating().is_empty());
    assert!(s.status_in_coo().is_empty());
    assert!(!s.completely_scanlated());
    assert!(s.anime_start_end().is_empty());
    assert_eq!(s.image(), None);
    assert!(s.genre().is_empty());
    assert!(s.categories().is_empty());
    assert!(s.category_recommendations().is_empty());
    assert!(s.recommendations().is_empty());
    assert!(s.authors().is_empty());
    assert!(s.artists().is_empty());
    assert_eq!(s.year(), None);
    assert!(s.original_publisher().is_none());
    assert!(s.serialized_in().is_empty());
    assert!(!s.licensed());
    assert!(s.english_publisher().is_empty());
    assert_eq!(t.calls.borrow().len(), 0);
}

#[test]
fn missing_title_or_columns_aborts_whole_record() {
    let t = MockTransport {
        calls: RefCell::new(Vec::new()),
    };
    let empty = elem("html", &[], &[], vec![]);
    assert!(parse_series(&t, &empty, SeriesId(1)).is_none());
    let only_title = elem(
        "html",
        &[],
        &[],
        vec![elem("span", &["releasestitle"], &[], vec![text("T")])],
    );
    assert!(parse_series(&t, &only_title, SeriesId(1)).is_none());
}

#[test]
fn short_column_aborts_whole_record() {
    let t = MockTransport {
        calls: RefCell::new(Vec::new()),
    };
    let col1 = elem(
        "div",
        &["col-6", "p-2"],
        &[],
        (0..5).map(|_| sentinel()).collect(),
    );
    let col2 = elem(
        "div",
        &["col-6", "p-2"],
        &[],
        (0..12).map(|_| sentinel()).collect(),
    );
    let doc = elem(
        "html",
        &[],
        &[],
        vec![
            elem("span", &["releasestitle"], &[], vec![text("T")]),
            col1,
            col2,
        ],
    );
    assert!(parse_series(&t, &doc, SeriesId(1)).is_none());
}

// --- the search page -----------------------------------------------------------

fn search_container(id: usize, title: &str, desc: &str, yr: &str) -> DomNode {
    let data = elem(
        "div",
        &["flex-column"],
        &[],
        vec![
            text(" "),
            elem("div", &[], &[], vec![link(id, title)]),
            elem("div", &[], &[], vec![text("Genres")]),
            elem("div", &[], &[], vec![text(desc)]),
            elem("div", &[], &[], vec![text(yr)]),
        ],
    );
    elem(
        "div",
        &["col-lg-6"],
        &[],
        vec![
            elem("img", &[], &[("src", "https://img.example/p.jpg")], vec![]),
            data,
        ],
    )
}

#[test]
fn search_results_decoded_in_order() {
    let doc = elem(
        "html",
        &[],
        &[],
        vec![
            search_container(5, "First", "Desc one", "2003 - 7.5 / 10"),
            search_container(9, "Second", "N/A", "2010"),
        ],
    );
    let rs = parse_search_results(&doc);
    assert_eq!(rs.len(), 2);
    assert_eq!(rs[0].id().0, 5);
    assert_eq!(rs[0].title(), "First");
    assert_eq!(rs[0].description(), Some("Desc one"));
    assert_eq!(rs[0].image(), Some("https://img.example/p.jpg"));
    assert_eq!(rs[0].year(), Some("2003"));
    assert_eq!(rs[0].rating(), Some("7.5"));
    assert_eq!(rs[1].id().0, 9);
    assert_eq!(rs[1].description(), None);
    assert_eq!(rs[1].year(), Some("2010"));
    assert_eq!(rs[1].rating(), None);
}

#[test]
fn bad_container_is_skipped_not_fatal() {
    let bad = elem("div", &["col-lg-6"], &[], vec![text("nothing here")]);
    let doc = elem(
        "html",
        &[],
        &[],
        vec![bad, search_container(5, "Kept", "D", "2003 - 7.5 / 10")],
    );
    let rs = parse_search_results(&doc);
    assert_eq!(rs.len(), 1);
    assert_eq!(rs[0].id().0, 5);
}

// --- idempotence ----------------------------------------------------------------

#[test]
fn search_extraction_is_idempotent() {
    let doc = elem(
        "html",
        &[],
        &[],
        vec![search_container(5, "First", "Desc", "2003 - 7.5 / 10")],
    );
    let a = parse_search_results(&doc);
    let b = parse_search_results(&doc);
    assert_eq!(a, b);
}

#[test]
fn series_extraction_is_idempotent() {
    let t = MockTransport {
        calls: RefCell::new(Vec::new()),
    };
    let doc = series_page(block(vec![text("Action")]));
    let a = parse_series(&t, &doc, SeriesId(3));
    let b = parse_series(&t, &doc, SeriesId(3));
    assert_eq!(a, b);
    assert_eq!(t.calls.borrow().len(), 2);
}

// --- the remaining field decoders ------------------------------------------------

#[test]
fn scanlating_groups_by_title_attribute() {
    let b = block(vec![
        elem(
            "a",
            &[],
            &[("href", "g?id=11"), ("title", "Group Info")],
            vec![text("GroupA")],
        ),
        link(99, "not a group"),
    ]);
    let r = parse_scanlating(&b);
    assert_eq!(r.len(), 1);
    assert_eq!(r[0].0 .0, 11);
    assert_eq!(r[0].1, "GroupA");
}

#[test]
fn associated_names_keep_nonblank_entries() {
    let b = block(vec![
        text(" Name One "),
        elem("br", &[], &[], vec![]),
        text("   "),
        text("N/A"),
        text("Name Two"),
    ]);
    assert_eq!(
        parse_associated_names(&b),
        vec!["Name One".to_string(), "Name Two".to_string()]
    );
}

#[test]
fn recommendations_skip_script_links_and_prefer_expansion() {
    let more = elem(
        "div",
        &[],
        &[("id", "div_recom_more")],
        vec![
            elem("a", &[], &[("href", "javascript:more()")], vec![text("...")]),
            link(21, "RecA"),
            link(22, "RecB"),
        ],
    );
    let b = block(vec![link(99, "ignored"), more]);
    let r = parse_recommendations(&b);
    assert_eq!(r.len(), 2);
    assert_eq!(r[0].0 .0, 21);
    assert_eq!(r[1].0 .0, 22);
}

#[test]
fn category_recommendations_starts_with_sentinel() {
    let b = block(vec![text("N/A (add some)"), link(7, "X")]);
    assert!(parse_category_recommendations(&b).is_empty());
    let c = block(vec![link(7, "X")]);
    let r = parse_category_recommendations(&c);
    assert_eq!(r.len(), 1);
    assert_eq!(r[0].0 .0, 7);
}

#[test]
fn authors_stop_at_link_without_identifier() {
    let b = block(vec![
        link(31, "Author A"),
        elem("a", &[], &[("href", "no-marker")], vec![text("broken")]),
        link(32, "Author B"),
    ]);
    let r = parse_authors(&b);
    assert_eq!(r.len(), 1);
    assert_eq!(r[0].0 .0, 31);
}

#[test]
fn original_publisher_first_link() {
    let b = block(vec![link(41, "PubX"), link(42, "PubY")]);
    let r = parse_original_publisher(&b).expect("publisher");
    assert_eq!(r.0 .0, 41);
    assert_eq!(r.1, "PubX");
    let none = block(vec![text("no links")]);
    assert!(parse_original_publisher(&none).is_none());
}

#[test]
fn image_and_year_and_flag() {
    let b = block(vec![elem(
        "img",
        &[],
        &[("src", "https://img.example/c.png")],
        vec![],
    )]);
    assert_eq!(parse_image(&b), Some("https://img.example/c.png".to_string()));
    assert_eq!(parse_image(&sentinel()), None);
    let y = block(vec![text(" 1999 ")]);
    assert_eq!(parse_year(&y), Some("1999".to_string()));
    assert!(parse_yes_flag(&block(vec![text(" Yes ")])));
    assert!(!parse_yes_flag(&block(vec![text("No")])));
}

// --- endpoints -------------------------------------------------------------------

#[test]
fn endpoint_urls() {
    assert_eq!(
        series_url(15),
        "https://www.mangaupdates.com/series.html?id=15"
    );
    assert_eq!(
        search_url("some name"),
        "https://www.mangaupdates.com/series.html?search=some name"
    );
    assert_eq!(
        category_url(0),
        "https://www.mangaupdates.com/ajax/show_categories.php?s=0&type=1"
    );
}
