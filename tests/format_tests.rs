use scwape::driver::{
    bind_formats, check_selectors, default_format, first_match, is_url, join_selectors,
    render_combined, render_disparate, RunError,
};
use scwape::escape::{decoded_or_kept, resolve_literal};
use scwape::format::{parse_format, split_format, split_keep, ControlKind, Segment};
use scwape::render::{render_element, ElementData};

fn lit(s: &str) -> Segment {
    Segment::Literal(s.to_string())
}

fn element(name: &str, classes: &[&str]) -> ElementData {
    ElementData {
        id: None,
        name: name.to_string(),
        classes: classes.iter().map(|c| c.to_string()).collect(),
        texts: vec![],
        html: String::new(),
        attrs: vec![],
    }
}

fn raw(segs: &[Segment]) -> String {
    let mut out = String::new();
    for s in segs {
        match s {
            Segment::Literal(t) => out.push_str(t),
            Segment::Control(k) => {
                out.push('\\');
                out.extend(k.spelling());
            }
        }
    }
    out
}

#[test]
fn text_then_newline() {
    let r = parse_format(&"\\text\\n".to_string());
    assert_eq!(r, vec![Segment::Control(ControlKind::Text), lit("\n")]);
}

#[test]
fn escaped_backslash_blocks_marker() {
    let r = parse_format(&"\\\\text".to_string());
    assert_eq!(r, vec![lit("\\text")]);
}

#[test]
fn plain_format_is_one_literal() {
    assert_eq!(parse_format(&"hello world".to_string()), vec![lit("hello world")]);
    assert_eq!(parse_format(&"a\\tb".to_string()), vec![lit("a\tb")]);
}

#[test]
fn empty_format_is_empty() {
    assert_eq!(parse_format(&String::new()), vec![]);
    assert_eq!(split_format(&String::new()), vec![]);
}

#[test]
fn trailing_backslash_stays_literal() {
    assert_eq!(split_format(&"abc\\".to_string()), vec![lit("abc\\")]);
}

#[test]
fn every_kind_is_recognised() {
    let r = split_format(&"\\id|\\name|\\classes|\\text|\\html|\\attrs".to_string());
    assert_eq!(
        r,
        vec![
            Segment::Control(ControlKind::Id),
            lit("|"),
            Segment::Control(ControlKind::Name),
            lit("|"),
            Segment::Control(ControlKind::Classes),
            lit("|"),
            Segment::Control(ControlKind::Text),
            lit("|"),
            Segment::Control(ControlKind::Html),
            lit("|"),
            Segment::Control(ControlKind::Attrs),
        ]
    );
}

#[test]
fn marker_wins_over_escape() {
    assert_eq!(parse_format(&"\\name".to_string()), vec![Segment::Control(ControlKind::Name)]);
    assert_eq!(parse_format(&"\\n".to_string()), vec![lit("\n")]);
}

#[test]
fn text_after_earlier_split_is_kept() {
    let r = parse_format(&"\\nameX\\idYZ".to_string());
    assert_eq!(
        r,
        vec![
            Segment::Control(ControlKind::Name),
            lit("X"),
            Segment::Control(ControlKind::Id),
            lit("YZ"),
        ]
    );
}

#[test]
fn adjacent_markers_split_in_kind_order() {
    let r = split_format(&"\\text\\html".to_string());
    assert_eq!(
        r,
        vec![Segment::Control(ControlKind::Text), Segment::Control(ControlKind::Html)]
    );
    let r = split_format(&"\\texthtml".to_string());
    assert_eq!(r, vec![Segment::Control(ControlKind::Text), lit("html")]);
}

#[test]
fn split_keep_one_kind() {
    let input = vec![lit("a\\idb"), Segment::Control(ControlKind::Name), lit("\\\\id")];
    let r = split_keep(&input, ControlKind::Id);
    assert_eq!(
        r,
        vec![
            lit("a"),
            Segment::Control(ControlKind::Id),
            lit("b"),
            Segment::Control(ControlKind::Name),
            lit("\\\\id"),
        ]
    );
}

#[test]
fn round_trip_restores_format() {
    for f in ["x\\id-\\name\\\\text\\n", "", "\\attrs\\attrs", "plain", "é\\classes\\"] {
        assert_eq!(raw(&split_format(&f.to_string())), f);
    }
}

#[test]
fn malformed_escape_is_kept() {
    assert_eq!(resolve_literal(&"a\\qb".to_string()), "a\\qb");
    assert_eq!(resolve_literal(&"a\\tb".to_string()), "a\tb");
    assert_eq!(decoded_or_kept("raw".to_string(), None), "raw");
    assert_eq!(decoded_or_kept("raw".to_string(), Some("done".to_string())), "done");
}

#[test]
fn classes_joined_by_comma() {
    let f = vec![Segment::Control(ControlKind::Classes)];
    assert_eq!(render_element(&element("div", &["a", "b"]), &f), "a,b");
    assert_eq!(render_element(&element("div", &[]), &f), "");
}

#[test]
fn render_every_property() {
    let e = ElementData {
        id: Some("main".to_string()),
        name: "p".to_string(),
        classes: vec!["x".to_string()],
        texts: vec!["Hello ".to_string(), "world".to_string()],
        html: "<p id=\"main\" class=\"x\" lang=\"en\">Hello <b>world</b></p>".to_string(),
        attrs: vec![
            ("id".to_string(), "main".to_string()),
            ("lang".to_string(), "en".to_string()),
        ],
    };
    let f = parse_format(&"[\\id][\\name][\\text][\\attrs]\\html".to_string());
    assert_eq!(
        render_element(&e, &f),
        "[main][p][Hello world][id: main,lang: en]<p id=\"main\" class=\"x\" lang=\"en\">Hello <b>world</b></p>"
    );
    let mut bare = element("br", &[]);
    bare.attrs = vec![];
    assert_eq!(render_element(&bare, &parse_format(&"<\\id>".to_string())), "<>");
}

#[test]
fn combined_first_selector_wins() {
    let selectors = vec!["div.x".to_string(), "div.y".to_string()];
    let formats = bind_formats(2, &vec!["X:\\name\\n".to_string(), "Y:\\name\\n".to_string()]);
    let elements = vec![element("div", &["x", "y"]), element("div", &["y"])];
    let membership = vec![vec![true, true], vec![false, true]];
    let r = render_combined(&selectors, &"page.html".to_string(), &elements, &membership, &formats);
    assert_eq!(r, Ok("X:div\nY:div\n".to_string()));
}

#[test]
fn combined_no_match_names_selector() {
    let selectors = vec!["span".to_string()];
    let formats = bind_formats(1, &vec![]);
    let r = render_combined(&selectors, &"page.html".to_string(), &vec![], &vec![], &formats);
    assert_eq!(
        r,
        Err(RunError::NoMatch { selector: "span".to_string(), location: "page.html".to_string() })
    );
}

#[test]
fn disparate_groups_by_selector() {
    let formats = bind_formats(2, &vec!["A\\classes;".to_string(), "B\\classes;".to_string()]);
    let groups = vec![
        vec![element("a", &["1"]), element("a", &["3"])],
        vec![element("b", &["2"])],
    ];
    assert_eq!(render_disparate(&groups, &formats), "A1;A3;B2;");
}

#[test]
fn missing_formats_get_default() {
    let formats = bind_formats(2, &vec!["\\name".to_string()]);
    assert_eq!(formats.len(), 2);
    assert_eq!(formats[0], vec![Segment::Control(ControlKind::Name)]);
    assert_eq!(formats[1], vec![Segment::Control(ControlKind::Text), lit("\n")]);
    assert_eq!(default_format(), "\\text\\n");
}

#[test]
fn first_match_takes_lowest() {
    assert_eq!(first_match(&vec![false, true, true]), Some(1));
    assert_eq!(first_match(&vec![false, false]), None);
    assert_eq!(first_match(&vec![]), None);
}

#[test]
fn selectors_join_and_check() {
    assert_eq!(join_selectors(&vec!["a".to_string(), "b.c".to_string()]), "a,b.c");
    assert_eq!(check_selectors(&vec![]), Err(RunError::Usage));
    assert_eq!(check_selectors(&vec!["a".to_string()]), Ok(()));
}

#[test]
fn url_or_path() {
    assert!(is_url(&"https://example.com".to_string()));
    assert!(is_url(&"http://example.com".to_string()));
    assert!(!is_url(&"index.html".to_string()));
    assert!(!is_url(&"http".to_string()));
}
