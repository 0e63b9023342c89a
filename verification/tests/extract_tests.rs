use godot_dl::extract::extract;

fn no_filters() -> Vec<String> {
    Vec::new()
}

fn filters(names: &[&str]) -> Vec<String> {
    names.iter().map(|s| s.to_string()).collect()
}

#[test]
fn anchor_text_is_extracted_in_document_order() {
    let html = "<html><body>\
        <a href=\"1\">first</a>\
        <p>noise</p>\
        <a href=\"2\">second</a>\
        <a href=\"3\">third</a>\
        </body></html>";
    let r = extract(html, &no_filters());
    assert_eq!(r, vec!["first".to_string(), "second".to_string(), "third".to_string()]);
}

#[test]
fn trailing_slash_is_stripped_exactly_once() {
    let html = "<a href=\"v\">v4.2.1/</a>";
    let r = extract(html, &no_filters());
    assert_eq!(r, vec!["v4.2.1".to_string()]);

    let html2 = "<a href=\"v\">v4.2.1//</a>";
    let r2 = extract(html2, &no_filters());
    assert_eq!(r2, vec!["v4.2.1/".to_string()]);
}

#[test]
fn filtered_entries_are_dropped_and_order_kept() {
    let html = "<a>Parent Directory</a><a>4.2/</a><a>4.1/</a><a>3.5/</a>";
    let r = extract(html, &filters(&["Parent Directory"]));
    assert_eq!(r, vec!["4.2".to_string(), "4.1".to_string(), "3.5".to_string()]);
}

#[test]
fn kept_count_matches_unfiltered_anchors() {
    let html = "<a>toolchains/</a><a>media/</a><a>4.2/</a><a>patreon/</a><a>4.1/</a>";
    let f = filters(&["toolchains", "patreon", "media", "testing"]);
    let r = extract(html, &f);
    assert_eq!(r.len(), 2);
    assert_eq!(r, vec!["4.2".to_string(), "4.1".to_string()]);
}

#[test]
fn no_filter_string_survives_in_any_entry() {
    let html = "<a>alpha-testing/</a><a>4.2-stable/</a><a>media kit/</a><a>4.1/</a>";
    let f = filters(&["testing", "media"]);
    let r = extract(html, &f);
    for entry in &r {
        for filter in &f {
            assert!(!entry.contains(filter.as_str()));
        }
    }
    assert_eq!(r, vec!["4.2-stable".to_string(), "4.1".to_string()]);
}

#[test]
fn anchor_text_nodes_are_concatenated() {
    let html = "<a>godot-<b>4.2</b>-stable/</a>";
    let r = extract(html, &no_filters());
    assert_eq!(r, vec!["godot-4.2-stable".to_string()]);
}

#[test]
fn malformed_html_is_handled_leniently() {
    let html = "<a>unclosed anchor/";
    let r = extract(html, &no_filters());
    assert_eq!(r, vec!["unclosed anchor".to_string()]);
}

#[test]
fn empty_input_yields_no_entries() {
    assert!(extract("", &no_filters()).is_empty());
    assert!(extract("<p>no anchors here</p>", &no_filters()).is_empty());
}

#[test]
fn empty_filter_string_drops_everything() {
    let html = "<a>4.2/</a><a>4.1/</a>";
    let r = extract(html, &filters(&[""]));
    assert!(r.is_empty());
}
