use godot_dl::chooser::{interpret_choice, ChoiceOutcome};
use godot_dl::extract::extract;
use godot_dl::navigate::{
    append_segment, is_terminal, navigate_step, reversed, root_filters, sub_filters,
    NavStep, NavigationState,
};

#[test]
fn navigation_state_tracks_depth_filters_and_url() {
    let mut nav = NavigationState::start("https://host/godotengine".to_string());
    assert_eq!(nav.depth, 0);
    assert_eq!(nav.filters().len(), 5);
    assert_eq!(nav.choose_entry("4.2"), None);
    assert_eq!(nav.url, "https://host/godotengine/4.2");
    assert_eq!(nav.depth, 1);
    assert_eq!(nav.filters(), vec!["Parent Directory".to_string()]);
    let done = nav.choose_entry("godot-4.2.1-stable.tar.xz");
    assert_eq!(
        done,
        Some("https://host/godotengine/4.2/godot-4.2.1-stable.tar.xz".to_string())
    );
    assert_eq!(nav.depth, 1);
}

#[test]
fn recognized_suffixes_are_terminal() {
    assert!(is_terminal("https://host/path/godot-4.2.1-stable.tar.xz"));
    assert!(is_terminal("https://host/path/godot-4.2.1-stable.zip"));
    assert!(is_terminal("https://host/path/lib.aar"));
    assert!(is_terminal("https://host/path/app.aab"));
    assert!(is_terminal("https://host/path/app.apk"));
    assert!(is_terminal("https://host/path/templates.tpz"));
    assert!(!is_terminal("https://host/godotengine/4.2"));
    assert!(!is_terminal("https://host/godotengine/4.2.zip.sha256"));
}

#[test]
fn append_builds_one_new_path_segment() {
    let url = append_segment("https://host/godotengine", "4.2");
    assert_eq!(url, "https://host/godotengine/4.2");
}

#[test]
fn choosing_a_listing_entry_descends() {
    match navigate_step("https://host/godotengine", "4.2") {
        NavStep::Descend(url) => assert_eq!(url, "https://host/godotengine/4.2"),
        NavStep::Terminal(_) => panic!("a bare version is not terminal"),
    }
}

#[test]
fn choosing_a_file_entry_stops_in_one_step() {
    match navigate_step("https://host/godotengine", "godot-4.2.1-stable.zip") {
        NavStep::Terminal(url) => {
            assert_eq!(url, "https://host/godotengine/godot-4.2.1-stable.zip")
        },
        NavStep::Descend(_) => panic!("an archive entry ends traversal"),
    }
}

#[test]
fn reversal_offers_the_most_recent_entry_first() {
    let entries: Vec<String> =
        ["3.5", "4.1", "4.2"].iter().map(|s| s.to_string()).collect();
    let r = reversed(entries);
    assert_eq!(r, vec!["4.2".to_string(), "4.1".to_string(), "3.5".to_string()]);
}

#[test]
fn filter_sets_match_the_two_depths() {
    let root: Vec<String> = root_filters();
    assert_eq!(
        root,
        vec![
            "Parent Directory".to_string(),
            "toolchains".to_string(),
            "patreon".to_string(),
            "media".to_string(),
            "testing".to_string(),
        ]
    );
    assert_eq!(sub_filters(), vec!["Parent Directory".to_string()]);
}

#[test]
fn root_listing_to_next_fetch_target() {
    let html = "<a>Parent Directory</a><a>4.2/</a><a>4.1/</a><a>3.5/</a>";
    let entries = extract(html, &sub_filters());
    assert_eq!(
        entries,
        vec!["4.2".to_string(), "4.1".to_string(), "3.5".to_string()]
    );
    let choices = reversed(entries);
    assert_eq!(
        choices,
        vec!["3.5".to_string(), "4.1".to_string(), "4.2".to_string()]
    );
    let picked = match interpret_choice("3", choices.len(), 0) {
        ChoiceOutcome::Select(i) => &choices[i],
        _ => panic!("3 is a valid choice among three options"),
    };
    assert_eq!(picked, "4.2");
    match navigate_step("https://downloads.example/godotengine", picked.as_str()) {
        NavStep::Descend(url) => {
            assert_eq!(url, "https://downloads.example/godotengine/4.2")
        },
        NavStep::Terminal(_) => panic!("a version directory is not terminal"),
    }
}
