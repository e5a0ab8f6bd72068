use std::collections::HashSet;
use wzmapeditor::help::{
    has_help_button, is_web, open_browser_at, open_browser_home, topic_by_id, topic_for_context, topic_for_settings_page,
    topic_for_tab, topic_for_tool, topic_link, topic_visible, topics, topics_in, DockTab, HelpCategory, HelpState,
    HelpTopic, SettingsPage, ToolId, DEFAULT_TOPIC,
};
use wzmapeditor::help_search::{ceil_boundary, floor_boundary, snippet, strip_markdown, trim, SearchIndex};

fn topic_for_link(destination: &str) -> Option<HelpTopic> {
    topic_by_id(destination.strip_suffix(".md")?)
}

/// Bodies in table order; every topic but the height brush mentions height
/// only in its body.
fn sample_bodies() -> Vec<String> {
    topics()
        .iter()
        .map(|t| {
            if t.id == "terrain-height-brush" {
                "Raise and lower the ground.".to_string()
            } else {
                format!("Notes on {} and terrain height.", t.title)
            }
        })
        .collect()
}

#[test]
fn topic_ids_are_unique() {
    let mut seen = HashSet::new();
    for topic in topics() {
        assert!(seen.insert(topic.id), "duplicate topic id: {}", topic.id);
    }
}

#[test]
fn every_category_is_in_all() {
    let all = HelpCategory::all();
    for topic in topics() {
        assert!(all.contains(&topic.category), "topic {} has a category missing from all()", topic.id);
    }
}

#[test]
fn topic_links_round_trip_through_file_names() {
    for topic in topics() {
        let link = topic_link(topic.id);
        assert_eq!(link, format!("{}.md", topic.id));
        assert_eq!(topic_for_link(&link).map(|t| t.id), Some(topic.id), "{link} should resolve back to its own topic");
    }
}

#[test]
fn default_topic_exists() {
    assert!(topic_by_id(DEFAULT_TOPIC).is_some());
}

#[test]
fn unknown_topic_is_none() {
    assert!(topic_by_id("no-such-topic").is_none());
    assert!(topic_by_id("").is_none());
}

#[test]
fn every_tool_maps_to_a_real_topic() {
    let tools = [
        ToolId::HeightBrush,
        ToolId::TexturePaint,
        ToolId::GroundTypePaint,
        ToolId::VertexSculpt,
        ToolId::Stamp,
        ToolId::WallPlacement,
        ToolId::ObjectSelect,
        ToolId::ObjectPlace,
        ToolId::Gateway,
        ToolId::ScriptLabel,
    ];
    for tool in tools {
        let slug = topic_for_tool(tool);
        assert!(topic_by_id(slug).is_some(), "tool {tool:?} -> missing {slug}");
    }
}

#[test]
fn every_tab_maps_to_a_real_topic() {
    let tabs = [
        DockTab::Viewport,
        DockTab::Terrain,
        DockTab::TilesetBrowser,
        DockTab::AssetBrowser,
        DockTab::Hierarchy,
        DockTab::Properties,
        DockTab::Minimap,
        DockTab::Validation,
        DockTab::Balance,
        DockTab::OutputLog,
        DockTab::Unknown,
    ];
    for tab in &tabs {
        let slug = topic_for_tab(tab);
        assert!(topic_by_id(slug).is_some(), "tab {tab:?} -> missing {slug}");
    }
}

#[test]
fn every_settings_page_maps_to_a_real_topic() {
    for page in SettingsPage::all() {
        let slug = topic_for_settings_page(page);
        assert!(topic_by_id(slug).is_some(), "page {page:?} -> missing {slug}");
    }
}

#[test]
fn context_prefers_settings_page_then_tool() {
    assert_eq!(topic_for_tool(ToolId::HeightBrush), "terrain-height-brush");
    assert_eq!(topic_for_tab(&DockTab::Balance), "balance");
    let by_page = topic_for_context(true, SettingsPage::Keybindings, Some(DockTab::Balance), ToolId::HeightBrush);
    assert_eq!(by_page, topic_for_settings_page(SettingsPage::Keybindings));
    let by_tool = topic_for_context(false, SettingsPage::Keybindings, Some(DockTab::Viewport), ToolId::HeightBrush);
    assert_eq!(by_tool, "terrain-height-brush");
    let by_none = topic_for_context(false, SettingsPage::Keybindings, None, ToolId::Gateway);
    assert_eq!(by_none, topic_for_tool(ToolId::Gateway));
    let by_tab = topic_for_context(false, SettingsPage::Keybindings, Some(DockTab::Balance), ToolId::HeightBrush);
    assert_eq!(by_tab, "balance");
}

#[test]
fn help_button_only_on_panels_with_a_topic() {
    assert!(has_help_button(&DockTab::Balance));
    assert!(!has_help_button(&DockTab::Viewport));
}

#[test]
fn web_build_hides_native_only_topics() {
    assert!(!is_web());
    let t = topic_by_id("test-map").expect("topic exists");
    assert!(t.native_only);
    assert!(!topic_visible(&t, true));
    assert!(topic_visible(&t, false));
    assert!(topics_in(HelpCategory::Testing, true).is_empty());
    assert_eq!(topics_in(HelpCategory::Testing, false).len(), 1);
    let maps: Vec<&str> = topics_in(HelpCategory::Maps, true).iter().map(|t| t.id).collect();
    assert_eq!(maps, vec!["maps-create", "maps-resize", "maps-properties"]);
}

#[test]
fn category_labels() {
    assert_eq!(HelpCategory::GettingStarted.label(), "Getting Started");
    assert_eq!(HelpCategory::all().len(), 9);
}

#[test]
fn empty_query_returns_no_hits() {
    let index = SearchIndex::build(&sample_bodies());
    assert!(index.query("", false).is_empty());
    assert!(index.query("   ", false).is_empty());
}

#[test]
fn title_hit_ranks_above_body_hit() {
    let index = SearchIndex::build(&sample_bodies());
    let hits = index.query("height", false);
    assert!(!hits.is_empty(), "expected matches for 'height'");
    assert_eq!(hits[0].id, "terrain-height-brush", "title match should outrank body-only matches");
    assert!(hits.len() > 1);
}

#[test]
fn query_matches_known_topic() {
    let index = SearchIndex::build(&sample_bodies());
    let hits = index.query("generator", false);
    assert!(hits.iter().any(|h| h.id == "generator"));
}

#[test]
fn query_is_case_insensitive_and_trimmed() {
    let index = SearchIndex::build(&[]);
    let hits = index.query("  MAP GENERATOR ", false);
    assert_eq!(hits.len(), 1);
    assert_eq!(hits[0].id, "generator");
    assert_eq!(hits[0].title, "Map Generator");
}

#[test]
fn web_excludes_native_only_topics() {
    let index = SearchIndex::build(&sample_bodies());
    let native = index.query("testing your map", false);
    assert!(native.iter().any(|h| h.id == "test-map"));
    let web = index.query("testing your map", true);
    assert!(!web.iter().any(|h| h.id == "test-map"));
}

#[test]
fn strip_markdown_drops_syntax_and_keeps_link_text() {
    let s = strip_markdown("# Title\n\nSee [the brush](terrain.md) for **more**.");
    assert!(!s.contains('#'));
    assert!(!s.contains('*'));
    assert!(!s.contains("terrain.md"), "the link target should not pollute the search haystack");
    assert!(s.contains("the brush"));
    assert!(s.contains("Title"));
}

#[test]
fn strip_markdown_exact_output() {
    assert_eq!(strip_markdown("# Title\n\nSee [the brush](terrain.md) for **more**."), "Title See the brush for more.");
    assert_eq!(strip_markdown(""), "");
}

#[test]
fn snippet_never_panics_on_unicode() {
    let plain = "café ".repeat(40);
    let _ = snippet(&plain, 75, true);
}

#[test]
fn snippet_of_short_text_is_the_text() {
    assert_eq!(snippet("short body", 0, false), "short body");
}

#[test]
fn boundaries_snap_to_char_starts() {
    let s = "aé";
    assert_eq!(floor_boundary(s, 2), 1);
    assert_eq!(ceil_boundary(s, 2), 3);
    assert_eq!(floor_boundary(s, 10), 3);
    assert_eq!(trim("  x y \n"), "x y");
}

#[test]
fn browser_navigation() {
    let mut help = HelpState::new();
    assert!(!help.open);
    assert_eq!(help.current, DEFAULT_TOPIC);
    open_browser_at(&mut help, "balance");
    assert!(help.open);
    assert_eq!(help.current, "balance");
    help.navigate("nope");
    assert_eq!(help.current, DEFAULT_TOPIC);
    help.set_initial_topic("generator");
    assert_eq!(help.current, "generator");
    help.set_initial_topic("nope");
    assert_eq!(help.current, "generator");
    help.open = false;
    open_browser_home(&mut help);
    assert!(help.open);
    assert_eq!(help.current, "generator");
}

#[test]
fn help_state_search_results() {
    let mut help = HelpState::new();
    help.set_topic_bodies(sample_bodies());
    help.search_query = "   ".to_string();
    assert!(help.search_results(false).is_empty());
    help.search_query = "Height".to_string();
    let hits = help.search_results(false);
    assert_eq!(hits[0].id, "terrain-height-brush");
}

#[test]
fn web_results_are_native_results_without_native_only_topics() {
    let index = SearchIndex::build(&sample_bodies());
    let native_only: HashSet<&str> = topics().iter().filter(|t| t.native_only).map(|t| t.id).collect();
    for q in ["map", "testing your map", "height", "gateway", "  "] {
        let native = index.query(q, false);
        let web = index.query(q, true);
        let kept: Vec<(&str, String)> =
            native.iter().filter(|h| !native_only.contains(h.id)).map(|h| (h.id, h.snippet.clone())).collect();
        let got: Vec<(&str, String)> = web.iter().map(|h| (h.id, h.snippet.clone())).collect();
        assert_eq!(got, kept, "query {q:?}");
    }
    assert!(index.query("   ", false).is_empty());
}

#[test]
fn stripped_markdown_is_plain_single_spaced_and_stable() {
    let md = "  # Heading\n\n> quote | with *emphasis* and `code`\t[link](target.md)  end\r\n";
    let s = strip_markdown(md);
    assert_eq!(s, "Heading quote with emphasis and code link end");
    for c in ['#', '*', '_', '`', '>', '|', '[', ']', '\n', '\r', '\t'] {
        assert!(!s.contains(c), "{c:?} left in {s:?}");
    }
    assert!(!s.contains("  "));
    assert_eq!(s.trim(), s);
    assert_eq!(strip_markdown(&s), s);
}

#[test]
fn strip_markdown_keeps_link_text_and_drops_target() {
    assert_eq!(strip_markdown("[see the docs](https://x.example/a b) now"), "see the docs now");
    assert_eq!(strip_markdown("[only](x)"), "only");
}

#[test]
fn strip_markdown_trims_unicode_white_space() {
    assert_eq!(strip_markdown("\u{3000}word\u{a0}"), "word");
    assert_eq!(trim("\u{2003} a b \u{85}"), "a b");
}
