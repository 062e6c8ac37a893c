use ytmusic_manager::artist::{artist_from_detail, enrich, parse_count, placeholder_artists, Artist, ChannelDetail};
use ytmusic_manager::cache::ArtistCache;
use ytmusic_manager::fetch::PageFetch;
use ytmusic_manager::planner::{distinct_targets, distinct_targets_folded, plan, plan_folded};
use ytmusic_manager::text::{is_white_space, same_text};
use ytmusic_manager::resolve::{first_match, first_match_folded, title_matches, title_matches_folded, ArtistSearch, SearchCandidate, SearchStep};

fn strings(v: &[&str]) -> Vec<String> {
    v.iter().map(|s| s.to_string()).collect()
}

fn artist(name: &str, id: &str) -> Artist {
    Artist { name: name.to_string(), channel_id: id.to_string(), subscriber_count: Some(42), description: None }
}

fn candidate(title: Option<&str>, id: Option<&str>) -> SearchCandidate {
    SearchCandidate {
        title: title.map(|s| s.to_string()),
        channel_id: id.map(|s| s.to_string()),
        description: Some("desc".to_string()),
    }
}

#[test]
fn plan_splits_known_and_unknown_targets() {
    let p = plan(&strings(&["tool"]), &strings(&["Tool", "UnknownXyzArtist123"]));
    assert_eq!(p.already_subscribed, vec!["Tool"]);
    assert_eq!(p.to_subscribe, vec!["UnknownXyzArtist123"]);
}

#[test]
fn plan_keeps_target_order_and_every_target() {
    let current = strings(&["MUSE", "Radiohead"]);
    let targets = strings(&["Björk", "radiohead", "Tool", "Muse", "tool"]);
    let p = plan(&current, &targets);
    assert_eq!(p.already_subscribed, vec!["radiohead", "Muse"]);
    assert_eq!(p.to_subscribe, vec!["Björk", "Tool", "tool"]);
    assert_eq!(p.already_subscribed.len() + p.to_subscribe.len(), targets.len());
}

#[test]
fn plan_with_nothing_subscribed() {
    let p = plan(&Vec::new(), &strings(&["A", "B"]));
    assert!(p.already_subscribed.is_empty());
    assert_eq!(p.to_subscribe, vec!["A", "B"]);
}

#[test]
fn unknown_artist_resolves_to_not_found() {
    let mut search = ArtistSearch::new("UnknownXyzArtist123");
    let mut tried = 0;
    let mut delays = Vec::new();
    loop {
        assert!(search.next_term().is_some());
        tried += 1;
        let results = vec![candidate(Some("Somebody Else"), Some("UC1"))];
        match search.on_results(&results) {
            SearchStep::Found(_) => panic!("nothing should match"),
            SearchStep::TryNext { delay_ms } => delays.push(delay_ms),
            SearchStep::NotFound => break,
            SearchStep::Failed => panic!("no search failed"),
        }
    }
    assert_eq!(tried, 11);
    assert!(search.next_term().is_none());
    assert_eq!(delays[0], 0);
    assert!(delays[1..].iter().all(|d| *d == 200));
    assert_eq!(delays.len(), 10);
}

#[test]
fn resolution_stops_at_first_match() {
    let mut search = ArtistSearch::new("Muse");
    assert_eq!(search.next_term(), Some("Muse".to_string()));
    match search.on_results(&Vec::new()) {
        SearchStep::TryNext { delay_ms } => assert_eq!(delay_ms, 0),
        _ => panic!("expected another term"),
    }
    assert_eq!(search.next_term(), Some("Muse band".to_string()));
    let results = vec![
        candidate(Some("Muse fan page"), None),
        candidate(Some("Other"), Some("UC0")),
        candidate(Some("MUSE - Topic"), Some("UC2")),
        candidate(Some("Muse"), Some("UC3")),
    ];
    match search.on_results(&results) {
        SearchStep::Found(a) => {
            assert_eq!(a.name, "MUSE - Topic");
            assert_eq!(a.channel_id, "UC2");
            assert_eq!(a.subscriber_count, None);
            assert_eq!(a.description, Some("desc".to_string()));
        }
        _ => panic!("expected a match"),
    }
}

#[test]
fn match_policy_examples() {
    assert!(title_matches("Muse", "Muse - Topic"));
    assert!(title_matches("Muse", "MUSE"));
    assert!(title_matches("Muse", "Amuse"));
    assert!(title_matches("Muse Live Official", "muse"));
    assert!(!title_matches("Muse", "Radiohead"));
}

#[test]
fn folded_match_policy_examples() {
    assert!(title_matches_folded("muse", "muse"));
    assert!(title_matches_folded("muse", "muse - topic"));
    assert!(title_matches_folded("muse - topic", "muse"));
    assert!(!title_matches_folded("muse", "MUSE"));
    assert!(!title_matches_folded("muse", "radiohead"));
}

#[test]
fn first_match_skips_incomplete_candidates() {
    let results = vec![candidate(None, Some("UC1")), candidate(Some("Tool"), None), candidate(Some("tool"), Some("UC3"))];
    assert_eq!(first_match("TOOL", &results), Some(2));
    assert_eq!(first_match("Björk", &results), None);
}

#[test]
fn cache_returns_what_was_written() {
    let mut cache = ArtistCache::new();
    let a = Artist {
        name: "Tool".to_string(),
        channel_id: "UCtool".to_string(),
        subscriber_count: Some(1_000_000),
        description: Some("band".to_string()),
    };
    cache.upsert("tool", a.clone(), 1_000);
    assert_eq!(cache.lookup("tool", 1_500, 86_400), Some(a));
    assert_eq!(cache.lookup("Tool", 1_500, 86_400), None);
}

#[test]
fn stale_row_is_not_returned_but_kept() {
    let mut cache = ArtistCache::new();
    cache.upsert("muse", artist("Muse", "UCmuse"), 1_000);
    assert_eq!(cache.lookup("muse", 1_000 + 86_400, 86_400), None);
    assert_eq!(cache.lookup("muse", 1_000 + 86_399, 86_400), Some(artist("Muse", "UCmuse")));
    assert_eq!(cache.len(), 1);
}

#[test]
fn upsert_replaces_the_row() {
    let mut cache = ArtistCache::new();
    cache.upsert("muse", artist("Muse", "UC1"), 10);
    cache.upsert("tool", artist("Tool", "UC2"), 10);
    cache.upsert("muse", artist("Muse", "UC3"), 20);
    assert_eq!(cache.len(), 2);
    assert_eq!(cache.lookup("muse", 25, 100), Some(artist("Muse", "UC3")));
}

#[test]
fn page_uses_cache_then_resolver() {
    let all = strings(&["Tool", "Muse", "Björk", "Air"]);
    let mut cache = ArtistCache::new();
    cache.upsert("Tool", artist("Tool", "UCtool"), 100);
    let mut page = PageFetch::new(&all, 0, 3, false);
    assert_eq!(page.pending(), Some("Tool".to_string()));
    assert!(page.try_cache(&cache, 150, 1_000));
    assert_eq!(page.pending(), Some("Muse".to_string()));
    assert!(!page.try_cache(&cache, 150, 1_000));
    page.record(Some(artist("Muse", "UCmuse")), &mut cache, 160);
    assert_eq!(cache.lookup("Muse", 170, 1_000), Some(artist("Muse", "UCmuse")));
    assert_eq!(page.pending(), Some("Björk".to_string()));
    page.record(None, &mut cache, 170);
    assert_eq!(page.pending(), None);
    let r = page.finish();
    assert_eq!(r.artists, vec![artist("Tool", "UCtool"), artist("Muse", "UCmuse")]);
    assert!(r.has_more);
    assert_eq!(r.total, 4);
}

#[test]
fn forced_page_bypasses_cache() {
    let all = strings(&["Tool"]);
    let mut cache = ArtistCache::new();
    cache.upsert("Tool", artist("Tool", "UCtool"), 100);
    let mut page = PageFetch::new(&all, 0, 10, true);
    assert!(!page.try_cache(&cache, 150, 1_000));
    page.record(Some(artist("Tool", "UCnew")), &mut cache, 200);
    let r = page.finish();
    assert_eq!(r.artists, vec![artist("Tool", "UCnew")]);
    assert!(!r.has_more);
    assert_eq!(r.total, 1);
    assert_eq!(cache.lookup("Tool", 201, 1_000), Some(artist("Tool", "UCnew")));
}

#[test]
fn page_past_the_end_is_empty() {
    let all = strings(&["Tool", "Muse"]);
    let page = PageFetch::new(&all, 5, 10, false);
    assert_eq!(page.pending(), None);
    let r = page.finish();
    assert!(r.artists.is_empty());
    assert!(!r.has_more);
    assert_eq!(r.total, 2);
}

#[test]
fn page_with_nothing_resolved_falls_back_to_placeholders() {
    let all = strings(&["UnknownXyzArtist123"]);
    let mut cache = ArtistCache::new();
    let mut page = PageFetch::new(&all, 0, 10, false);
    assert!(!page.try_cache(&cache, 0, 10));
    page.record(None, &mut cache, 0);
    let r = page.finish();
    assert_eq!(r.artists, placeholder_artists());
    assert_eq!(r.artists[0].name, "Let's Get Rusty");
    assert_eq!(r.artists[1].channel_id, "mock_id_2");
    assert!(!r.has_more);
    assert_eq!(r.total, 2);
    assert_eq!(cache.len(), 0);
}

#[test]
fn detail_enrichment_is_best_effort() {
    let basic = artist("Muse - Topic", "UCmuse");
    let detail = ChannelDetail { title: None, description: Some("Rock".to_string()), subscriber_count: Some(7) };
    let rich = enrich(basic.clone(), Some(detail));
    assert_eq!(rich.name, "Unknown");
    assert_eq!(rich.channel_id, "UCmuse");
    assert_eq!(rich.subscriber_count, Some(7));
    assert_eq!(rich.description, Some("Rock".to_string()));
    assert_eq!(enrich(basic.clone(), None), basic);
    let titled = ChannelDetail { title: Some("Muse".to_string()), description: None, subscriber_count: None };
    assert_eq!(artist_from_detail("UCx", &titled).name, "Muse");
}

#[test]
fn counts_are_read_in_decimal() {
    assert_eq!(parse_count("12345"), Some(12345));
    assert_eq!(parse_count("+7"), Some(7));
    assert_eq!(parse_count("0"), Some(0));
    assert_eq!(parse_count("18446744073709551615"), Some(u64::MAX));
    assert_eq!(parse_count("18446744073709551616"), None);
    assert_eq!(parse_count(""), None);
    assert_eq!(parse_count("+"), None);
    assert_eq!(parse_count("12a"), None);
    assert_eq!(parse_count("-3"), None);
    assert_eq!(parse_count(" 3"), None);
}

#[test]
fn folded_plan_compares_folded_forms_exactly() {
    let current_folded = strings(&["tool", "muse"]);
    let targets = strings(&["Tool", "MUSE", "Air"]);
    let targets_folded = strings(&["tool", "MUSE", "air"]);
    let p = plan_folded(&current_folded, &targets, &targets_folded);
    assert_eq!(p.already_subscribed, vec!["Tool"]);
    assert_eq!(p.to_subscribe, vec!["MUSE", "Air"]);
}

#[test]
fn folded_first_match_uses_given_titles() {
    let results = vec![candidate(Some("Tool"), Some("UC1")), candidate(Some("TOOL"), Some("UC2"))];
    let titles = strings(&["Tool", "tool"]);
    assert_eq!(first_match_folded("tool", &results, &titles), Some(1));
    assert_eq!(first_match_folded("air", &results, &titles), None);
}

#[test]
fn transport_failures_are_reported_once_terms_run_out() {
    let mut search = ArtistSearch::new("Nine Inch Nails");
    match search.on_fault() {
        SearchStep::TryNext { delay_ms } => assert_eq!(delay_ms, 0),
        _ => panic!("expected another term"),
    }
    let mut last = None;
    while search.next_term().is_some() {
        last = Some(search.on_results(&Vec::new()));
    }
    assert!(matches!(last, Some(SearchStep::Failed)));
    assert!(search.faulted);
}

#[test]
fn a_failed_term_does_not_stop_a_later_match() {
    let mut search = ArtistSearch::new("Muse");
    assert!(matches!(search.on_fault(), SearchStep::TryNext { .. }));
    let results = vec![candidate(Some("Muse"), Some("UCmuse"))];
    match search.on_results(&results) {
        SearchStep::Found(a) => assert_eq!(a.channel_id, "UCmuse"),
        _ => panic!("expected a match"),
    }
}

#[test]
fn distinct_targets_keep_first_of_each_form() {
    let targets = strings(&["Tool", "Muse", "TOOL", "Björk", "BJÖRK", "muse", "Air"]);
    assert_eq!(distinct_targets(&targets), vec!["Tool", "Muse", "Björk", "Air"]);
    assert!(distinct_targets(&Vec::new()).is_empty());
}

#[test]
fn distinct_targets_folded_compare_given_forms() {
    let targets = strings(&["A", "B", "C"]);
    let folded = strings(&["x", "y", "x"]);
    assert_eq!(distinct_targets_folded(&targets, &folded), vec!["A", "B"]);
}

#[test]
fn white_space_agrees_with_std() {
    for code in 0u32..0x3100 {
        if let Some(c) = char::from_u32(code) {
            assert_eq!(is_white_space(c), c.is_whitespace(), "code point {code:#x}");
        }
    }
    assert!(!is_white_space('\u{200B}'));
    assert!(!is_white_space('\u{FEFF}'));
}

#[test]
fn same_text_compares_characters() {
    assert!(same_text("Björk", "Björk"));
    assert!(!same_text("Björk", "Bjork"));
    assert!(!same_text("ab", "abc"));
    assert!(same_text("", ""));
}
