use ytmusic_manager::artist::Artist;
use ytmusic_manager::artists_file::{parse_artist_entries, parse_artists_file, ParseError};
use ytmusic_manager::variants::{search_variations, variations_for};

#[test]
fn test_parse_artists_file_basic() {
    let content = "Artist One\nArtist Two\n# Comment line\nArtist Three";
    let result = parse_artists_file(content).ok().unwrap();
    assert_eq!(result, vec!["Artist One", "Artist Two", "Artist Three"]);
}

#[test]
fn test_parse_artists_file_with_tags() {
    let content = "Artist One | tag1, tag2\nArtist Two\nArtist Three | tag3";
    let result = parse_artists_file(content).ok().unwrap();
    assert_eq!(result, vec!["Artist One", "Artist Two", "Artist Three"]);
}

#[test]
fn test_parse_artists_file_empty_lines() {
    let content = "\nArtist One\n\n\nArtist Two\n\n";
    let result = parse_artists_file(content).ok().unwrap();
    assert_eq!(result, vec!["Artist One", "Artist Two"]);
}

#[test]
fn test_parse_artists_file_comments_only() {
    let content = "# Comment 1\n# Comment 2\n# Comment 3";
    let result = parse_artists_file(content).ok().unwrap();
    assert!(result.is_empty());
}

#[test]
fn test_parse_artists_file_name_too_long() {
    let long_name = "A".repeat(101);
    let content = format!("{}\nValid Artist", long_name);
    let result = parse_artists_file(&content);
    assert!(result.is_err());
}

#[test]
fn test_artist_creation() {
    let artist = Artist {
        name: "Test Artist".to_string(),
        channel_id: "UCtest123".to_string(),
        subscriber_count: Some(1000),
        description: Some("Test description".to_string()),
    };

    assert_eq!(artist.name, "Test Artist");
    assert_eq!(artist.channel_id, "UCtest123");
    assert_eq!(artist.subscriber_count, Some(1000));
    assert_eq!(artist.description, Some("Test description".to_string()));
}

#[test]
fn test_artist_without_optional_fields() {
    let artist = Artist {
        name: "Test Artist".to_string(),
        channel_id: "UCtest123".to_string(),
        subscriber_count: None,
        description: None,
    };

    assert_eq!(artist.name, "Test Artist");
    assert_eq!(artist.channel_id, "UCtest123");
    assert_eq!(artist.subscriber_count, None);
    assert_eq!(artist.description, None);
}

#[test]
fn test_generate_search_variations() {
    // Test single word artist
    let variations = search_variations("Tool");
    assert!(variations.contains(&"Tool".to_string()));
    assert!(variations.contains(&"Tool band".to_string()));
    assert!(variations.contains(&"Tool - Topic".to_string()));
    assert!(variations.contains(&"The Tool".to_string()));

    // Test multi-word artist
    let variations = search_variations("Nine Inch Nails");
    assert!(variations.contains(&"Nine Inch Nails".to_string()));
    assert!(variations.contains(&"Nine Inch Nails band".to_string()));
    assert!(variations.contains(&"Nine Inch Nails - Topic".to_string()));
    assert!(!variations.contains(&"The Nine Inch Nails".to_string())); // Only for single words
}

#[test]
fn variations_keep_their_order() {
    let variations = search_variations("Tool");
    assert_eq!(
        variations,
        vec![
            "Tool",
            "Tool band",
            "Tool music",
            "Tool official",
            "Tool channel",
            "ToolVEVO",
            "Tool VEVO",
            "Tool - Topic",
            "ToolTopic",
            "Toolband",
            "The Tool",
        ]
    );
}

#[test]
fn variations_of_a_name_with_a_tab_skip_single_word_terms() {
    let variations = search_variations("Sigur\tRos");
    assert_eq!(variations.len(), 9);
    assert!(!variations.contains(&"Sigur\tRosband".to_string()));
    assert!(!variations.contains(&"The Sigur\tRos".to_string()));
}

#[test]
fn name_of_one_hundred_characters_is_accepted() {
    let name = "B".repeat(100);
    let content = format!("{}\nValid Artist", name);
    let result = parse_artists_file(&content).ok().unwrap();
    assert_eq!(result, vec![name, "Valid Artist".to_string()]);
}

#[test]
fn name_of_one_hundred_and_one_characters_names_its_line() {
    let name = "C".repeat(101);
    let content = format!("# header\nFirst\n{} | tags", name);
    match parse_artists_file(&content) {
        Err(ParseError::NameTooLong { line, name: n }) => {
            assert_eq!(line, 3);
            assert_eq!(n, name);
        }
        Ok(_) => panic!("a name of 101 characters must fail the parse"),
    }
}

#[test]
fn length_limit_counts_characters_not_bytes() {
    let name = "é".repeat(100);
    let result = parse_artists_file(&name).ok().unwrap();
    assert_eq!(result, vec![name]);
}

#[test]
fn entries_carry_line_numbers_and_tags() {
    let content = "  Artist One | tag1, tag2  \r\n#skip\n | only tags\nArtist Two";
    let entries = parse_artist_entries(content).ok().unwrap();
    assert_eq!(entries.len(), 2);
    assert_eq!(entries[0].line, 1);
    assert_eq!(entries[0].name, "Artist One");
    assert_eq!(entries[0].tags, Some("tag1, tag2".to_string()));
    assert_eq!(entries[1].line, 4);
    assert_eq!(entries[1].name, "Artist Two");
    assert_eq!(entries[1].tags, None);
}

#[test]
fn empty_input_has_no_entries() {
    assert!(parse_artists_file("").ok().unwrap().is_empty());
    assert!(parse_artists_file("   \n\t\n").ok().unwrap().is_empty());
}

#[test]
fn variations_follow_the_given_white_space_answer() {
    let spaced = variations_for("Tool", true);
    assert_eq!(spaced.len(), 9);
    assert!(!spaced.contains(&"The Tool".to_string()));
    let single = variations_for("Nine Inch Nails", false);
    assert_eq!(single.len(), 11);
    assert_eq!(single[9], "Nine Inch Nailsband");
    assert_eq!(single[10], "The Nine Inch Nails");
}

#[test]
fn repeated_names_keep_their_first_spelling() {
    let content = "Tool\nMuse | rock\ntool\nAir\nMUSE\nTool";
    let result = parse_artists_file(content).ok().unwrap();
    assert_eq!(result, vec!["Tool", "Muse", "Air"]);
}

#[test]
fn unicode_white_space_is_trimmed() {
    let content = "\u{3000}Björk\u{00A0}|\u{2003}tag\u{0085}";
    let entries = parse_artist_entries(content).ok().unwrap();
    assert_eq!(entries[0].name, "Björk");
    assert_eq!(entries[0].tags, Some("tag".to_string()));
}
