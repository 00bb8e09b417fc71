use rust_slint_sticky::note::{AppNote, Priority, SerializableColor, WorkflowStatus};
use rust_slint_sticky::note::is_stop_word;

fn is_minute_stamp(stamp: &str) -> bool {
    let chars: Vec<char> = stamp.chars().collect();
    let n = chars.len();
    if n < 16 {
        return false;
    }
    let digit = |i: usize| chars[n - i].is_ascii_digit();
    chars[n - 12] == '-'
        && digit(11)
        && digit(10)
        && chars[n - 9] == '-'
        && digit(8)
        && digit(7)
        && chars[n - 6] == ' '
        && digit(5)
        && digit(4)
        && chars[n - 3] == ':'
        && digit(2)
        && digit(1)
}

fn is_identifier(id: &str) -> bool {
    let chars: Vec<char> = id.chars().collect();
    chars.len() == 36
        && chars.iter().enumerate().all(|(i, c)| {
            if i == 8 || i == 13 || i == 18 || i == 23 {
                *c == '-'
            } else {
                c.is_ascii_digit() || ('a'..='f').contains(c)
            }
        })
        && chars[14] == '4'
}

fn strings(items: &[&str]) -> Vec<String> {
    items.iter().map(|s| s.to_string()).collect()
}

#[test]
fn test_sticky_note_creation() {
    let note = AppNote::new("Test Title".to_string(), "Test Content".to_string());
    assert_eq!(note.title, "Test Title");
    assert_eq!(note.content, "Test Content");
    assert!(!note.id.is_empty());
    assert!(!note.created_at.is_empty());
    assert!(!note.updated_at.is_empty());
}

#[test]
fn test_sticky_note_update() {
    let mut note = AppNote::new("Original".to_string(), "Original Content".to_string());

    note.update_content("Updated".to_string(), "Updated Content".to_string());

    assert_eq!(note.title, "Updated");
    assert_eq!(note.content, "Updated Content");
    assert!(!note.updated_at.is_empty());
}

#[test]
fn test_sticky_note_position() {
    let mut note = AppNote::default();
    note.set_position(100, 200);

    assert_eq!(note.x, 100);
    assert_eq!(note.y, 200);
}

#[test]
fn test_sticky_note_size() {
    let mut note = AppNote::default();
    note.set_size(300, 400);

    assert_eq!(note.width, 300);
    assert_eq!(note.height, 400);
}

#[test]
fn test_create_new_note() {
    let note = AppNote::new("Test Title".to_string(), "Test Content".to_string());

    assert_eq!(note.title, "Test Title");
    assert_eq!(note.content, "Test Content");
    assert!(!note.id.is_empty());
    assert!(!note.created_at.is_empty());
    assert!(!note.updated_at.is_empty());
    assert_eq!(note.x, 10);
    assert_eq!(note.y, 10);
    assert_eq!(note.width, 220);
    assert_eq!(note.height, 200);
}

#[test]
fn test_note_update_content() {
    let mut note = AppNote::new("Original".to_string(), "Original Content".to_string());
    let original_created_at = note.created_at.clone();

    note.update_content("Updated Title".to_string(), "Updated Content".to_string());

    assert_eq!(note.title, "Updated Title");
    assert_eq!(note.content, "Updated Content");
    assert_eq!(note.created_at, original_created_at);
    assert!(!note.updated_at.is_empty());
}

#[test]
fn test_note_set_color() {
    let mut note = AppNote::new("Test".to_string(), "Test".to_string());
    let new_color = SerializableColor { red: 100, green: 150, blue: 200 };

    note.set_color(new_color);

    assert_eq!(note.color.red, 100);
    assert_eq!(note.color.green, 150);
    assert_eq!(note.color.blue, 200);
}

#[test]
fn test_note_set_position() {
    let mut note = AppNote::new("Test".to_string(), "Test".to_string());

    note.set_position(100, 200);

    assert_eq!(note.x, 100);
    assert_eq!(note.y, 200);
}

#[test]
fn test_note_set_size() {
    let mut note = AppNote::new("Test".to_string(), "Test".to_string());

    note.set_size(300, 250);

    assert_eq!(note.width, 300);
    assert_eq!(note.height, 250);
}

#[test]
fn new_note_has_the_documented_defaults() {
    let note = AppNote::new("Plan".to_string(), "Nothing special".to_string());
    assert_eq!(note.color, SerializableColor { red: 255, green: 235, blue: 59 });
    assert_eq!(note.text_color, None);
    assert!(note.tags.is_empty());
    assert_eq!(note.workflow_status, WorkflowStatus::Idea);
    assert_eq!(note.priority, Priority::Medium);
    assert_eq!(note.due_date, None);
    assert_eq!(note.estimated_time, None);
    assert_eq!(note.actual_time, None);
    assert_eq!(note.completion_percentage, 0);
    assert_eq!(note.created_at, note.updated_at);
    assert_eq!(note.keywords, strings(&["plan", "nothing", "special"]));
    assert_eq!(note.sentiment, Some(0));
}

#[test]
fn identifiers_are_hyphenated_version_four_and_differ() {
    let a = AppNote::new("a".to_string(), "".to_string());
    let b = AppNote::new("a".to_string(), "".to_string());
    assert!(is_identifier(&a.id), "{}", a.id);
    assert!(is_identifier(&b.id), "{}", b.id);
    assert_ne!(a.id, b.id);
}

#[test]
fn timestamps_have_minute_resolution() {
    let mut note = AppNote::new("a".to_string(), "b".to_string());
    assert!(is_minute_stamp(&note.created_at), "{}", note.created_at);
    assert_eq!(note.created_at.len(), 16);
    note.touch("earlier".to_string());
    assert_eq!(note.updated_at, "earlier");
    note.set_workflow_status(WorkflowStatus::Review);
    assert_eq!(note.workflow_status, WorkflowStatus::Review);
    assert!(is_minute_stamp(&note.updated_at), "{}", note.updated_at);
}

#[test]
fn with_identity_uses_what_it_is_given() {
    let note = AppNote::with_identity(
        "note-1".to_string(),
        "2024-05-06 07:08".to_string(),
        "Great News".to_string(),
        "We love the awesome launch".to_string(),
    );
    assert_eq!(note.id, "note-1");
    assert_eq!(note.created_at, "2024-05-06 07:08");
    assert_eq!(note.updated_at, "2024-05-06 07:08");
    assert_eq!(note.keywords, strings(&["great", "news", "love", "awesome", "launch"]));
    assert_eq!(note.sentiment, Some(1));
}

#[test]
fn update_content_keeps_identity_and_rederives() {
    let mut note = AppNote::with_identity(
        "id".to_string(),
        "2020-01-01 00:00".to_string(),
        "Happy day".to_string(),
        "good things".to_string(),
    );
    note.add_tag("Mood".to_string());
    assert_eq!(note.sentiment, Some(1));
    note.update_content("Awful day".to_string(), "terrible sad things".to_string());
    assert_eq!(note.id, "id");
    assert_eq!(note.created_at, "2020-01-01 00:00");
    assert!(is_minute_stamp(&note.updated_at));
    assert_ne!(note.updated_at, "2020-01-01 00:00");
    assert_eq!(note.keywords, strings(&["awful", "terrible", "things"]));
    assert_eq!(note.sentiment, Some(-1));
    assert_eq!(note.tags, strings(&["mood"]));
}

#[test]
fn tags_are_stored_lower_cased() {
    let mut note = AppNote::new("t".to_string(), "c".to_string());
    note.add_tag("AI".to_string());
    assert_eq!(note.tags, strings(&["ai"]));
    note.add_tag("Ai".to_string());
    assert_eq!(note.tags, strings(&["ai"]));
    note.add_tag("Project".to_string());
    assert_eq!(note.tags, strings(&["ai", "project"]));
    note.remove_tag("ai");
    assert_eq!(note.tags, strings(&["project"]));
    note.remove_tag("missing");
    assert_eq!(note.tags, strings(&["project"]));
}

#[test]
fn add_then_remove_in_another_case_empties_the_tags() {
    let mut note = AppNote::new("t".to_string(), "c".to_string());
    note.add_tag("AI".to_string());
    note.remove_tag("ai");
    assert!(note.tags.is_empty());
    note.add_tag("straße".to_string());
    note.remove_tag("STRAßE");
    assert!(note.tags.is_empty());
}

#[test]
fn keywords_skip_short_words_stop_words_and_repeats() {
    let mut note = AppNote::new(
        "The Quick brown".to_string(),
        "fox  would\thave been\nquick with THE lazy dogs and cats".to_string(),
    );
    assert_eq!(note.keywords, strings(&["quick", "brown", "lazy", "dogs", "cats"]));
    note.title = "   ".to_string();
    note.content = "".to_string();
    note.extract_keywords();
    assert!(note.keywords.is_empty());
}

#[test]
fn keywords_split_on_unicode_whitespace_and_count_characters() {
    let note = AppNote::new(
        "alpha\u{a0}beta\u{2003}gamma".to_string(),
        "\u{3000}delta äöü éèêë".to_string(),
    );
    assert_eq!(note.keywords, strings(&["alpha", "beta", "gamma", "delta", "éèêë"]));
}

#[test]
fn title_and_body_are_joined_by_one_space() {
    let note = AppNote::new("over".to_string(), "flow".to_string());
    assert_eq!(note.keywords, strings(&["over", "flow"]));
    let note = AppNote::new("go".to_string(), "od".to_string());
    assert_eq!(note.sentiment, Some(0));
}

#[test]
fn sentiment_counts_each_word_once_and_clamps() {
    let score = |title: &str, content: &str| {
        AppNote::new(title.to_string(), content.to_string()).sentiment
    };
    assert_eq!(score("", ""), Some(0));
    assert_eq!(score("Good", ""), Some(1));
    assert_eq!(score("good good good", "bad"), Some(0));
    assert_eq!(score("good great", "bad"), Some(1));
    assert_eq!(score("good great excellent awesome", "happy love amazing"), Some(1));
    assert_eq!(score("bad", "terrible awful hate sad angry frustrated"), Some(-1));
    assert_eq!(score("good", "bad sad"), Some(-1));
    assert_eq!(score("Goodness", "badly"), Some(0));
    assert_eq!(score("gloves", ""), Some(1));
    assert_eq!(score("I HATE this", ""), Some(-1));
}

#[test]
fn stop_words_are_the_fixed_list() {
    let stops = [
        "the", "and", "or", "but", "in", "on", "at", "to", "for", "of", "with", "by", "is", "are",
        "was", "were", "be", "been", "have", "has", "had", "do", "does", "did", "will", "would",
        "could", "should",
    ];
    for word in stops {
        assert!(is_stop_word(word), "{}", word);
    }
    for word in ["", "The", "them", "note", "shoul", "should ", "woul"] {
        assert!(!is_stop_word(word), "{}", word);
    }
}

#[test]
fn clone_copies_every_field() {
    let mut note = AppNote::new("Title here".to_string(), "Body text".to_string());
    note.add_tag("One".to_string());
    note.text_color = Some(SerializableColor { red: 1, green: 2, blue: 3 });
    note.due_date = Some("2030-01-01".to_string());
    note.estimated_time = Some(90);
    note.actual_time = Some(45);
    note.completion_percentage = 50;
    note.priority = Priority::Urgent;
    let copy = note.clone();
    assert_eq!(copy.id, note.id);
    assert_eq!(copy.title, note.title);
    assert_eq!(copy.content, note.content);
    assert_eq!(copy.color, note.color);
    assert_eq!(copy.text_color, note.text_color);
    assert_eq!((copy.x, copy.y, copy.width, copy.height), (10, 10, 220, 200));
    assert_eq!(copy.created_at, note.created_at);
    assert_eq!(copy.updated_at, note.updated_at);
    assert_eq!(copy.tags, note.tags);
    assert_eq!(copy.keywords, note.keywords);
    assert_eq!(copy.workflow_status, note.workflow_status);
    assert_eq!(copy.sentiment, note.sentiment);
    assert_eq!(copy.priority, Priority::Urgent);
    assert_eq!(copy.due_date, note.due_date);
    assert_eq!(copy.estimated_time, Some(90));
    assert_eq!(copy.actual_time, Some(45));
    assert_eq!(copy.completion_percentage, 50);
}

#[test]
fn default_note_is_titled_new_note() {
    let note = AppNote::default();
    assert_eq!(note.title, "New Note");
    assert_eq!(note.content, "");
    assert_eq!(note.keywords, strings(&["note"]));
}

#[test]
fn normalize_brings_a_filled_note_into_its_invariant() {
    let mut note = AppNote::with_identity(
        "id".to_string(),
        "2024-01-01 00:00".to_string(),
        "t".to_string(),
        "c".to_string(),
    );
    note.tags = strings(&["AI", "ai", "Project", "project", "x"]);
    note.keywords = strings(&["one", "two", "one", "ONE"]);
    note.sentiment = Some(7);
    note.completion_percentage = 250;
    note.normalize();
    assert_eq!(note.tags, strings(&["ai", "project", "x"]));
    assert_eq!(note.keywords, strings(&["one", "two", "ONE"]));
    assert_eq!(note.sentiment, Some(1));
    assert_eq!(note.completion_percentage, 100);
    assert_eq!(note.updated_at, "2024-01-01 00:00");
    note.sentiment = Some(-9);
    note.completion_percentage = 100;
    note.normalize();
    assert_eq!(note.sentiment, Some(-1));
    assert_eq!(note.completion_percentage, 100);
    note.sentiment = None;
    note.normalize();
    assert_eq!(note.sentiment, None);
    assert_eq!(note.tags, strings(&["ai", "project", "x"]));
}
