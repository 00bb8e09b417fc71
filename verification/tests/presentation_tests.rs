use rust_slint_sticky::note::{
    AppNote, NoteRelation, Priority, RelationType, SerializableColor, WorkflowStatus,
};
use rust_slint_sticky::presentation::{
    argb_to_text_color, cascade_position, parse_tags, quick_title, scattered_position,
    text_color_to_argb, ArgbColor, EditorInput, NoteCard,
};
use rust_slint_sticky::similarity::Similarity;

fn strings(items: &[&str]) -> Vec<String> {
    items.iter().map(|s| s.to_string()).collect()
}

fn card(title: &str, content: &str, tags: &[&str], status: &str) -> NoteCard {
    NoteCard {
        id: "id".to_string(),
        title: title.to_string(),
        content: content.to_string(),
        color: SerializableColor { red: 1, green: 2, blue: 3 },
        text_color: ArgbColor { alpha: 0, red: 0, green: 0, blue: 0 },
        x: 0,
        y: 0,
        width: 1,
        height: 1,
        tags: strings(tags),
        workflow_status: status.to_string(),
        priority: "Medium".to_string(),
        due_date: String::new(),
        estimated_time: 0,
        completion_percentage: 0,
        updated_at: "2024-01-01 00:00".to_string(),
    }
}

#[test]
fn test_slint_note_conversion() {
    let original_note = AppNote::new("Test Title".to_string(), "Test Content".to_string());
    let slint_note = original_note.to_card();
    let converted_back = AppNote::from_card(&slint_note, "2024-01-01T00:00:00+00:00".to_string());

    assert_eq!(original_note.id, converted_back.id);
    assert_eq!(original_note.title, converted_back.title);
    assert_eq!(original_note.content, converted_back.content);
    assert_eq!(original_note.x, converted_back.x);
    assert_eq!(original_note.y, converted_back.y);
    assert_eq!(original_note.width, converted_back.width);
    assert_eq!(original_note.height, converted_back.height);
}

#[test]
fn labels_are_the_shown_names() {
    let statuses = [
        (WorkflowStatus::Idea, "Idea"),
        (WorkflowStatus::Todo, "Todo"),
        (WorkflowStatus::InProgress, "In Progress"),
        (WorkflowStatus::Review, "Review"),
        (WorkflowStatus::Done, "Done"),
        (WorkflowStatus::Archived, "Archived"),
    ];
    for (status, label) in statuses {
        assert_eq!(status.label(), label);
    }
    let priorities = [
        (Priority::Low, "Low"),
        (Priority::Medium, "Medium"),
        (Priority::High, "High"),
        (Priority::Urgent, "Urgent"),
    ];
    for (priority, label) in priorities {
        assert_eq!(priority.label(), label);
        assert_eq!(Priority::from_choice(label), priority);
    }
    let relations = [
        RelationType::RelatedTo,
        RelationType::DependsOn,
        RelationType::Blocks,
        RelationType::PartOf,
        RelationType::SubtaskOf,
        RelationType::References,
        RelationType::Conflicts,
        RelationType::Extends,
    ];
    for relation in relations {
        assert_eq!(relation.label(), format!("{:?}", relation));
    }
}

#[test]
fn choices_fall_back_to_idea_and_medium() {
    assert_eq!(WorkflowStatus::from_choice("Todo"), WorkflowStatus::Todo);
    assert_eq!(WorkflowStatus::from_choice("Progress"), WorkflowStatus::InProgress);
    assert_eq!(WorkflowStatus::from_choice("In Progress"), WorkflowStatus::Idea);
    assert_eq!(WorkflowStatus::from_choice("Review"), WorkflowStatus::Review);
    assert_eq!(WorkflowStatus::from_choice("Done"), WorkflowStatus::Done);
    assert_eq!(WorkflowStatus::from_choice("Archived"), WorkflowStatus::Archived);
    assert_eq!(WorkflowStatus::from_choice("Idea"), WorkflowStatus::Idea);
    assert_eq!(WorkflowStatus::from_choice("todo"), WorkflowStatus::Idea);
    assert_eq!(WorkflowStatus::from_choice(""), WorkflowStatus::Idea);
    assert_eq!(Priority::from_choice("urgent"), Priority::Medium);
    assert_eq!(Priority::from_choice(""), Priority::Medium);
}

#[test]
fn text_colours_are_opaque_or_absent() {
    let red = SerializableColor { red: 200, green: 10, blue: 20 };
    assert_eq!(
        text_color_to_argb(Some(red)),
        ArgbColor { alpha: 255, red: 200, green: 10, blue: 20 }
    );
    assert_eq!(text_color_to_argb(None), ArgbColor { alpha: 0, red: 0, green: 0, blue: 0 });
    assert_eq!(argb_to_text_color(text_color_to_argb(Some(red))), Some(red));
    assert_eq!(argb_to_text_color(text_color_to_argb(None)), None);
    assert_eq!(argb_to_text_color(ArgbColor { alpha: 1, red: 200, green: 10, blue: 20 }), Some(red));
    assert_eq!(argb_to_text_color(ArgbColor { alpha: 0, red: 200, green: 10, blue: 20 }), None);
}

#[test]
fn a_card_shows_the_note() {
    let mut note = AppNote::with_identity(
        "n1".to_string(),
        "2024-01-01 00:00".to_string(),
        "Title".to_string(),
        "Body".to_string(),
    );
    note.tags = strings(&["one", "two"]);
    note.workflow_status = WorkflowStatus::InProgress;
    note.priority = Priority::High;
    note.x = -5;
    note.estimated_time = Some(240);
    note.completion_percentage = 40;
    let shown = note.to_card();
    assert_eq!(shown.id, "n1");
    assert_eq!(shown.title, "Title");
    assert_eq!(shown.content, "Body");
    assert_eq!(shown.color, SerializableColor { red: 255, green: 235, blue: 59 });
    assert_eq!(shown.text_color, ArgbColor { alpha: 0, red: 0, green: 0, blue: 0 });
    assert_eq!((shown.x, shown.y, shown.width, shown.height), (-5, 10, 220, 200));
    assert_eq!(shown.tags, strings(&["one", "two"]));
    assert_eq!(shown.workflow_status, "In Progress");
    assert_eq!(shown.priority, "High");
    assert_eq!(shown.due_date, "");
    assert_eq!(shown.estimated_time, 240);
    assert_eq!(shown.completion_percentage, 40);
    assert_eq!(shown.updated_at, "2024-01-01 00:00");

    note.due_date = Some("Friday".to_string());
    note.text_color = Some(SerializableColor { red: 9, green: 8, blue: 7 });
    note.estimated_time = Some(u32::MAX);
    let shown = note.to_card();
    assert_eq!(shown.due_date, "Friday");
    assert_eq!(shown.text_color, ArgbColor { alpha: 255, red: 9, green: 8, blue: 7 });
    assert_eq!(shown.estimated_time, u32::MAX as i32);
    note.estimated_time = Some(i32::MAX as u32 + 1);
    assert_eq!(note.to_card().estimated_time, i32::MIN);
}

#[test]
fn a_note_from_a_card_starts_from_defaults() {
    let mut shown = card("Great plan", "we love it", &["kept", "not"], "Done");
    shown.text_color = ArgbColor { alpha: 128, red: 4, green: 5, blue: 6 };
    shown.x = 7;
    shown.y = 8;
    shown.width = 9;
    shown.height = 10;
    shown.priority = "Urgent".to_string();
    let note = AppNote::from_card(&shown, "created".to_string());
    assert_eq!(note.id, "id");
    assert_eq!(note.created_at, "created");
    assert_eq!(note.updated_at, "2024-01-01 00:00");
    assert_eq!(note.color, SerializableColor { red: 1, green: 2, blue: 3 });
    assert_eq!(note.text_color, Some(SerializableColor { red: 4, green: 5, blue: 6 }));
    assert_eq!((note.x, note.y, note.width, note.height), (7, 8, 9, 10));
    assert!(note.tags.is_empty());
    assert_eq!(note.keywords, strings(&["great", "plan", "love"]));
    assert_eq!(note.sentiment, Some(1));
    assert_eq!(note.workflow_status, WorkflowStatus::Idea);
    assert_eq!(note.priority, Priority::Medium);
}

#[test]
fn a_relation_card_shows_the_relation() {
    let relation = NoteRelation {
        id: "r".to_string(),
        from_note_id: "a".to_string(),
        to_note_id: "b".to_string(),
        relation_type: RelationType::SubtaskOf,
        strength: Similarity::new(3, 5),
        created_at: "now".to_string(),
        description: Some("why".to_string()),
    };
    let shown = relation.to_card();
    assert_eq!(shown.from_note_id, "a");
    assert_eq!(shown.to_note_id, "b");
    assert_eq!(shown.relation_type, "SubtaskOf");
    assert_eq!(shown.strength, Similarity::new(3, 5));
    let copy = relation.clone();
    assert_eq!(copy.description, Some("why".to_string()));
}

#[test]
fn parse_tags_splits_trims_and_drops_empty_pieces() {
    let samples = [
        "",
        ",",
        " , ,",
        "one",
        "one,two",
        " one , two words ,, three\t,\n",
        ",lead",
        "trail,",
        "a\u{a0},\u{3000}b\u{2003}c ",
        "AI, Project,important",
    ];
    for sample in samples {
        let expected: Vec<String> = sample
            .split(',')
            .map(|s| s.trim())
            .filter(|s| !s.is_empty())
            .map(|s| s.to_string())
            .collect();
        assert_eq!(parse_tags(sample), expected, "{:?}", sample);
    }
    assert_eq!(parse_tags(" one , two words ,, three"), strings(&["one", "two words", "three"]));
}

#[test]
fn quick_titles_are_cut_after_27_bytes() {
    let reference = |text: &str| {
        if text.len() > 30 {
            format!("{}...", &text[..27])
        } else {
            text.to_string()
        }
    };
    let samples = [
        "",
        "short",
        "exactly thirty bytes long text",
        "exactly thirty-one bytes long !",
        "a considerably longer line of text that goes on",
        "ééééééééééééé_and then some more text",
        "ééééééééééééééé",
        "aéééééééééééééééé",
    ];
    for sample in samples {
        assert!(sample.len() <= 30 || sample.is_char_boundary(27));
        assert_eq!(quick_title(sample), reference(sample), "{:?}", sample);
    }
    assert_eq!(
        quick_title("a considerably longer line of text that goes on"),
        "a considerably longer line ..."
    );
}

#[test]
fn positions_follow_the_formulas() {
    assert_eq!(cascade_position(0), (50, 50));
    assert_eq!(cascade_position(4), (130, 130));
    assert_eq!(cascade_position(107374179), (2147483630, 2147483630));
    assert_eq!(cascade_position(107374180), (i32::MAX, i32::MAX));
    assert_eq!(cascade_position(usize::MAX), (i32::MAX, i32::MAX));
    assert_eq!(scattered_position(0), (50, 100));
    assert_eq!(scattered_position(499), (549, 100));
    assert_eq!(scattered_position(500), (50, 100));
    assert_eq!(scattered_position(65536 * 299 + 7), (50 + (65536 * 299 + 7) % 500, 399));
    let hash = 0xdead_beef_cafe_f00du64;
    assert_eq!(
        scattered_position(hash),
        ((hash % 500) as i32 + 50, ((hash >> 16) % 300) as i32 + 100)
    );
}

#[test]
fn search_looks_at_title_body_and_tags_in_any_case() {
    let shown = card("Rust Research", "Deep dive into Slint", &["learning", "Tech"], "Todo");
    assert!(shown.matches_search(""));
    assert!(shown.matches_search("rust"));
    assert!(shown.matches_search("RESEARCH"));
    assert!(shown.matches_search("dive into"));
    assert!(shown.matches_search("LEARN"));
    assert!(shown.matches_search("tech"));
    assert!(!shown.matches_search("python"));
    assert!(!shown.matches_search("rust  research"));
    assert!(!shown.matches_search("learningtech"));
}

#[test]
fn the_status_filter_lists_all_or_one_status() {
    let shown = card("t", "c", &[], "In Progress");
    assert!(shown.listed_under("All"));
    assert!(shown.listed_under("In Progress"));
    assert!(!shown.listed_under("Progress"));
    assert!(!shown.listed_under("all"));
    assert!(!shown.listed_under(""));
}

#[test]
fn an_edited_note_carries_the_editors_choices() {
    let input = EditorInput {
        color: SerializableColor { red: 76, green: 175, blue: 80 },
        text_color: ArgbColor { alpha: 255, red: 1, green: 1, blue: 1 },
        tags_text: "Rust, learning ,RUST,, Technology".to_string(),
        workflow_status: "Progress".to_string(),
        priority: "High".to_string(),
        due_date: "2030-12-31".to_string(),
        estimated_time: 180,
    };
    let note = AppNote::from_editor("Study".to_string(), "Read the amazing book".to_string(), &input);
    assert_eq!(note.id.len(), 36);
    assert_eq!(note.title, "Study");
    assert_eq!(note.content, "Read the amazing book");
    assert_eq!(note.color, input.color);
    assert_eq!(note.text_color, Some(SerializableColor { red: 1, green: 1, blue: 1 }));
    assert_eq!(note.tags, strings(&["rust", "learning", "technology"]));
    assert_eq!(note.workflow_status, WorkflowStatus::InProgress);
    assert_eq!(note.priority, Priority::High);
    assert_eq!(note.due_date, Some("2030-12-31".to_string()));
    assert_eq!(note.estimated_time, Some(180));
    assert_eq!(note.keywords, strings(&["study", "read", "amazing", "book"]));
    assert_eq!(note.sentiment, Some(1));
    assert_eq!((note.x, note.y), (10, 10));

    let plain = EditorInput {
        color: SerializableColor { red: 0, green: 0, blue: 0 },
        text_color: ArgbColor { alpha: 0, red: 9, green: 9, blue: 9 },
        tags_text: " , ".to_string(),
        workflow_status: "".to_string(),
        priority: "".to_string(),
        due_date: "".to_string(),
        estimated_time: -5,
    };
    let note = AppNote::from_editor("".to_string(), "".to_string(), &plain);
    assert_eq!(note.text_color, None);
    assert!(note.tags.is_empty());
    assert_eq!(note.workflow_status, WorkflowStatus::Idea);
    assert_eq!(note.priority, Priority::Medium);
    assert_eq!(note.due_date, None);
    assert_eq!(note.estimated_time, None);
}
