//! What the notes show and take at the presentation boundary: the labels of
//! the enumerations, the note and relation records that a view displays, and
//! the rules by which a view's input becomes part of a note.

use crate::graph::{NoteRelation, RelationType};
use crate::note::{
    fresh_note, with_tags, AppNote, NoteView, Priority, SerializableColor, WorkflowStatus,
};
use crate::similarity::Similarity;
use crate::text::{
    char_is_whitespace, chars_of, clone_texts, contains_chars, has_substring, is_whitespace,
    lowercase, same_text, texts, to_lowercase,
};
use vstd::prelude::*;
use vstd::string::StringSliceAdditionalSpecFns;
use vstd::utf8::{decode_utf8, encode_utf8, encode_utf8_decode_utf8, is_char_boundary};

verus! {

/// A colour with an opacity; an alpha of 0 is fully transparent.
#[derive(Debug, Clone, Copy, PartialEq, Eq, Structural)]
pub struct ArgbColor {
    pub alpha: u8,
    pub red: u8,
    pub green: u8,
    pub blue: u8,
}

/// The label under which a workflow status is shown.
pub open spec fn status_label(status: WorkflowStatus) -> Seq<char> {
    match status {
        WorkflowStatus::Idea => "Idea"@,
        WorkflowStatus::Todo => "Todo"@,
        WorkflowStatus::InProgress => "In Progress"@,
        WorkflowStatus::Review => "Review"@,
        WorkflowStatus::Done => "Done"@,
        WorkflowStatus::Archived => "Archived"@,
    }
}

/// The workflow status that an editor's choice stands for; anything unknown
/// stands for an idea.
pub open spec fn status_of_choice(choice: Seq<char>) -> WorkflowStatus {
    if choice == "Todo"@ {
        WorkflowStatus::Todo
    } else if choice == "Progress"@ {
        WorkflowStatus::InProgress
    } else if choice == "Review"@ {
        WorkflowStatus::Review
    } else if choice == "Done"@ {
        WorkflowStatus::Done
    } else if choice == "Archived"@ {
        WorkflowStatus::Archived
    } else {
        WorkflowStatus::Idea
    }
}

/// The label under which a priority is shown.
pub open spec fn priority_label(priority: Priority) -> Seq<char> {
    match priority {
        Priority::Low => "Low"@,
        Priority::Medium => "Medium"@,
        Priority::High => "High"@,
        Priority::Urgent => "Urgent"@,
    }
}

/// The priority that an editor's choice stands for; anything unknown stands
/// for a medium priority.
pub open spec fn priority_of_choice(choice: Seq<char>) -> Priority {
    if choice == "Low"@ {
        Priority::Low
    } else if choice == "High"@ {
        Priority::High
    } else if choice == "Urgent"@ {
        Priority::Urgent
    } else {
        Priority::Medium
    }
}

/// The label under which a relation type is shown: the name of the variant.
pub open spec fn relation_label(relation_type: RelationType) -> Seq<char> {
    match relation_type {
        RelationType::RelatedTo => "RelatedTo"@,
        RelationType::DependsOn => "DependsOn"@,
        RelationType::Blocks => "Blocks"@,
        RelationType::PartOf => "PartOf"@,
        RelationType::SubtaskOf => "SubtaskOf"@,
        RelationType::References => "References"@,
        RelationType::Conflicts => "Conflicts"@,
        RelationType::Extends => "Extends"@,
    }
}

/// The colour in which a view draws the text: the chosen colour, opaque, or
/// transparent black where the contrast is automatic.
pub open spec fn shown_text_color(color: Option<SerializableColor>) -> ArgbColor {
    match color {
        Some(c) => ArgbColor { alpha: 255, red: c.red, green: c.green, blue: c.blue },
        None => ArgbColor { alpha: 0, red: 0, green: 0, blue: 0 },
    }
}

/// The text colour that a view's colour stands for: none where it is fully
/// transparent.
pub open spec fn chosen_text_color(color: ArgbColor) -> Option<SerializableColor> {
    if color.alpha > 0 {
        Some(SerializableColor { red: color.red, green: color.green, blue: color.blue })
    } else {
        None
    }
}

impl WorkflowStatus {
    /// The label under which the status is shown.
    pub fn label(&self) -> (text: &'static str)
        ensures
            text@ == status_label(*self),
    {
        match self {
            WorkflowStatus::Idea => "Idea",
            WorkflowStatus::Todo => "Todo",
            WorkflowStatus::InProgress => "In Progress",
            WorkflowStatus::Review => "Review",
            WorkflowStatus::Done => "Done",
            WorkflowStatus::Archived => "Archived",
        }
    }

    /// The status that an editor's choice stands for.
    pub fn from_choice(choice: &str) -> (status: WorkflowStatus)
        ensures
            status == status_of_choice(choice@),
    {
        if same_text(choice, "Todo") {
            WorkflowStatus::Todo
        } else if same_text(choice, "Progress") {
            WorkflowStatus::InProgress
        } else if same_text(choice, "Review") {
            WorkflowStatus::Review
        } else if same_text(choice, "Done") {
            WorkflowStatus::Done
        } else if same_text(choice, "Archived") {
            WorkflowStatus::Archived
        } else {
            WorkflowStatus::Idea
        }
    }
}

impl Priority {
    /// The label under which the priority is shown.
    pub fn label(&self) -> (text: &'static str)
        ensures
            text@ == priority_label(*self),
    {
        match self {
            Priority::Low => "Low",
            Priority::Medium => "Medium",
            Priority::High => "High",
            Priority::Urgent => "Urgent",
        }
    }

    /// The priority that an editor's choice stands for.
    pub fn from_choice(choice: &str) -> (priority: Priority)
        ensures
            priority == priority_of_choice(choice@),
    {
        if same_text(choice, "Low") {
            Priority::Low
        } else if same_text(choice, "High") {
            Priority::High
        } else if same_text(choice, "Urgent") {
            Priority::Urgent
        } else {
            Priority::Medium
        }
    }
}

impl RelationType {
    /// The label under which the relation type is shown.
    pub fn label(&self) -> (text: &'static str)
        ensures
            text@ == relation_label(*self),
    {
        match self {
            RelationType::RelatedTo => "RelatedTo",
            RelationType::DependsOn => "DependsOn",
            RelationType::Blocks => "Blocks",
            RelationType::PartOf => "PartOf",
            RelationType::SubtaskOf => "SubtaskOf",
            RelationType::References => "References",
            RelationType::Conflicts => "Conflicts",
            RelationType::Extends => "Extends",
        }
    }
}

/// A priority comes back from its own label.
pub proof fn lemma_priority_label_round_trip(priority: Priority)
    ensures
        priority_of_choice(priority_label(priority)) == priority,
{
    reveal_strlit("Low");
    reveal_strlit("Medium");
    reveal_strlit("High");
    reveal_strlit("Urgent");
    assert("Low"@.len() == 3 && "Medium"@.len() == 6 && "High"@.len() == 4 && "Urgent"@.len()
        == 6);
    assert("Medium"@[0] == 'M' && "Urgent"@[0] == 'U');
}

/// A workflow status comes back from its own label, but for the status in
/// progress, whose label is "In Progress" while the editor's choice for it is
/// "Progress".
pub proof fn lemma_status_label_round_trip(status: WorkflowStatus)
    ensures
        status != WorkflowStatus::InProgress ==> status_of_choice(status_label(status)) == status,
        status_of_choice("Progress"@) == WorkflowStatus::InProgress,
{
    reveal_strlit("Idea");
    reveal_strlit("Todo");
    reveal_strlit("Progress");
    reveal_strlit("Review");
    reveal_strlit("Done");
    reveal_strlit("Archived");
    assert("Idea"@[0] == 'I' && "Todo"@[0] == 'T' && "Progress"@[0] == 'P' && "Review"@[0] == 'R'
        && "Done"@[0] == 'D' && "Archived"@[0] == 'A');
}

/// A text colour comes back from the colour in which it is shown.
pub proof fn lemma_text_color_round_trip(color: Option<SerializableColor>)
    ensures
        chosen_text_color(shown_text_color(color)) == color,
{
}

/// The colour in which a view draws the text of a note.
pub fn text_color_to_argb(color: Option<SerializableColor>) -> (shown: ArgbColor)
    ensures
        shown == shown_text_color(color),
{
    match color {
        Some(c) => ArgbColor { alpha: 255, red: c.red, green: c.green, blue: c.blue },
        None => ArgbColor { alpha: 0, red: 0, green: 0, blue: 0 },
    }
}

/// The text colour that a view's colour stands for.
pub fn argb_to_text_color(color: ArgbColor) -> (chosen: Option<SerializableColor>)
    ensures
        chosen == chosen_text_color(color),
{
    if color.alpha > 0 {
        Some(SerializableColor { red: color.red, green: color.green, blue: color.blue })
    } else {
        None
    }
}

/// The record of a note that a view displays and edits.
#[derive(Debug)]
pub struct NoteCard {
    pub id: String,
    pub title: String,
    pub content: String,
    pub color: SerializableColor,
    pub text_color: ArgbColor,
    pub x: i32,
    pub y: i32,
    pub width: u32,
    pub height: u32,
    pub tags: Vec<String>,
    pub workflow_status: String,
    pub priority: String,
    pub due_date: String,
    pub estimated_time: i32,
    pub completion_percentage: u8,
    pub updated_at: String,
}

/// The mathematical content of a note card.
pub struct CardView {
    pub id: Seq<char>,
    pub title: Seq<char>,
    pub content: Seq<char>,
    pub color: SerializableColor,
    pub text_color: ArgbColor,
    pub x: i32,
    pub y: i32,
    pub width: u32,
    pub height: u32,
    pub tags: Seq<Seq<char>>,
    pub workflow_status: Seq<char>,
    pub priority: Seq<char>,
    pub due_date: Seq<char>,
    pub estimated_time: i32,
    pub completion_percentage: u8,
    pub updated_at: Seq<char>,
}

impl View for NoteCard {
    type V = CardView;

    open spec fn view(&self) -> CardView {
        CardView {
            id: self.id@,
            title: self.title@,
            content: self.content@,
            color: self.color,
            text_color: self.text_color,
            x: self.x,
            y: self.y,
            width: self.width,
            height: self.height,
            tags: texts(self.tags@),
            workflow_status: self.workflow_status@,
            priority: self.priority@,
            due_date: self.due_date@,
            estimated_time: self.estimated_time,
            completion_percentage: self.completion_percentage,
            updated_at: self.updated_at@,
        }
    }
}

/// The record of a relation that a view displays.
#[derive(Debug)]
pub struct RelationCard {
    pub from_note_id: String,
    pub to_note_id: String,
    pub relation_type: String,
    pub strength: Similarity,
}

/// The estimated minutes as a view counts them: none counts as 0, and a
/// number beyond the signed 32-bit range wraps around.
pub open spec fn shown_minutes(minutes: Option<u32>) -> i32 {
    match minutes {
        Some(m) => if m <= i32::MAX {
            m as i32
        } else {
            (m - 0x1_0000_0000) as i32
        },
        None => 0,
    }
}

/// The card that shows a note.
pub open spec fn card_of(note: NoteView) -> CardView {
    CardView {
        id: note.id,
        title: note.title,
        content: note.content,
        color: note.color,
        text_color: shown_text_color(note.text_color),
        x: note.x,
        y: note.y,
        width: note.width,
        height: note.height,
        tags: note.tags,
        workflow_status: status_label(note.workflow_status),
        priority: priority_label(note.priority),
        due_date: match note.due_date {
            Some(d) => d,
            None => Seq::empty(),
        },
        estimated_time: shown_minutes(note.estimated_time),
        completion_percentage: note.completion_percentage,
        updated_at: note.updated_at,
    }
}

/// The note that a card stands for: a new note under the card's identifier
/// with the card's title, body, colours, geometry and time of last change.
/// Keywords and sentiment are derived from the text; what else a note
/// carries starts from its defaults.
pub open spec fn note_of_card(card: CardView, created_at: Seq<char>) -> NoteView {
    NoteView {
        color: card.color,
        text_color: chosen_text_color(card.text_color),
        x: card.x,
        y: card.y,
        width: card.width,
        height: card.height,
        updated_at: card.updated_at,
        ..fresh_note(card.id, created_at, card.title, card.content)
    }
}

/// A card brings back the identity, text, colours and geometry of the note
/// that it shows.
pub proof fn lemma_card_round_trip(note: NoteView, created_at: Seq<char>)
    ensures
        ({
            let back = note_of_card(card_of(note), created_at);
            &&& back.id == note.id
            &&& back.title == note.title
            &&& back.content == note.content
            &&& back.color == note.color
            &&& back.text_color == note.text_color
            &&& back.x == note.x
            &&& back.y == note.y
            &&& back.width == note.width
            &&& back.height == note.height
            &&& back.updated_at == note.updated_at
        }),
{
}

impl AppNote {
    /// The card that shows this note.
    pub fn to_card(&self) -> (card: NoteCard)
        ensures
            card@ == card_of(self@),
    {
        let estimated_time: i32 = match self.estimated_time {
            Some(m) => if m <= 0x7fff_ffff {
                m as i32
            } else {
                (m as i64 - 0x1_0000_0000) as i32
            },
            None => 0,
        };
        let due_date = match &self.due_date {
            Some(d) => d.clone(),
            None => String::new(),
        };
        NoteCard {
            id: self.id.clone(),
            title: self.title.clone(),
            content: self.content.clone(),
            color: self.color,
            text_color: text_color_to_argb(self.text_color),
            x: self.x,
            y: self.y,
            width: self.width,
            height: self.height,
            tags: clone_texts(&self.tags),
            workflow_status: self.workflow_status.label().to_owned(),
            priority: self.priority.label().to_owned(),
            due_date,
            estimated_time,
            completion_percentage: self.completion_percentage,
            updated_at: self.updated_at.clone(),
        }
    }

    /// The note that `card` stands for, created at `created_at`.
    pub fn from_card(card: &NoteCard, created_at: String) -> (note: AppNote)
        ensures
            note@ == note_of_card(card@, created_at@),
            note@.wf(),
    {
        let mut note = AppNote::with_identity(
            card.id.clone(),
            created_at,
            card.title.clone(),
            card.content.clone(),
        );
        note.color = card.color;
        note.text_color = argb_to_text_color(card.text_color);
        note.x = card.x;
        note.y = card.y;
        note.width = card.width;
        note.height = card.height;
        note.updated_at = card.updated_at.clone();
        note
    }
}

impl NoteRelation {
    /// The card that shows this relation.
    pub fn to_card(&self) -> (card: RelationCard)
        ensures
            card.from_note_id@ == self@.from_note_id,
            card.to_note_id@ == self@.to_note_id,
            card.relation_type@ == relation_label(self@.relation_type),
            card.strength == self@.strength,
    {
        RelationCard {
            from_note_id: self.from_note_id.clone(),
            to_note_id: self.to_note_id.clone(),
            relation_type: self.relation_type.label().to_owned(),
            strength: self.strength,
        }
    }
}

/// Where the note that follows `count` notes is put so that it does not
/// cover them: 50 plus 20 for each, both ways, as far as the coordinates go.
pub open spec fn cascade(count: int) -> int {
    if 50 + 20 * count <= i32::MAX {
        50 + 20 * count
    } else {
        i32::MAX as int
    }
}

/// The position of a quickly added note that follows `count` notes.
pub fn cascade_position(count: usize) -> (place: (i32, i32))
    ensures
        place.0 == cascade(count as int),
        place.1 == cascade(count as int),
{
    if count <= 107374179 {
        let at: i32 = 50 + 20 * (count as i32);
        (at, at)
    } else {
        (i32::MAX, i32::MAX)
    }
}

/// The position that a hash of a note's identifier scatters the note to:
/// between 50 and 549 across, between 100 and 399 down.
pub fn scattered_position(hash: u64) -> (place: (i32, i32))
    ensures
        place.0 == hash % 500 + 50,
        place.1 == (hash / 65536) % 300 + 100,
{
    let x = (hash % 500) as i32 + 50;
    let y = ((hash / 65536) % 300) as i32 + 100;
    (x, y)
}

/// The title of a note that is added from one line of text: the text itself
/// if its UTF-8 form has at most 30 bytes, else the first 27 bytes of that
/// form followed by three dots.
pub open spec fn quick_title_of(text: Seq<char>) -> Seq<char> {
    if encode_utf8(text).len() > 30 {
        decode_utf8(encode_utf8(text).subrange(0, 27)) + "..."@
    } else {
        text
    }
}

/// The title of a note that is added from one line of text. A text of more
/// than 30 bytes must have a character boundary behind its 27th byte.
pub fn quick_title(text: &str) -> (title: String)
    requires
        encode_utf8(text@).len() > 30 ==> is_char_boundary(encode_utf8(text@), 27),
    ensures
        title@ == quick_title_of(text@),
{
    if text.as_bytes().len() > 30 {
        let (head, _) = text.split_at(27);
        let mut title = head.to_owned();
        title.append("...");
        proof {
            encode_utf8_decode_utf8(head@);
            assert(head.spec_bytes() == encode_utf8(text@).subrange(0, 27));
        }
        title
    } else {
        text.to_owned()
    }
}

/// Whether `query` occurs in `text`, both lower-cased.
pub open spec fn text_found(text: Seq<char>, query: Seq<char>) -> bool {
    has_substring(lowercase(text), lowercase(query))
}

/// Whether a search for `query` finds the card: in its title, in its body or
/// in one of its tags, whatever the case of the letters.
pub open spec fn card_matches(card: CardView, query: Seq<char>) -> bool {
    ||| text_found(card.title, query)
    ||| text_found(card.content, query)
    ||| exists|i: int| 0 <= i < card.tags.len() && text_found(#[trigger] card.tags[i], query)
}

/// Whether the card is listed under the status filter: under "All", and
/// under its own status label.
pub open spec fn card_listed(card: CardView, filter: Seq<char>) -> bool {
    filter == "All"@ || card.workflow_status == filter
}

/// Tells whether the lower-cased `text` holds `query`, a lower-cased text.
fn found_in(text: &str, query: &Vec<char>) -> (found: bool)
    ensures
        found == has_substring(lowercase(text@), query@),
{
    let lowered = to_lowercase(text);
    let chars = chars_of(lowered.as_str());
    contains_chars(&chars, query)
}

impl NoteCard {
    /// Tells whether a search for `query` finds this card.
    pub fn matches_search(&self, query: &str) -> (found: bool)
        ensures
            found == card_matches(self@, query@),
    {
        let lowered = to_lowercase(query);
        let needle = chars_of(lowered.as_str());
        if found_in(self.title.as_str(), &needle) || found_in(self.content.as_str(), &needle) {
            return true;
        }
        let mut i: usize = 0;
        while i < self.tags.len()
            invariant
                needle@ == lowercase(query@),
                i <= self.tags@.len(),
                forall|k: int| 0 <= k < i ==> !text_found(#[trigger] self@.tags[k], query@),
            decreases self.tags@.len() - i,
        {
            if found_in(self.tags[i].as_str(), &needle) {
                assert(text_found(self@.tags[i as int], query@));
                return true;
            }
            i += 1;
        }
        false
    }

    /// Tells whether this card is listed under the status filter.
    pub fn listed_under(&self, filter: &str) -> (listed: bool)
        ensures
            listed == card_listed(self@, filter@),
    {
        same_text(filter, "All") || same_text(self.workflow_status.as_str(), filter)
    }
}

/// The index of the first comma at or after `from`, or the length of `s`
/// when there is none.
pub open spec fn piece_end(s: Seq<char>, from: int) -> int
    decreases s.len() - from,
{
    if from >= s.len() || s[from] == ',' {
        from
    } else {
        piece_end(s, from + 1)
    }
}

/// The index of the first character at or after `from` and before `end`
/// that is no whitespace, or `end` when there is none.
pub open spec fn content_start(s: Seq<char>, from: int, end: int) -> int
    decreases end - from,
{
    if from >= end || !is_whitespace(s[from]) {
        from
    } else {
        content_start(s, from + 1, end)
    }
}

/// The index behind the last character before `end` and at or after `from`
/// that is no whitespace, or `from` when there is none.
pub open spec fn content_end(s: Seq<char>, from: int, end: int) -> int
    decreases end - from,
{
    if end <= from || !is_whitespace(s[end - 1]) {
        end
    } else {
        content_end(s, from, end - 1)
    }
}

/// The part of `s` between `from` and `end` without the whitespace at its
/// two ends.
pub open spec fn trimmed(s: Seq<char>, from: int, end: int) -> Seq<char> {
    let start = content_start(s, from, end);
    s.subrange(start, content_end(s, start, end))
}

/// The tags that a comma-separated text names from `from` on: the pieces
/// between the commas, each without the whitespace around it, but for the
/// pieces of which nothing is left.
pub open spec fn tags_from(s: Seq<char>, from: int) -> Seq<Seq<char>>
    decreases s.len() - from,
    via tags_from_terminates
{
    if from < 0 || from > s.len() {
        Seq::empty()
    } else {
        let end = piece_end(s, from);
        let tag = trimmed(s, from, end);
        let head = if tag.len() > 0 {
            seq![tag]
        } else {
            Seq::empty()
        };
        if end >= s.len() {
            head
        } else {
            head + tags_from(s, end + 1)
        }
    }
}

#[via_fn]
proof fn tags_from_terminates(s: Seq<char>, from: int) {
    if 0 <= from <= s.len() {
        lemma_piece_end_bounds(s, from);
    }
}

/// The tags that a comma-separated text names.
pub open spec fn parsed_tags(s: Seq<char>) -> Seq<Seq<char>> {
    tags_from(s, 0)
}

/// The end of a piece lies at or behind its start, within the text, and on a
/// comma unless it is the end of the text.
pub proof fn lemma_piece_end_bounds(s: Seq<char>, from: int)
    requires
        0 <= from <= s.len(),
    ensures
        from <= piece_end(s, from) <= s.len(),
        piece_end(s, from) < s.len() ==> s[piece_end(s, from)] == ',',
    decreases s.len() - from,
{
    if from < s.len() && s[from] != ',' {
        lemma_piece_end_bounds(s, from + 1);
    }
}

/// Reads the tags that a comma-separated text names.
pub fn parse_tags(text: &str) -> (tags: Vec<String>)
    ensures
        texts(tags@) == parsed_tags(text@),
{
    let chars = chars_of(text);
    let n = chars.len();
    let mut tags: Vec<String> = Vec::new();
    let mut from: usize = 0;
    let mut done = false;
    assert(texts(tags@) + tags_from(text@, 0) =~= parsed_tags(text@));
    while !done
        invariant
            chars@ == text@,
            n == chars@.len(),
            from <= n,
            !done ==> texts(tags@) + tags_from(text@, from as int) == parsed_tags(text@),
            done ==> texts(tags@) == parsed_tags(text@),
        decreases n - from + if done { 0int } else { 1int },
    {
        let mut end = from;
        while end < n && chars[end] != ','
            invariant
                chars@ == text@,
                n == chars@.len(),
                from <= end <= n,
                piece_end(text@, from as int) == piece_end(text@, end as int),
            decreases n - end,
        {
            end += 1;
        }
        let mut start = from;
        while start < end && char_is_whitespace(chars[start])
            invariant
                chars@ == text@,
                from <= start <= end <= n,
                n == chars@.len(),
                content_start(text@, from as int, end as int) == content_start(
                    text@,
                    start as int,
                    end as int,
                ),
            decreases end - start,
        {
            start += 1;
        }
        let mut stop = end;
        while start < stop && char_is_whitespace(chars[stop - 1])
            invariant
                chars@ == text@,
                start <= stop <= end <= n,
                n == chars@.len(),
                content_end(text@, start as int, end as int) == content_end(
                    text@,
                    start as int,
                    stop as int,
                ),
            decreases stop - start,
        {
            stop -= 1;
        }
        let ghost before = texts(tags@);
        let ghost tag = trimmed(text@, from as int, end as int);
        assert(tag == text@.subrange(start as int, stop as int));
        if start < stop {
            let word = text.substring_char(start, stop).to_owned();
            tags.push(word);
            assert(texts(tags@) =~= before.push(tag));
        }
        proof {
            let head = if tag.len() > 0 {
                seq![tag]
            } else {
                Seq::<Seq<char>>::empty()
            };
            assert(texts(tags@) =~= before + head);
            if end < n {
                assert(tags_from(text@, from as int) == head + tags_from(text@, end + 1));
                assert(before + (head + tags_from(text@, end + 1)) =~= (before + head)
                    + tags_from(text@, end + 1));
            } else {
                assert(tags_from(text@, from as int) == head);
            }
        }
        if end < n {
            from = end + 1;
        } else {
            done = true;
        }
    }
    tags
}

/// What the editor of a note hands over besides title and body.
#[derive(Debug)]
pub struct EditorInput {
    pub color: SerializableColor,
    pub text_color: ArgbColor,
    /// The tags, separated by commas.
    pub tags_text: String,
    pub workflow_status: String,
    pub priority: String,
    /// The due date; empty for none.
    pub due_date: String,
    /// The estimated minutes; none unless positive.
    pub estimated_time: i32,
}

/// The due date that an editor's text stands for.
pub open spec fn chosen_due_date(text: Seq<char>) -> Option<Seq<char>> {
    if text.len() > 0 {
        Some(text)
    } else {
        None
    }
}

/// The estimate that an editor's number stands for.
pub open spec fn chosen_minutes(minutes: i32) -> Option<u32> {
    if minutes > 0 {
        Some(minutes as u32)
    } else {
        None
    }
}

impl AppNote {
    /// The note that an editor's input describes: a new note with the given
    /// title and body that carries the chosen colours, tags, status,
    /// priority, due date and estimate.
    pub fn from_editor(title: String, content: String, input: &EditorInput) -> (note: AppNote)
        ensures
            crate::ident::is_identifier(note@.id),
            crate::clock::is_minute_stamp(note@.created_at),
            crate::clock::is_minute_stamp(note@.updated_at),
            note@ == (NoteView {
                color: input.color,
                text_color: chosen_text_color(input.text_color),
                tags: with_tags(Seq::empty(), parsed_tags(input.tags_text@)),
                workflow_status: status_of_choice(input.workflow_status@),
                priority: priority_of_choice(input.priority@),
                due_date: chosen_due_date(input.due_date@),
                estimated_time: chosen_minutes(input.estimated_time),
                updated_at: note@.updated_at,
                ..fresh_note(note@.id, note@.created_at, title@, content@)
            }),
            note@.wf(),
    {
        let mut note = AppNote::new(title, content);
        note.set_color(input.color);
        note.text_color = argb_to_text_color(input.text_color);
        let tags = parse_tags(input.tags_text.as_str());
        let ghost start = note@;
        let ghost added = texts(tags@);
        let mut i: usize = 0;
        assert(added.take(0) =~= Seq::<Seq<char>>::empty());
        while i < tags.len()
            invariant
                i <= tags@.len(),
                added == texts(tags@),
                crate::clock::is_minute_stamp(note@.updated_at),
                note@.wf(),
                note@ == (NoteView {
                    tags: with_tags(Seq::empty(), added.take(i as int)),
                    updated_at: note@.updated_at,
                    ..start
                }),
            decreases tags@.len() - i,
        {
            proof {
                assert(added.take(i + 1).drop_last() =~= added.take(i as int));
                assert(added.take(i + 1).last() == tags@[i as int]@);
            }
            note.add_tag(tags[i].clone());
            i += 1;
        }
        assert(added.take(i as int) =~= added);
        note.set_workflow_status(WorkflowStatus::from_choice(input.workflow_status.as_str()));
        note.priority = Priority::from_choice(input.priority.as_str());
        if !input.due_date.as_str().is_empty() {
            note.due_date = Some(input.due_date.clone());
        }
        if input.estimated_time > 0 {
            note.estimated_time = Some(input.estimated_time as u32);
        }
        note
    }
}

} // verus!
