//! Note records and the analysis that derives their keywords and sentiment.

use crate::clock::{current_timestamp, is_minute_stamp};
use crate::ident::{fresh_identifier, is_identifier};
use crate::lists::{
    all_distinct, combined, common, count_common, lemma_common_combined, lemma_common_self,
    lemma_filter_members,
};
use crate::similarity::{
    sentiment_tenths, weigh, weighted_denominator, weighted_numerator, Similarity, MAX_SET_SIZE,
};
use crate::text::{
    chars_of, clone_optional_text, clone_texts, contains_chars, contains_text, has_substring,
    lowercase, optional_text, same_text, split_words, texts, to_lowercase, words,
};
use vstd::prelude::*;

pub use crate::graph::{KnowledgeGraph, NoteRelation, RelationType};

verus! {

/// An RGB colour.
#[derive(Debug, Clone, Copy, PartialEq, Eq, Structural)]
pub struct SerializableColor {
    pub red: u8,
    pub green: u8,
    pub blue: u8,
}

/// How urgent a note is.
#[derive(Debug, Clone, Copy, PartialEq, Eq, Structural)]
pub enum Priority {
    Low,
    Medium,
    High,
    Urgent,
}

/// Where a note stands in its workflow.
#[derive(Debug, Clone, Copy, PartialEq, Eq, Structural)]
pub enum WorkflowStatus {
    Idea,
    Todo,
    InProgress,
    Review,
    Done,
    Archived,
}

/// A sticky note.
///
/// Positions and sizes are whole logical pixels, the sentiment is -1, 0 or 1,
/// and the completion is a whole percentage.
#[derive(Debug)]
pub struct AppNote {
    pub id: String,
    pub title: String,
    pub content: String,
    pub color: SerializableColor,
    /// `None` asks for automatic contrast.
    pub text_color: Option<SerializableColor>,
    pub x: i32,
    pub y: i32,
    pub width: u32,
    pub height: u32,
    pub created_at: String,
    pub updated_at: String,
    pub tags: Vec<String>,
    pub keywords: Vec<String>,
    pub workflow_status: WorkflowStatus,
    pub sentiment: Option<i8>,
    pub priority: Priority,
    pub due_date: Option<String>,
    pub estimated_time: Option<u32>,
    pub completion_percentage: u8,
    pub actual_time: Option<u32>,
}

/// The mathematical content of a note.
pub struct NoteView {
    pub id: Seq<char>,
    pub title: Seq<char>,
    pub content: Seq<char>,
    pub color: SerializableColor,
    pub text_color: Option<SerializableColor>,
    pub x: i32,
    pub y: i32,
    pub width: u32,
    pub height: u32,
    pub created_at: Seq<char>,
    pub updated_at: Seq<char>,
    pub tags: Seq<Seq<char>>,
    pub keywords: Seq<Seq<char>>,
    pub workflow_status: WorkflowStatus,
    pub sentiment: Option<i8>,
    pub priority: Priority,
    pub due_date: Option<Seq<char>>,
    pub estimated_time: Option<u32>,
    pub completion_percentage: u8,
    pub actual_time: Option<u32>,
}

impl View for AppNote {
    type V = NoteView;

    open spec fn view(&self) -> NoteView {
        NoteView {
            id: self.id@,
            title: self.title@,
            content: self.content@,
            color: self.color,
            text_color: self.text_color,
            x: self.x,
            y: self.y,
            width: self.width,
            height: self.height,
            created_at: self.created_at@,
            updated_at: self.updated_at@,
            tags: texts(self.tags@),
            keywords: texts(self.keywords@),
            workflow_status: self.workflow_status,
            sentiment: self.sentiment,
            priority: self.priority,
            due_date: optional_text(self.due_date),
            estimated_time: self.estimated_time,
            completion_percentage: self.completion_percentage,
            actual_time: self.actual_time,
        }
    }
}

/// The views of a list of notes.
pub open spec fn note_views(notes: Seq<AppNote>) -> Seq<NoteView> {
    Seq::new(notes.len(), |i: int| notes[i]@)
}

/// Whether `tag` is the lower-casing of some text.
pub open spec fn is_lowercased(tag: Seq<char>) -> bool {
    exists|source: Seq<char>| #[trigger] lowercase(source) == tag
}

impl NoteView {
    /// The invariant of a note: tags are lower-cased and unique, keywords are
    /// unique, the sentiment lies in -1..=1 and the completion in 0..=100.
    pub open spec fn wf(self) -> bool {
        &&& self.tags.no_duplicates()
        &&& forall|i: int| 0 <= i < self.tags.len() ==> is_lowercased(#[trigger] self.tags[i])
        &&& self.keywords.no_duplicates()
        &&& self.sentiment matches Some(s) ==> -1 <= s <= 1
        &&& self.completion_percentage <= 100
    }

    /// What a comparison asks of a note: no tag and no keyword occurs twice,
    /// there are few enough of them for a similarity to fit its fields, and
    /// the sentiment lies in -1..=1.
    pub open spec fn comparable(self) -> bool {
        &&& self.tags.no_duplicates()
        &&& self.tags.len() <= MAX_SET_SIZE
        &&& self.keywords.no_duplicates()
        &&& self.keywords.len() <= MAX_SET_SIZE
        &&& self.sentiment matches Some(s) ==> -1 <= s <= 1
    }
}

/// The tags after `tag` was added: its lower-casing joins them unless it is
/// among them already.
pub open spec fn with_tag(tags: Seq<Seq<char>>, tag: Seq<char>) -> Seq<Seq<char>> {
    if tags.contains(lowercase(tag)) {
        tags
    } else {
        tags.push(lowercase(tag))
    }
}

/// The tags after each of `added` was added in turn.
pub open spec fn with_tags(tags: Seq<Seq<char>>, added: Seq<Seq<char>>) -> Seq<Seq<char>>
    decreases added.len(),
{
    if added.len() == 0 {
        tags
    } else {
        with_tag(with_tags(tags, added.drop_last()), added.last())
    }
}

/// The tags after `tag` was removed: all of them but its lower-casing.
pub open spec fn without_tag(tags: Seq<Seq<char>>, tag: Seq<char>) -> Seq<Seq<char>> {
    tags.filter(|t: Seq<char>| t != lowercase(tag))
}

/// The members of a list, each once, in the order of their first occurrence.
pub open spec fn distinct(list: Seq<Seq<char>>) -> Seq<Seq<char>>
    decreases list.len(),
{
    if list.len() == 0 {
        Seq::empty()
    } else {
        let before = distinct(list.drop_last());
        if before.contains(list.last()) {
            before
        } else {
            before.push(list.last())
        }
    }
}

/// A sentiment brought into -1..=1.
pub open spec fn clamped_sentiment(sentiment: Option<i8>) -> Option<i8> {
    match sentiment {
        Some(s) => Some(
            if s > 1 {
                1i8
            } else if s < -1 {
                -1i8
            } else {
                s
            },
        ),
        None => None,
    }
}

/// The note brought into its invariant: the tags lower-cased and each once,
/// the keywords each once, the sentiment within -1..=1 and the completion
/// at most 100.
pub open spec fn normalized(note: NoteView) -> NoteView {
    NoteView {
        tags: with_tags(Seq::empty(), note.tags),
        keywords: distinct(note.keywords),
        sentiment: clamped_sentiment(note.sentiment),
        completion_percentage: if note.completion_percentage > 100 {
            100u8
        } else {
            note.completion_percentage
        },
        ..note
    }
}

/// The text that the analysis reads: title, one space, body, lower-cased.
pub open spec fn analysis_text(title: Seq<char>, content: Seq<char>) -> Seq<char> {
    lowercase(title + seq![' '] + content)
}

/// Whether `word` is one of the common words that never become keywords.
pub open spec fn stop_word(word: Seq<char>) -> bool {
    ||| word == "the"@
    ||| word == "and"@
    ||| word == "or"@
    ||| word == "but"@
    ||| word == "in"@
    ||| word == "on"@
    ||| word == "at"@
    ||| word == "to"@
    ||| word == "for"@
    ||| word == "of"@
    ||| word == "with"@
    ||| word == "by"@
    ||| word == "is"@
    ||| word == "are"@
    ||| word == "was"@
    ||| word == "were"@
    ||| word == "be"@
    ||| word == "been"@
    ||| word == "have"@
    ||| word == "has"@
    ||| word == "had"@
    ||| word == "do"@
    ||| word == "does"@
    ||| word == "did"@
    ||| word == "will"@
    ||| word == "would"@
    ||| word == "could"@
    ||| word == "should"@
}

/// Whether a word qualifies as a keyword: longer than three characters and
/// not a stop word.
pub open spec fn is_keyword(word: Seq<char>) -> bool {
    word.len() > 3 && !stop_word(word)
}

/// The keywords among `tokens`: the qualifying words, each once, in the
/// order of their first occurrence.
pub open spec fn keywords_among(tokens: Seq<Seq<char>>) -> Seq<Seq<char>>
    decreases tokens.len(),
{
    if tokens.len() == 0 {
        Seq::empty()
    } else {
        let before = keywords_among(tokens.drop_last());
        let word = tokens.last();
        if is_keyword(word) && !before.contains(word) {
            before.push(word)
        } else {
            before
        }
    }
}

/// The keywords of a note with the given title and body.
pub open spec fn keywords_of(title: Seq<char>, content: Seq<char>) -> Seq<Seq<char>> {
    keywords_among(words(analysis_text(title, content)))
}

/// 1 when `word` occurs in `text`, else 0.
pub open spec fn occurrence(text: Seq<char>, word: Seq<char>) -> int {
    if has_substring(text, word) {
        1
    } else {
        0
    }
}

/// How many of the seven positive words occur in `text`.
pub open spec fn positive_hits(text: Seq<char>) -> int {
    occurrence(text, "good"@) + occurrence(text, "great"@) + occurrence(text, "excellent"@)
        + occurrence(text, "awesome"@) + occurrence(text, "happy"@) + occurrence(text, "love"@)
        + occurrence(text, "amazing"@)
}

/// How many of the seven negative words occur in `text`.
pub open spec fn negative_hits(text: Seq<char>) -> int {
    occurrence(text, "bad"@) + occurrence(text, "terrible"@) + occurrence(text, "awful"@)
        + occurrence(text, "hate"@) + occurrence(text, "sad"@) + occurrence(text, "angry"@)
        + occurrence(text, "frustrated"@)
}

/// The sentiment of a lower-cased text: positive hits minus negative hits,
/// clamped to -1..=1.
pub open spec fn sentiment_score(text: Seq<char>) -> int {
    let raw = positive_hits(text) - negative_hits(text);
    if raw > 1 {
        1
    } else if raw < -1 {
        -1
    } else {
        raw
    }
}

/// The sentiment of a note with the given title and body.
pub open spec fn sentiment_of(title: Seq<char>, content: Seq<char>) -> int {
    sentiment_score(analysis_text(title, content))
}

/// The fill colour of a new note, a yellow.
pub open spec fn default_color() -> SerializableColor {
    SerializableColor { red: 255, green: 235, blue: 59 }
}

/// The view of a note as it leaves the constructor.
pub open spec fn fresh_note(
    id: Seq<char>,
    stamp: Seq<char>,
    title: Seq<char>,
    content: Seq<char>,
) -> NoteView {
    NoteView {
        id,
        title,
        content,
        color: default_color(),
        text_color: None,
        x: 10,
        y: 10,
        width: 220,
        height: 200,
        created_at: stamp,
        updated_at: stamp,
        tags: Seq::empty(),
        keywords: keywords_of(title, content),
        workflow_status: WorkflowStatus::Idea,
        sentiment: Some(sentiment_of(title, content) as i8),
        priority: Priority::Medium,
        due_date: None,
        estimated_time: None,
        completion_percentage: 0,
        actual_time: None,
    }
}

/// The numerator of the similarity of two notes: tag overlap at 0.3, keyword
/// overlap at 0.5, sentiment closeness at 0.2, over
/// [`similarity_denominator`].
pub open spec fn similarity_numerator(a: NoteView, b: NoteView) -> int {
    weighted_numerator(
        common(a.tags, b.tags) as int,
        combined(a.tags, b.tags) as int,
        common(a.keywords, b.keywords) as int,
        combined(a.keywords, b.keywords) as int,
        sentiment_tenths(a.sentiment, b.sentiment),
    )
}

/// The denominator of the similarity of two notes.
pub open spec fn similarity_denominator(a: NoteView, b: NoteView) -> int {
    weighted_denominator(combined(a.tags, b.tags) as int, combined(a.keywords, b.keywords) as int)
}

/// The similarity of two notes as a score.
pub open spec fn similarity_of(a: NoteView, b: NoteView) -> Similarity {
    Similarity {
        numerator: similarity_numerator(a, b) as i64,
        denominator: similarity_denominator(a, b) as u64,
    }
}

/// Adding a tag keeps the tags unique and lower-cased, and the added tag is
/// stored as its lower-casing.
pub proof fn lemma_with_tag_keeps_wf(note: NoteView, tag: Seq<char>)
    requires
        note.wf(),
    ensures
        (NoteView { tags: with_tag(note.tags, tag), ..note }).wf(),
        with_tag(note.tags, tag).contains(lowercase(tag)),
{
    let tags = with_tag(note.tags, tag);
    if !note.tags.contains(lowercase(tag)) {
        assert(tags[note.tags.len() as int] == lowercase(tag));
        assert forall|i: int| 0 <= i < tags.len() implies is_lowercased(#[trigger] tags[i]) by {
            if i < note.tags.len() {
                assert(tags[i] == note.tags[i]);
            }
        }
    }
}

/// Removing a tag keeps the tags unique and lower-cased.
pub proof fn lemma_without_tag_keeps_wf(note: NoteView, tag: Seq<char>)
    requires
        note.wf(),
    ensures
        (NoteView { tags: without_tag(note.tags, tag), ..note }).wf(),
        !without_tag(note.tags, tag).contains(lowercase(tag)),
{
    let pred = |t: Seq<char>| t != lowercase(tag);
    let kept = without_tag(note.tags, tag);
    lemma_filter_members(note.tags, pred);
    assert forall|i: int| 0 <= i < kept.len() implies is_lowercased(#[trigger] kept[i]) by {
        assert(kept.contains(kept[i]));
        let j = choose|j: int| 0 <= j < note.tags.len() && note.tags[j] == kept[i];
        assert(is_lowercased(note.tags[j]));
    }
}

/// A tag that was added under one spelling leaves under every spelling with
/// the same lower-casing: after adding and removing, the tags are those
/// from before without that tag. Tags added to an empty set and removed
/// again leave it empty.
pub proof fn lemma_add_then_remove_tag(tags: Seq<Seq<char>>, added: Seq<char>, removed: Seq<char>)
    requires
        lowercase(added) == lowercase(removed),
    ensures
        without_tag(with_tag(tags, added), removed) == without_tag(tags, added),
        !without_tag(with_tag(tags, added), removed).contains(lowercase(added)),
        tags.len() == 0 ==> without_tag(with_tag(tags, added), removed).len() == 0,
{
    let tag = lowercase(added);
    let pred = |t: Seq<char>| t != lowercase(added);
    assert(pred == |t: Seq<char>| t != lowercase(removed));
    if !tags.contains(tag) {
        tags.lemma_filter_push(tag, pred);
    }
    lemma_filter_members(tags, pred);
    if tags.len() == 0 {
        tags.lemma_filter_len(pred);
    }
}

/// The keywords among some words are exactly the words that qualify, and
/// none of them occurs twice.
pub proof fn lemma_keywords_are_the_qualifying_words(tokens: Seq<Seq<char>>)
    ensures
        keywords_among(tokens).no_duplicates(),
        forall|word: Seq<char>| #[trigger]
            keywords_among(tokens).contains(word) <==> tokens.contains(word) && is_keyword(word),
    decreases tokens.len(),
{
    if tokens.len() > 0 {
        let front = tokens.drop_last();
        let last = tokens.last();
        let before = keywords_among(front);
        let all = keywords_among(tokens);
        lemma_keywords_are_the_qualifying_words(front);
        assert(tokens =~= front.push(last));
        assert forall|word: Seq<char>| #[trigger]
            all.contains(word) <==> tokens.contains(word) && is_keyword(word) by {
            if all.contains(word) {
                let i = choose|i: int| 0 <= i < all.len() && all[i] == word;
                if i < before.len() {
                    assert(before[i] == word);
                    assert(before.contains(word));
                    let j = choose|j: int| 0 <= j < front.len() && front[j] == word;
                    assert(tokens[j] == word);
                } else {
                    assert(tokens[tokens.len() - 1] == word);
                }
            }
            if tokens.contains(word) && is_keyword(word) {
                let j = choose|j: int| 0 <= j < tokens.len() && tokens[j] == word;
                if j < front.len() {
                    assert(front[j] == word);
                    assert(front.contains(word));
                    assert(before.contains(word));
                    let i = choose|i: int| 0 <= i < before.len() && before[i] == word;
                    assert(all[i] == word);
                } else if before.contains(word) {
                    let i = choose|i: int| 0 <= i < before.len() && before[i] == word;
                    assert(all[i] == word);
                } else {
                    assert(all[before.len() as int] == word);
                }
            }
        }
    }
}

/// A note is as similar to itself as two notes can be: with tags, keywords
/// and a sentiment, its similarity to itself is exactly 1.
pub proof fn lemma_self_similarity(note: NoteView)
    requires
        note.tags.len() > 0,
        note.keywords.len() > 0,
        note.sentiment is Some,
    ensures
        similarity_denominator(note, note) > 0,
        similarity_numerator(note, note) == similarity_denominator(note, note),
{
    lemma_common_self(note.tags);
    lemma_common_self(note.keywords);
    let t = note.tags.to_set().len() as int;
    let w = note.keywords.to_set().len() as int;
    assert(3 * t * w + 5 * w * t + 2 * t * w == 10 * t * w && 10 * t * w > 0)
        by (nonlinear_arith)
        requires
            t > 0,
            w > 0,
    ;
}

/// Similarity is symmetric: either note may be the one that is asked.
pub proof fn lemma_similarity_symmetric(a: NoteView, b: NoteView)
    ensures
        similarity_numerator(a, b) == similarity_numerator(b, a),
        similarity_denominator(a, b) == similarity_denominator(b, a),
        similarity_of(a, b) == similarity_of(b, a),
{
    assert(a.tags.to_set().intersect(b.tags.to_set()) =~= b.tags.to_set().intersect(
        a.tags.to_set(),
    ));
    assert(a.tags.to_set().union(b.tags.to_set()) =~= b.tags.to_set().union(a.tags.to_set()));
    assert(a.keywords.to_set().intersect(b.keywords.to_set()) =~= b.keywords.to_set().intersect(
        a.keywords.to_set(),
    ));
    assert(a.keywords.to_set().union(b.keywords.to_set()) =~= b.keywords.to_set().union(
        a.keywords.to_set(),
    ));
}

/// Tells whether `word` is a stop word.
pub fn is_stop_word(word: &str) -> (stop: bool)
    ensures
        stop == stop_word(word@),
{
    same_text(word, "the") || same_text(word, "and") || same_text(word, "or") || same_text(
        word,
        "but",
    ) || same_text(word, "in") || same_text(word, "on") || same_text(word, "at") || same_text(
        word,
        "to",
    ) || same_text(word, "for") || same_text(word, "of") || same_text(word, "with") || same_text(
        word,
        "by",
    ) || same_text(word, "is") || same_text(word, "are") || same_text(word, "was") || same_text(
        word,
        "were",
    ) || same_text(word, "be") || same_text(word, "been") || same_text(word, "have")
        || same_text(word, "has") || same_text(word, "had") || same_text(word, "do") || same_text(
        word,
        "does",
    ) || same_text(word, "did") || same_text(word, "will") || same_text(word, "would")
        || same_text(word, "could") || same_text(word, "should")
}

/// The lower-cased analysis text of a title and a body.
fn lowered_text(title: &str, content: &str) -> (lowered: String)
    ensures
        lowered@ == analysis_text(title@, content@),
{
    let mut joined = title.to_owned();
    joined.append(" ");
    joined.append(content);
    proof {
        reveal_strlit(" ");
        assert(" "@ =~= seq![' ']);
    }
    to_lowercase(joined.as_str())
}

/// 1 when `word` occurs in `text`, else 0.
fn count_occurrence(text: &Vec<char>, word: &str) -> (hit: i8)
    ensures
        hit == occurrence(text@, word@),
{
    let needle = chars_of(word);
    if contains_chars(text, &needle) {
        1
    } else {
        0
    }
}

impl Clone for AppNote {
    fn clone(&self) -> (copy: AppNote)
        ensures
            copy@ == self@,
    {
        AppNote {
            id: self.id.clone(),
            title: self.title.clone(),
            content: self.content.clone(),
            color: self.color,
            text_color: self.text_color,
            x: self.x,
            y: self.y,
            width: self.width,
            height: self.height,
            created_at: self.created_at.clone(),
            updated_at: self.updated_at.clone(),
            tags: clone_texts(&self.tags),
            keywords: clone_texts(&self.keywords),
            workflow_status: self.workflow_status,
            sentiment: self.sentiment,
            priority: self.priority,
            due_date: clone_optional_text(&self.due_date),
            estimated_time: self.estimated_time,
            completion_percentage: self.completion_percentage,
            actual_time: self.actual_time,
        }
    }
}

impl Default for AppNote {
    /// A note titled "New Note" with an empty body.
    fn default() -> (note: AppNote)
        ensures
            is_identifier(note@.id),
            is_minute_stamp(note@.created_at),
            note@ == fresh_note(note@.id, note@.created_at, "New Note"@, Seq::empty()),
            note@.wf(),
    {
        AppNote::new("New Note".to_owned(), String::new())
    }
}

impl AppNote {
    /// Creates a note with a fresh identifier, stamped with the current time.
    pub fn new(title: String, content: String) -> (note: AppNote)
        ensures
            is_identifier(note@.id),
            is_minute_stamp(note@.created_at),
            note@.id.len() > 0 && note@.created_at.len() > 0 && note@.updated_at.len() > 0,
            note@ == fresh_note(note@.id, note@.created_at, title@, content@),
            note@.wf(),
    {
        let id = fresh_identifier();
        let now = current_timestamp();
        AppNote::with_identity(id, now, title, content)
    }

    /// Creates a note under the given identifier and creation time.
    pub fn with_identity(id: String, stamp: String, title: String, content: String) -> (note:
        AppNote)
        ensures
            note@ == fresh_note(id@, stamp@, title@, content@),
            note@.wf(),
    {
        let mut note = AppNote {
            id,
            title,
            content,
            color: SerializableColor { red: 255, green: 235, blue: 59 },
            text_color: None,
            x: 10,
            y: 10,
            width: 220,
            height: 200,
            created_at: stamp.clone(),
            updated_at: stamp,
            tags: Vec::new(),
            keywords: Vec::new(),
            workflow_status: WorkflowStatus::Idea,
            sentiment: None,
            priority: Priority::Medium,
            due_date: None,
            estimated_time: None,
            completion_percentage: 0,
            actual_time: None,
        };
        assert(texts(note.tags@) =~= Seq::<Seq<char>>::empty());
        note.extract_keywords();
        note.analyze_sentiment();
        note
    }

    /// Records `stamp` as the time of the last change.
    pub fn touch(&mut self, stamp: String)
        ensures
            final(self)@ == (NoteView { updated_at: stamp@, ..old(self)@ }),
    {
        self.updated_at = stamp;
    }

    /// Replaces title and body, re-stamps the note and re-derives keywords
    /// and sentiment from the new text.
    pub fn update_content(&mut self, title: String, content: String)
        ensures
            is_minute_stamp(final(self)@.updated_at),
            final(self)@ == (NoteView {
                title: title@,
                content: content@,
                updated_at: final(self)@.updated_at,
                keywords: keywords_of(title@, content@),
                sentiment: Some(sentiment_of(title@, content@) as i8),
                ..old(self)@
            }),
            final(self)@.id == old(self)@.id && final(self)@.created_at == old(self)@.created_at,
            old(self)@.wf() ==> final(self)@.wf(),
    {
        self.title = title;
        self.content = content;
        self.touch(current_timestamp());
        self.extract_keywords();
        self.analyze_sentiment();
    }

    /// Moves the note and re-stamps it.
    pub fn set_position(&mut self, x: i32, y: i32)
        ensures
            is_minute_stamp(final(self)@.updated_at),
            final(self)@ == (NoteView { x, y, updated_at: final(self)@.updated_at, ..old(self)@ }),
    {
        self.x = x;
        self.y = y;
        self.touch(current_timestamp());
    }

    /// Resizes the note and re-stamps it.
    pub fn set_size(&mut self, width: u32, height: u32)
        ensures
            is_minute_stamp(final(self)@.updated_at),
            final(self)@ == (NoteView {
                width,
                height,
                updated_at: final(self)@.updated_at,
                ..old(self)@
            }),
    {
        self.width = width;
        self.height = height;
        self.touch(current_timestamp());
    }

    /// Recolours the note and re-stamps it.
    pub fn set_color(&mut self, color: SerializableColor)
        ensures
            is_minute_stamp(final(self)@.updated_at),
            final(self)@ == (NoteView {
                color,
                updated_at: final(self)@.updated_at,
                ..old(self)@
            }),
    {
        self.color = color;
        self.touch(current_timestamp());
    }

    /// Adds the lower-cased `tag` unless the note carries it already, and
    /// re-stamps the note.
    pub fn add_tag(&mut self, tag: String)
        ensures
            is_minute_stamp(final(self)@.updated_at),
            final(self)@ == (NoteView {
                tags: with_tag(old(self)@.tags, tag@),
                updated_at: final(self)@.updated_at,
                ..old(self)@
            }),
            old(self)@.wf() ==> final(self)@.wf(),
    {
        let lowered = to_lowercase(tag.as_str());
        if !contains_text(&self.tags, lowered.as_str()) {
            let ghost before = texts(self.tags@);
            self.tags.push(lowered);
            assert(texts(self.tags@) =~= before.push(lowercase(tag@)));
        }
        self.touch(current_timestamp());
    }

    /// Removes the lower-cased `tag` if the note carries it, and re-stamps
    /// the note.
    pub fn remove_tag(&mut self, tag: &str)
        ensures
            is_minute_stamp(final(self)@.updated_at),
            final(self)@ == (NoteView {
                tags: without_tag(old(self)@.tags, tag@),
                updated_at: final(self)@.updated_at,
                ..old(self)@
            }),
            old(self)@.wf() ==> final(self)@.wf(),
    {
        let lowered = to_lowercase(tag);
        let mut kept: Vec<String> = Vec::new();
        let mut i: usize = 0;
        assert(texts(self.tags@).take(0) =~= Seq::<Seq<char>>::empty());
        while i < self.tags.len()
            invariant
                *self == *old(self),
                lowered@ == lowercase(tag@),
                i <= self.tags@.len(),
                texts(kept@) == without_tag(texts(self.tags@).take(i as int), tag@),
            decreases self.tags@.len() - i,
        {
            let ghost all = texts(self.tags@);
            let ghost before = texts(kept@);
            proof {
                assert(all.take(i + 1) =~= all.take(i as int).push(all[i as int]));
                all.take(i as int).lemma_filter_push(
                    all[i as int],
                    |t: Seq<char>| t != lowercase(tag@),
                );
            }
            if !same_text(self.tags[i].as_str(), lowered.as_str()) {
                kept.push(self.tags[i].clone());
                assert(texts(kept@) =~= before.push(all[i as int]));
            }
            i += 1;
        }
        proof {
            let all = texts(self.tags@);
            assert(all.take(i as int) == all);
            if old(self)@.wf() {
                lemma_without_tag_keeps_wf(old(self)@, tag@);
            }
        }
        self.tags = kept;
        self.touch(current_timestamp());
    }

    /// Sets the workflow status and re-stamps the note.
    pub fn set_workflow_status(&mut self, status: WorkflowStatus)
        ensures
            is_minute_stamp(final(self)@.updated_at),
            final(self)@ == (NoteView {
                workflow_status: status,
                updated_at: final(self)@.updated_at,
                ..old(self)@
            }),
    {
        self.workflow_status = status;
        self.touch(current_timestamp());
    }

    /// Tells whether the note can be compared with another note.
    pub fn is_comparable(&self) -> (ok: bool)
        ensures
            ok == self@.comparable(),
    {
        let in_range = match self.sentiment {
            Some(s) => -1 <= s && s <= 1,
            None => true,
        };
        in_range && self.tags.len() <= MAX_SET_SIZE && self.keywords.len() <= MAX_SET_SIZE
            && all_distinct(&self.tags) && all_distinct(&self.keywords)
    }

    /// The similarity of this note and `other` if both can be compared,
    /// as [`Self::calculate_similarity`] gives it.
    pub fn checked_similarity(&self, other: &AppNote) -> (score: Option<Similarity>)
        ensures
            score is Some <==> self@.comparable() && other@.comparable(),
            score matches Some(s) ==> {
                &&& s == similarity_of(self@, other@)
                &&& s.numerator == similarity_numerator(self@, other@)
                &&& s.denominator == similarity_denominator(self@, other@)
                &&& s.wf()
                &&& s.numerator <= s.denominator
            },
    {
        if self.is_comparable() && other.is_comparable() {
            Some(self.calculate_similarity(other))
        } else {
            None
        }
    }

    /// The similarity of this note and `other`: 0.3 times the Jaccard index
    /// of the tags, plus 0.5 times that of the keywords, plus 0.2 times the
    /// closeness of the sentiments. It never exceeds 1.
    pub fn calculate_similarity(&self, other: &AppNote) -> (score: Similarity)
        requires
            self@.comparable(),
            other@.comparable(),
        ensures
            score == similarity_of(self@, other@),
            score.numerator == similarity_numerator(self@, other@),
            score.denominator == similarity_denominator(self@, other@),
            score.wf(),
            score.numerator <= score.denominator,
    {
        proof {
            lemma_common_combined(self@.tags, other@.tags);
            lemma_common_combined(self@.keywords, other@.keywords);
        }
        let tag_common = count_common(&self.tags, &other.tags);
        let tag_total = self.tags.len() + other.tags.len() - tag_common;
        let word_common = count_common(&self.keywords, &other.keywords);
        let word_total = self.keywords.len() + other.keywords.len() - word_common;
        weigh(tag_common, tag_total, word_common, word_total, self.sentiment, other.sentiment)
    }

    /// Brings a note whose fields were filled from outside into its
    /// invariant. The time of the last change stays.
    pub fn normalize(&mut self)
        ensures
            final(self)@ == normalized(old(self)@),
            final(self)@.wf(),
    {
        let mut tags: Vec<String> = Vec::new();
        let mut i: usize = 0;
        assert(texts(self.tags@).take(0) =~= Seq::<Seq<char>>::empty());
        assert(texts(tags@) =~= Seq::<Seq<char>>::empty());
        while i < self.tags.len()
            invariant
                *self == *old(self),
                i <= self.tags@.len(),
                texts(tags@) == with_tags(Seq::empty(), texts(self.tags@).take(i as int)),
                texts(tags@).no_duplicates(),
                forall|k: int| 0 <= k < tags@.len() ==> is_lowercased(#[trigger] texts(tags@)[k]),
            decreases self.tags@.len() - i,
        {
            let ghost all = texts(self.tags@);
            let ghost before = texts(tags@);
            proof {
                assert(all.take(i + 1).drop_last() =~= all.take(i as int));
                assert(all.take(i + 1).last() == all[i as int]);
            }
            let lowered = to_lowercase(self.tags[i].as_str());
            if !contains_text(&tags, lowered.as_str()) {
                tags.push(lowered);
                assert(texts(tags@) =~= before.push(lowercase(all[i as int])));
            }
            i += 1;
        }
        assert(texts(self.tags@).take(i as int) =~= texts(self.tags@));
        let mut keywords: Vec<String> = Vec::new();
        let mut j: usize = 0;
        assert(texts(self.keywords@).take(0) =~= Seq::<Seq<char>>::empty());
        assert(texts(keywords@) =~= Seq::<Seq<char>>::empty());
        while j < self.keywords.len()
            invariant
                *self == *old(self),
                j <= self.keywords@.len(),
                texts(keywords@) == distinct(texts(self.keywords@).take(j as int)),
                texts(keywords@).no_duplicates(),
            decreases self.keywords@.len() - j,
        {
            let ghost all = texts(self.keywords@);
            let ghost before = texts(keywords@);
            proof {
                assert(all.take(j + 1).drop_last() =~= all.take(j as int));
                assert(all.take(j + 1).last() == all[j as int]);
            }
            if !contains_text(&keywords, self.keywords[j].as_str()) {
                keywords.push(self.keywords[j].clone());
                assert(texts(keywords@) =~= before.push(all[j as int]));
            }
            j += 1;
        }
        assert(texts(self.keywords@).take(j as int) =~= texts(self.keywords@));
        self.tags = tags;
        self.keywords = keywords;
        self.sentiment = match self.sentiment {
            Some(s) => Some(
                if s > 1 {
                    1
                } else if s < -1 {
                    -1
                } else {
                    s
                },
            ),
            None => None,
        };
        if self.completion_percentage > 100 {
            self.completion_percentage = 100;
        }
    }

    /// Re-derives the keywords from the title and the body.
    pub fn extract_keywords(&mut self)
        ensures
            final(self)@ == (NoteView {
                keywords: keywords_of(old(self)@.title, old(self)@.content),
                ..old(self)@
            }),
            final(self)@.keywords.no_duplicates(),
    {
        let lowered = lowered_text(self.title.as_str(), self.content.as_str());
        let tokens = split_words(lowered.as_str());
        let mut keywords: Vec<String> = Vec::new();
        let mut i: usize = 0;
        assert(texts(tokens@).take(0) =~= Seq::<Seq<char>>::empty());
        while i < tokens.len()
            invariant
                i <= tokens@.len(),
                texts(keywords@) == keywords_among(texts(tokens@).take(i as int)),
                texts(keywords@).no_duplicates(),
            decreases tokens@.len() - i,
        {
            let word = &tokens[i];
            proof {
                let all = texts(tokens@);
                assert(all.take(i + 1).drop_last() =~= all.take(i as int));
                assert(all.take(i + 1).last() == word@);
            }
            if word.as_str().unicode_len() > 3 && !is_stop_word(word.as_str()) && !contains_text(
                &keywords,
                word.as_str(),
            ) {
                let ghost before = texts(keywords@);
                keywords.push(word.clone());
                assert(texts(keywords@) =~= before.push(word@));
            }
            i += 1;
        }
        assert(texts(tokens@).take(i as int) == texts(tokens@));
        self.keywords = keywords;
    }

    /// Re-derives the sentiment from the title and the body.
    pub fn analyze_sentiment(&mut self)
        ensures
            final(self)@ == (NoteView {
                sentiment: Some(sentiment_of(old(self)@.title, old(self)@.content) as i8),
                ..old(self)@
            }),
            -1 <= sentiment_of(old(self)@.title, old(self)@.content) <= 1,
    {
        let lowered = lowered_text(self.title.as_str(), self.content.as_str());
        let text = chars_of(lowered.as_str());
        let positive: i8 = count_occurrence(&text, "good") + count_occurrence(&text, "great")
            + count_occurrence(&text, "excellent") + count_occurrence(&text, "awesome")
            + count_occurrence(&text, "happy") + count_occurrence(&text, "love")
            + count_occurrence(&text, "amazing");
        let negative: i8 = count_occurrence(&text, "bad") + count_occurrence(&text, "terrible")
            + count_occurrence(&text, "awful") + count_occurrence(&text, "hate")
            + count_occurrence(&text, "sad") + count_occurrence(&text, "angry")
            + count_occurrence(&text, "frustrated");
        let raw: i8 = positive - negative;
        let score: i8 = if raw > 1 {
            1
        } else if raw < -1 {
            -1
        } else {
            raw
        };
        self.sentiment = Some(score);
    }
}

} // verus!
