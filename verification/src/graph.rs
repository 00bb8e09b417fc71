//! The knowledge graph: typed, weighted relations between notes, and the
//! discovery that links notes which are similar enough.

use crate::clock::{current_timestamp, is_minute_stamp};
use crate::ident::{fresh_identifier, is_identifier};
use crate::note::{note_views, similarity_of, AppNote, NoteView};
use crate::similarity::Similarity;
use crate::text::{clone_optional_text, optional_text, same_text};
use vstd::prelude::*;

verus! {

/// What a relation says about its two notes.
#[derive(Debug, Clone, Copy, PartialEq, Eq, Structural)]
pub enum RelationType {
    RelatedTo,
    DependsOn,
    Blocks,
    PartOf,
    SubtaskOf,
    References,
    Conflicts,
    Extends,
}

/// A directed, typed, weighted relation between two notes.
#[derive(Debug)]
pub struct NoteRelation {
    pub id: String,
    pub from_note_id: String,
    pub to_note_id: String,
    pub relation_type: RelationType,
    pub strength: Similarity,
    pub created_at: String,
    pub description: Option<String>,
}

/// The mathematical content of a relation.
pub struct RelationView {
    pub id: Seq<char>,
    pub from_note_id: Seq<char>,
    pub to_note_id: Seq<char>,
    pub relation_type: RelationType,
    pub strength: Similarity,
    pub created_at: Seq<char>,
    pub description: Option<Seq<char>>,
}

/// What a relation states, without its identifier, time and description.
pub struct Edge {
    pub from: Seq<char>,
    pub to: Seq<char>,
    pub relation_type: RelationType,
    pub strength: Similarity,
}

impl View for NoteRelation {
    type V = RelationView;

    open spec fn view(&self) -> RelationView {
        RelationView {
            id: self.id@,
            from_note_id: self.from_note_id@,
            to_note_id: self.to_note_id@,
            relation_type: self.relation_type,
            strength: self.strength,
            created_at: self.created_at@,
            description: optional_text(self.description),
        }
    }
}

impl Clone for NoteRelation {
    fn clone(&self) -> (copy: NoteRelation)
        ensures
            copy@ == self@,
    {
        NoteRelation {
            id: self.id.clone(),
            from_note_id: self.from_note_id.clone(),
            to_note_id: self.to_note_id.clone(),
            relation_type: self.relation_type,
            strength: self.strength,
            created_at: self.created_at.clone(),
            description: clone_optional_text(&self.description),
        }
    }
}

impl RelationView {
    /// What the relation states.
    pub open spec fn edge(self) -> Edge {
        Edge {
            from: self.from_note_id,
            to: self.to_note_id,
            relation_type: self.relation_type,
            strength: self.strength,
        }
    }

    /// Whether the relation touches the note `id`, in either direction.
    pub open spec fn touches(self, id: Seq<char>) -> bool {
        self.from_note_id == id || self.to_note_id == id
    }
}

impl Edge {
    /// Whether the edge joins the notes `a` and `b`, in either direction.
    pub open spec fn joins(self, a: Seq<char>, b: Seq<char>) -> bool {
        (self.from == a && self.to == b) || (self.from == b && self.to == a)
    }
}

/// The views of a list of relations.
pub open spec fn relation_views(relations: Seq<NoteRelation>) -> Seq<RelationView> {
    Seq::new(relations.len(), |i: int| relations[i]@)
}

/// The views of a list of borrowed relations.
pub open spec fn borrowed_views(relations: Seq<&NoteRelation>) -> Seq<RelationView> {
    Seq::new(relations.len(), |i: int| relations[i]@)
}

/// The edges of a list of relations.
pub open spec fn edges_of(relations: Seq<RelationView>) -> Seq<Edge> {
    Seq::new(relations.len(), |i: int| relations[i].edge())
}

/// Whether some edge joins the notes `a` and `b`.
pub open spec fn connected(edges: Seq<Edge>, a: Seq<char>, b: Seq<char>) -> bool {
    exists|k: int| 0 <= k < edges.len() && (#[trigger] edges[k]).joins(a, b)
}

/// The relations that touch the note `id`, in order.
pub open spec fn related(relations: Seq<RelationView>, id: Seq<char>) -> Seq<RelationView> {
    relations.filter(|r: RelationView| r.touches(id))
}

/// Whether every one of `notes` can be compared.
pub open spec fn all_comparable(notes: Seq<NoteView>) -> bool {
    forall|i: int| 0 <= i < notes.len() ==> (#[trigger] notes[i]).comparable()
}

/// The edges after an attempt at discovery: those of a full discovery where
/// every note can be compared, else the edges as they were.
pub open spec fn attempted(edges: Seq<Edge>, notes: Seq<NoteView>, threshold: Similarity) -> Seq<
    Edge,
> {
    if all_comparable(notes) {
        discovered(edges, notes, threshold)
    } else {
        edges
    }
}

/// Whether no two edges join the same pair of notes, in either direction.
pub open spec fn pairs_distinct(edges: Seq<Edge>) -> bool {
    forall|k: int, m: int|
        0 <= k < m < edges.len() ==> !(#[trigger] edges[m]).joins(
            (#[trigger] edges[k]).from,
            edges[k].to,
        )
}

/// The edge that discovery draws between two notes.
pub open spec fn discovered_edge(a: NoteView, b: NoteView) -> Edge {
    Edge {
        from: a.id,
        to: b.id,
        relation_type: RelationType::RelatedTo,
        strength: similarity_of(a, b),
    }
}

/// Whether discovery links `a` and `b` given the edges so far: they are
/// similar enough and nothing joins them yet.
pub open spec fn links(edges: Seq<Edge>, a: NoteView, b: NoteView, threshold: Similarity) -> bool {
    similarity_of(a, b).ge(threshold) && !connected(edges, a.id, b.id)
}

/// The edges after discovery looked at the pair `a`, `b`.
pub open spec fn consider(
    edges: Seq<Edge>,
    a: NoteView,
    b: NoteView,
    threshold: Similarity,
) -> Seq<Edge> {
    if links(edges, a, b, threshold) {
        edges.push(discovered_edge(a, b))
    } else {
        edges
    }
}

/// The edges after discovery paired note `i` with the notes `i + 1 .. upto`.
pub open spec fn discover_row(
    edges: Seq<Edge>,
    notes: Seq<NoteView>,
    threshold: Similarity,
    i: int,
    upto: int,
) -> Seq<Edge>
    decreases upto - i,
{
    if upto <= i + 1 {
        edges
    } else {
        consider(
            discover_row(edges, notes, threshold, i, upto - 1),
            notes[i],
            notes[upto - 1],
            threshold,
        )
    }
}

/// The edges after discovery handled the first `rows` notes, each paired
/// with all the notes behind it.
pub open spec fn discover_rows(
    edges: Seq<Edge>,
    notes: Seq<NoteView>,
    threshold: Similarity,
    rows: int,
) -> Seq<Edge>
    decreases rows,
{
    if rows <= 0 {
        edges
    } else {
        discover_row(
            discover_rows(edges, notes, threshold, rows - 1),
            notes,
            threshold,
            rows - 1,
            notes.len() as int,
        )
    }
}

/// The edges after a full discovery over `notes`: every pair `i < j`, in
/// order, is linked when it is similar enough and not joined yet.
pub open spec fn discovered(edges: Seq<Edge>, notes: Seq<NoteView>, threshold: Similarity) -> Seq<
    Edge,
> {
    discover_rows(edges, notes, threshold, notes.len() as int)
}

/// Whether the pair `i`, `j` needs no new edge: it is joined already or not
/// similar enough.
pub open spec fn pair_settled(
    edges: Seq<Edge>,
    notes: Seq<NoteView>,
    threshold: Similarity,
    i: int,
    j: int,
) -> bool {
    similarity_of(notes[i], notes[j]).ge(threshold) ==> connected(edges, notes[i].id, notes[j].id)
}

/// Whether every pair of notes is settled.
pub open spec fn saturated(edges: Seq<Edge>, notes: Seq<NoteView>, threshold: Similarity) -> bool {
    forall|i: int, j: int|
        0 <= i < j < notes.len() ==> #[trigger] pair_settled(edges, notes, threshold, i, j)
}

/// Edges that are joined stay joined when more edges follow.
pub proof fn lemma_connected_extends(
    edges: Seq<Edge>,
    more: Seq<Edge>,
    a: Seq<char>,
    b: Seq<char>,
)
    requires
        edges.is_prefix_of(more),
        connected(edges, a, b),
    ensures
        connected(more, a, b),
{
    let k = choose|k: int| 0 <= k < edges.len() && (#[trigger] edges[k]).joins(a, b);
    assert(more[k] == edges[k]);
    assert(more[k].joins(a, b));
}

/// Discovery within a row only appends edges.
pub proof fn lemma_row_extends(
    edges: Seq<Edge>,
    notes: Seq<NoteView>,
    threshold: Similarity,
    i: int,
    upto: int,
)
    ensures
        edges.is_prefix_of(discover_row(edges, notes, threshold, i, upto)),
    decreases upto - i,
{
    if upto > i + 1 {
        lemma_row_extends(edges, notes, threshold, i, upto - 1);
    }
}

/// Discovery over rows only appends edges.
pub proof fn lemma_rows_extend(
    edges: Seq<Edge>,
    notes: Seq<NoteView>,
    threshold: Similarity,
    rows: int,
)
    ensures
        edges.is_prefix_of(discover_rows(edges, notes, threshold, rows)),
    decreases rows,
{
    if rows > 0 {
        lemma_rows_extend(edges, notes, threshold, rows - 1);
        lemma_row_extends(
            discover_rows(edges, notes, threshold, rows - 1),
            notes,
            threshold,
            rows - 1,
            notes.len() as int,
        );
    }
}

/// After a row, every pair of that row is settled.
proof fn lemma_row_settles(
    edges: Seq<Edge>,
    notes: Seq<NoteView>,
    threshold: Similarity,
    i: int,
    upto: int,
)
    ensures
        forall|j: int|
            i < j < upto ==> #[trigger] pair_settled(
                discover_row(edges, notes, threshold, i, upto),
                notes,
                threshold,
                i,
                j,
            ),
    decreases upto - i,
{
    if upto > i + 1 {
        let before = discover_row(edges, notes, threshold, i, upto - 1);
        let after = discover_row(edges, notes, threshold, i, upto);
        lemma_row_settles(edges, notes, threshold, i, upto - 1);
        assert(after == consider(before, notes[i], notes[upto - 1], threshold));
        assert(before.is_prefix_of(after));
        assert forall|j: int| i < j < upto implies #[trigger] pair_settled(
            after,
            notes,
            threshold,
            i,
            j,
        ) by {
            if similarity_of(notes[i], notes[j]).ge(threshold) {
                if j < upto - 1 {
                    assert(pair_settled(before, notes, threshold, i, j));
                    lemma_connected_extends(before, after, notes[i].id, notes[j].id);
                } else if connected(before, notes[i].id, notes[j].id) {
                    lemma_connected_extends(before, after, notes[i].id, notes[j].id);
                } else {
                    assert(after == before.push(discovered_edge(notes[i], notes[j])));
                    assert(after[before.len() as int].joins(notes[i].id, notes[j].id));
                }
            }
        }
    }
}

/// After `rows` rows, every pair that starts in one of them is settled.
proof fn lemma_rows_settle(
    edges: Seq<Edge>,
    notes: Seq<NoteView>,
    threshold: Similarity,
    rows: int,
)
    ensures
        forall|i: int, j: int|
            0 <= i < rows && i < j < notes.len() ==> #[trigger] pair_settled(
                discover_rows(edges, notes, threshold, rows),
                notes,
                threshold,
                i,
                j,
            ),
    decreases rows,
{
    if rows > 0 {
        let before = discover_rows(edges, notes, threshold, rows - 1);
        let after = discover_rows(edges, notes, threshold, rows);
        lemma_rows_settle(edges, notes, threshold, rows - 1);
        lemma_row_settles(before, notes, threshold, rows - 1, notes.len() as int);
        lemma_row_extends(before, notes, threshold, rows - 1, notes.len() as int);
        assert forall|i: int, j: int| 0 <= i < rows && i < j < notes.len() implies #[trigger] pair_settled(
            after,
            notes,
            threshold,
            i,
            j,
        ) by {
            if i < rows - 1 && similarity_of(notes[i], notes[j]).ge(threshold) {
                assert(pair_settled(before, notes, threshold, i, j));
                lemma_connected_extends(before, after, notes[i].id, notes[j].id);
            }
        }
    }
}

/// A row over settled pairs adds nothing.
proof fn lemma_row_fixed(
    edges: Seq<Edge>,
    notes: Seq<NoteView>,
    threshold: Similarity,
    i: int,
    upto: int,
)
    requires
        forall|j: int| i < j < upto ==> #[trigger] pair_settled(edges, notes, threshold, i, j),
    ensures
        discover_row(edges, notes, threshold, i, upto) == edges,
    decreases upto - i,
{
    if upto > i + 1 {
        lemma_row_fixed(edges, notes, threshold, i, upto - 1);
        assert(pair_settled(edges, notes, threshold, i, upto - 1));
    }
}

/// Rows over settled pairs add nothing.
proof fn lemma_rows_fixed(
    edges: Seq<Edge>,
    notes: Seq<NoteView>,
    threshold: Similarity,
    rows: int,
)
    requires
        rows <= notes.len(),
        saturated(edges, notes, threshold),
    ensures
        discover_rows(edges, notes, threshold, rows) == edges,
    decreases rows,
{
    if rows > 0 {
        lemma_rows_fixed(edges, notes, threshold, rows - 1);
        assert forall|j: int| rows - 1 < j < notes.len() implies #[trigger] pair_settled(
            edges,
            notes,
            threshold,
            rows - 1,
            j,
        ) by {}
        lemma_row_fixed(edges, notes, threshold, rows - 1, notes.len() as int);
    }
}

/// Whether `edge` is one that discovery draws over `notes`: the `RelatedTo`
/// edge of a pair of notes whose similarity reaches the threshold, with that
/// similarity as its strength.
pub open spec fn drawn(edge: Edge, notes: Seq<NoteView>, threshold: Similarity) -> bool {
    exists|i: int, j: int|
        0 <= i < j < notes.len() && edge == #[trigger] discovered_edge(notes[i], notes[j])
            && similarity_of(notes[i], notes[j]).ge(threshold)
}

/// Whether every edge of `after` behind the first `kept` is drawn by
/// discovery and joins a pair that no edge before it joins.
pub open spec fn only_new_pairs(
    kept: int,
    after: Seq<Edge>,
    notes: Seq<NoteView>,
    threshold: Similarity,
) -> bool {
    forall|m: int|
        kept <= m < after.len() ==> drawn(#[trigger] after[m], notes, threshold) && !connected(
            after.take(m),
            after[m].from,
            after[m].to,
        )
}

/// A row of discovery adds only edges of similar pairs that nothing joined.
proof fn lemma_row_adds_new_pairs(
    kept: int,
    edges: Seq<Edge>,
    notes: Seq<NoteView>,
    threshold: Similarity,
    i: int,
    upto: int,
)
    requires
        0 <= kept <= edges.len(),
        0 <= i,
        upto <= notes.len(),
        only_new_pairs(kept, edges, notes, threshold),
    ensures
        only_new_pairs(kept, discover_row(edges, notes, threshold, i, upto), notes, threshold),
    decreases upto - i,
{
    if upto > i + 1 {
        let before = discover_row(edges, notes, threshold, i, upto - 1);
        let after = discover_row(edges, notes, threshold, i, upto);
        lemma_row_adds_new_pairs(kept, edges, notes, threshold, i, upto - 1);
        lemma_row_extends(edges, notes, threshold, i, upto - 1);
        assert forall|m: int| kept <= m < after.len() implies drawn(
            #[trigger] after[m],
            notes,
            threshold,
        ) && !connected(after.take(m), after[m].from, after[m].to) by {
            if m < before.len() {
                assert(after[m] == before[m]);
                assert(after.take(m) =~= before.take(m));
            } else {
                assert(after[m] == discovered_edge(notes[i], notes[upto - 1]));
                assert(after.take(m) =~= before);
            }
        }
    }
}

/// Rows of discovery add only edges of similar pairs that nothing joined.
proof fn lemma_rows_add_new_pairs(
    kept: int,
    edges: Seq<Edge>,
    notes: Seq<NoteView>,
    threshold: Similarity,
    rows: int,
)
    requires
        0 <= kept <= edges.len(),
        rows <= notes.len(),
        only_new_pairs(kept, edges, notes, threshold),
    ensures
        only_new_pairs(kept, discover_rows(edges, notes, threshold, rows), notes, threshold),
    decreases rows,
{
    if rows > 0 {
        lemma_rows_add_new_pairs(kept, edges, notes, threshold, rows - 1);
        lemma_rows_extend(edges, notes, threshold, rows - 1);
        lemma_row_adds_new_pairs(
            kept,
            discover_rows(edges, notes, threshold, rows - 1),
            notes,
            threshold,
            rows - 1,
            notes.len() as int,
        );
    }
}

/// Discovery draws no edge twice and none in vain: every edge that it adds
/// is the edge of a pair of notes whose similarity reaches the threshold,
/// and no edge before it, old or new, joins that pair.
pub proof fn lemma_discovery_adds_new_pairs(
    edges: Seq<Edge>,
    notes: Seq<NoteView>,
    threshold: Similarity,
)
    ensures
        only_new_pairs(edges.len() as int, discovered(edges, notes, threshold), notes, threshold),
{
    lemma_rows_add_new_pairs(edges.len() as int, edges, notes, threshold, notes.len() as int);
}

/// Discovery joins no pair of notes twice: where no two edges join the same
/// pair before, none do after.
pub proof fn lemma_discovery_keeps_pairs_distinct(
    edges: Seq<Edge>,
    notes: Seq<NoteView>,
    threshold: Similarity,
)
    requires
        pairs_distinct(edges),
    ensures
        pairs_distinct(discovered(edges, notes, threshold)),
{
    let after = discovered(edges, notes, threshold);
    lemma_discovery_adds_new_pairs(edges, notes, threshold);
    lemma_rows_extend(edges, notes, threshold, notes.len() as int);
    assert forall|k: int, m: int| 0 <= k < m < after.len() implies !(#[trigger] after[m]).joins(
        (#[trigger] after[k]).from,
        after[k].to,
    ) by {
        if m < edges.len() {
            assert(after[m] == edges[m] && after[k] == edges[k]);
        } else {
            assert(!connected(after.take(m), after[m].from, after[m].to));
            assert(after.take(m)[k] == after[k]);
        }
    }
}

/// An attempt at discovery is idempotent for every list of notes: a second
/// attempt over the same notes, at the same threshold, leaves the edges as
/// the first attempt left them.
pub proof fn lemma_attempt_idempotent(
    edges: Seq<Edge>,
    notes: Seq<NoteView>,
    threshold: Similarity,
)
    ensures
        attempted(attempted(edges, notes, threshold), notes, threshold) == attempted(
            edges,
            notes,
            threshold,
        ),
{
    lemma_discovery_idempotent(edges, notes, threshold);
}

/// Discovery keeps the edges it starts from, in place, and appends to them.
pub proof fn lemma_discovery_extends(
    edges: Seq<Edge>,
    notes: Seq<NoteView>,
    threshold: Similarity,
)
    ensures
        edges.is_prefix_of(discovered(edges, notes, threshold)),
{
    lemma_rows_extend(edges, notes, threshold, notes.len() as int);
}

/// After discovery every pair of notes that is similar enough is joined.
pub proof fn lemma_discovery_saturates(
    edges: Seq<Edge>,
    notes: Seq<NoteView>,
    threshold: Similarity,
)
    ensures
        saturated(discovered(edges, notes, threshold), notes, threshold),
{
    lemma_rows_settle(edges, notes, threshold, notes.len() as int);
}

/// Discovery adds nothing where every similar pair is joined already.
pub proof fn lemma_saturated_fixed(edges: Seq<Edge>, notes: Seq<NoteView>, threshold: Similarity)
    requires
        saturated(edges, notes, threshold),
    ensures
        discovered(edges, notes, threshold) == edges,
{
    lemma_rows_fixed(edges, notes, threshold, notes.len() as int);
}

/// Discovery is idempotent: a second run over the same notes, at the same
/// threshold, adds no edge to what the first run left.
pub proof fn lemma_discovery_idempotent(
    edges: Seq<Edge>,
    notes: Seq<NoteView>,
    threshold: Similarity,
)
    ensures
        discovered(discovered(edges, notes, threshold), notes, threshold) == discovered(
            edges,
            notes,
            threshold,
        ),
{
    lemma_discovery_saturates(edges, notes, threshold);
    lemma_saturated_fixed(discovered(edges, notes, threshold), notes, threshold);
}

/// The relations of a collection of notes and the threshold at which
/// discovery links two notes.
#[derive(Debug)]
pub struct KnowledgeGraph {
    pub relations: Vec<NoteRelation>,
    pub auto_relation_threshold: Similarity,
}

impl Clone for KnowledgeGraph {
    fn clone(&self) -> (copy: KnowledgeGraph)
        ensures
            copy.relations_view() == self.relations_view(),
            copy.auto_relation_threshold == self.auto_relation_threshold,
    {
        let mut relations: Vec<NoteRelation> = Vec::new();
        let mut k: usize = 0;
        while k < self.relations.len()
            invariant
                k <= self.relations@.len(),
                relation_views(relations@) == self.relations_view().take(k as int),
            decreases self.relations@.len() - k,
        {
            let ghost before = relation_views(relations@);
            relations.push(self.relations[k].clone());
            assert(relation_views(relations@) =~= before.push(self.relations@[k as int]@));
            assert(self.relations_view().take(k + 1) =~= self.relations_view().take(
                k as int,
            ).push(self.relations@[k as int]@));
            k += 1;
        }
        assert(self.relations_view().take(k as int) =~= self.relations_view());
        KnowledgeGraph { relations, auto_relation_threshold: self.auto_relation_threshold }
    }
}

impl KnowledgeGraph {
    /// The views of the relations, in order.
    pub open spec fn relations_view(&self) -> Seq<RelationView> {
        relation_views(self.relations@)
    }

    /// The edges of the relations, in order.
    pub open spec fn edges(&self) -> Seq<Edge> {
        edges_of(self.relations_view())
    }

    /// An empty graph with the threshold 3/10.
    pub fn new() -> (graph: KnowledgeGraph)
        ensures
            graph.relations@.len() == 0,
            graph.auto_relation_threshold == (Similarity { numerator: 3, denominator: 10 }),
    {
        KnowledgeGraph {
            relations: Vec::new(),
            auto_relation_threshold: Similarity { numerator: 3, denominator: 10 },
        }
    }

    /// Appends a relation under the given identifier and creation time.
    pub fn push_relation(
        &mut self,
        id: String,
        created_at: String,
        from_id: String,
        to_id: String,
        relation_type: RelationType,
        strength: Similarity,
    )
        ensures
            final(self).auto_relation_threshold == old(self).auto_relation_threshold,
            final(self).relations_view() == old(self).relations_view().push(
                RelationView {
                    id: id@,
                    from_note_id: from_id@,
                    to_note_id: to_id@,
                    relation_type,
                    strength,
                    created_at: created_at@,
                    description: None,
                },
            ),
    {
        let relation = NoteRelation {
            id,
            from_note_id: from_id,
            to_note_id: to_id,
            relation_type,
            strength,
            created_at,
            description: None,
        };
        let ghost before = self.relations_view();
        self.relations.push(relation);
        assert(self.relations_view() =~= before.push(relation@));
    }

    /// Appends a relation with a fresh identifier, stamped with the current
    /// time. Nothing is checked against the relations already there.
    pub fn add_relation(
        &mut self,
        from_id: String,
        to_id: String,
        relation_type: RelationType,
        strength: Similarity,
    )
        ensures
            final(self).auto_relation_threshold == old(self).auto_relation_threshold,
            final(self).relations_view().len() == old(self).relations_view().len() + 1,
            final(self).relations_view().drop_last() == old(self).relations_view(),
            is_identifier(final(self).relations_view().last().id),
            is_minute_stamp(final(self).relations_view().last().created_at),
            final(self).relations_view().last() == (RelationView {
                id: final(self).relations_view().last().id,
                from_note_id: from_id@,
                to_note_id: to_id@,
                relation_type,
                strength,
                created_at: final(self).relations_view().last().created_at,
                description: None,
            }),
    {
        let id = fresh_identifier();
        let now = current_timestamp();
        let ghost before = self.relations_view();
        self.push_relation(id, now, from_id, to_id, relation_type, strength);
        assert(self.relations_view().drop_last() =~= before);
    }

    /// Tells whether some relation joins the notes `a` and `b`, in either
    /// direction.
    pub fn relation_exists(&self, a: &str, b: &str) -> (exists: bool)
        ensures
            exists == connected(self.edges(), a@, b@),
    {
        let mut k: usize = 0;
        while k < self.relations.len()
            invariant
                k <= self.relations@.len(),
                forall|m: int| 0 <= m < k ==> !(#[trigger] self.edges()[m]).joins(a@, b@),
            decreases self.relations@.len() - k,
        {
            let r = &self.relations[k];
            let forward = same_text(r.from_note_id.as_str(), a) && same_text(
                r.to_note_id.as_str(),
                b,
            );
            let backward = same_text(r.from_note_id.as_str(), b) && same_text(
                r.to_note_id.as_str(),
                a,
            );
            if forward || backward {
                assert(self.edges()[k as int].joins(a@, b@));
                return true;
            }
            k += 1;
        }
        false
    }

    /// Looks at every pair of notes, first with second, first with third and
    /// so on, and links a pair with a `RelatedTo` relation of the pair's
    /// similarity when that similarity reaches the threshold and no relation
    /// joins the pair yet. The relations that were there stay as they are.
    pub fn auto_discover_relations(&mut self, notes: &[AppNote])
        requires
            all_comparable(note_views(notes@)),
        ensures
            final(self).auto_relation_threshold == old(self).auto_relation_threshold,
            final(self).edges() == discovered(
                old(self).edges(),
                note_views(notes@),
                old(self).auto_relation_threshold,
            ),
            old(self).relations_view().is_prefix_of(final(self).relations_view()),
            forall|k: int|
                old(self).relations_view().len() <= k < final(self).relations_view().len() ==> {
                    let r = #[trigger] final(self).relations_view()[k];
                    is_identifier(r.id) && is_minute_stamp(r.created_at) && r.description is None
                },
    {
        let ghost start = self.relations_view();
        let ghost start_edges = self.edges();
        let ghost views = note_views(notes@);
        let ghost threshold = self.auto_relation_threshold;
        let n = notes.len();
        let mut i: usize = 0;
        while i < n
            invariant
                n == notes@.len(),
                views == note_views(notes@),
                all_comparable(views),
                i <= n,
                self.auto_relation_threshold == threshold,
                self.edges() == discover_rows(start_edges, views, threshold, i as int),
                start.is_prefix_of(self.relations_view()),
                forall|k: int|
                    start.len() <= k < self.relations_view().len() ==> {
                        let r = #[trigger] self.relations_view()[k];
                        is_identifier(r.id) && is_minute_stamp(r.created_at) && r.description is None
                    },
            decreases n - i,
        {
            let ghost row_start = self.edges();
            let mut j: usize = i + 1;
            while j < n
                invariant
                    n == notes@.len(),
                    views == note_views(notes@),
                    all_comparable(views),
                    i < n,
                    i + 1 <= j <= n,
                    self.auto_relation_threshold == threshold,
                    self.edges() == discover_row(row_start, views, threshold, i as int, j as int),
                    start.is_prefix_of(self.relations_view()),
                    forall|k: int|
                        start.len() <= k < self.relations_view().len() ==> {
                            let r = #[trigger] self.relations_view()[k];
                            is_identifier(r.id) && is_minute_stamp(r.created_at)
                                && r.description is None
                        },
                decreases n - j,
            {
                let a = &notes[i];
                let b = &notes[j];
                let ghost before = self.relations_view();
                let ghost before_edges = self.edges();
                assert(views[i as int] == a@ && views[j as int] == b@);
                let similarity = a.calculate_similarity(b);
                if similarity.at_least(&self.auto_relation_threshold) && !self.relation_exists(
                    a.id.as_str(),
                    b.id.as_str(),
                ) {
                    self.add_relation(
                        a.id.clone(),
                        b.id.clone(),
                        RelationType::RelatedTo,
                        similarity,
                    );
                    proof {
                        let after = self.relations_view();
                        assert(after.drop_last() == before);
                        assert(self.edges() =~= before_edges.push(discovered_edge(a@, b@)));
                        assert forall|k: int| start.len() <= k < after.len() implies {
                            let r = #[trigger] after[k];
                            is_identifier(r.id) && is_minute_stamp(r.created_at)
                                && r.description is None
                        } by {
                            if k < before.len() {
                                assert(after[k] == after.drop_last()[k]);
                                assert(after[k] == before[k]);
                            }
                        }
                        assert(start.is_prefix_of(after)) by {
                            assert forall|k: int| 0 <= k < start.len() implies start[k]
                                == after[k] by {
                                assert(after[k] == after.drop_last()[k]);
                            }
                        }
                    }
                }
                j += 1;
            }
            i += 1;
        }
    }

    /// Runs [`Self::auto_discover_relations`] if every note can be compared,
    /// and tells whether it did; otherwise the graph stays as it is.
    pub fn try_auto_discover_relations(&mut self, notes: &[AppNote]) -> (done: bool)
        ensures
            done == all_comparable(note_views(notes@)),
            final(self).auto_relation_threshold == old(self).auto_relation_threshold,
            final(self).edges() == attempted(
                old(self).edges(),
                note_views(notes@),
                old(self).auto_relation_threshold,
            ),
            !done ==> final(self).relations_view() == old(self).relations_view(),
            old(self).relations_view().is_prefix_of(final(self).relations_view()),
            forall|k: int|
                old(self).relations_view().len() <= k < final(self).relations_view().len() ==> {
                    let r = #[trigger] final(self).relations_view()[k];
                    is_identifier(r.id) && is_minute_stamp(r.created_at) && r.description is None
                },
    {
        let mut i: usize = 0;
        while i < notes.len()
            invariant
                i <= notes@.len(),
                forall|k: int| 0 <= k < i ==> (#[trigger] note_views(notes@)[k]).comparable(),
            decreases notes@.len() - i,
        {
            if !notes[i].is_comparable() {
                assert(!note_views(notes@)[i as int].comparable());
                return false;
            }
            i += 1;
        }
        self.auto_discover_relations(notes);
        true
    }

    /// The relations that touch the note `note_id`, in either direction.
    pub fn find_related_notes(&self, note_id: &str) -> (found: Vec<&NoteRelation>)
        ensures
            borrowed_views(found@) == related(self.relations_view(), note_id@),
    {
        let mut found: Vec<&NoteRelation> = Vec::new();
        let mut k: usize = 0;
        let ghost touches = |r: RelationView| r.touches(note_id@);
        assert(self.relations_view().take(0) =~= Seq::<RelationView>::empty());
        assert(borrowed_views(found@) =~= Seq::<RelationView>::empty());
        while k < self.relations.len()
            invariant
                k <= self.relations@.len(),
                touches == |r: RelationView| r.touches(note_id@),
                borrowed_views(found@) == self.relations_view().take(k as int).filter(touches),
            decreases self.relations@.len() - k,
        {
            let r = &self.relations[k];
            proof {
                let all = self.relations_view();
                assert(all.take(k + 1) =~= all.take(k as int).push(all[k as int]));
                all.take(k as int).lemma_filter_push(all[k as int], touches);
            }
            if same_text(r.from_note_id.as_str(), note_id) || same_text(
                r.to_note_id.as_str(),
                note_id,
            ) {
                let ghost before = borrowed_views(found@);
                found.push(r);
                assert(borrowed_views(found@) =~= before.push(r@));
            }
            k += 1;
        }
        assert(self.relations_view().take(k as int) == self.relations_view());
        found
    }
}

} // verus!
