//! The note document, a mapping from identifier to note, and the store that
//! applies the storage operations to it.

use crate::note::{note_views, AppNote, NoteView};
use crate::text::{
    all_whitespace, decimal, decimal_text, is_blank, same_text,
};
use std::path::PathBuf;
use vstd::prelude::*;

verus! {

#[verifier::external_type_specification]
#[verifier::external_body]
pub struct ExPathBuf(PathBuf);

/// Copies a path with `PathBuf::clone`. Trusted: the copy is the same path.
#[verifier::external_body]
fn clone_path(path: &PathBuf) -> (copy: PathBuf)
    ensures
        copy == *path,
{
    path.clone()
}

/// Whether one of `notes` carries the identifier `id`.
pub open spec fn has_id(notes: Seq<NoteView>, id: Seq<char>) -> bool {
    exists|i: int| 0 <= i < notes.len() && (#[trigger] notes[i]).id == id
}

/// The index of a note that carries the identifier `id`.
pub open spec fn index_of_id(notes: Seq<NoteView>, id: Seq<char>) -> int {
    choose|i: int| 0 <= i < notes.len() && (#[trigger] notes[i]).id == id
}

/// Whether no two of `notes` share an identifier.
pub open spec fn unique_ids(notes: Seq<NoteView>) -> bool {
    forall|i: int, j: int|
        0 <= i < notes.len() && 0 <= j < notes.len() && i != j ==> (#[trigger] notes[i]).id != (
        #[trigger] notes[j]).id
}

/// The mapping from identifier to note that a list of notes stands for.
pub open spec fn entries(notes: Seq<NoteView>) -> Map<Seq<char>, NoteView> {
    Map::new(|id: Seq<char>| has_id(notes, id), |id: Seq<char>| notes[index_of_id(notes, id)])
}

/// Each note of a list with unique identifiers is the entry under its own
/// identifier.
pub proof fn lemma_entries_at(notes: Seq<NoteView>, i: int)
    requires
        unique_ids(notes),
        0 <= i < notes.len(),
    ensures
        entries(notes).contains_key(notes[i].id),
        entries(notes)[notes[i].id] == notes[i],
{
    assert(has_id(notes, notes[i].id));
}

/// A list with unique identifiers stands for as many entries as it is long.
pub proof fn lemma_entries_len(notes: Seq<NoteView>)
    requires
        unique_ids(notes),
    ensures
        entries(notes).dom().finite(),
        entries(notes).len() == notes.len(),
{
    let ids = Seq::new(notes.len(), |i: int| notes[i].id);
    assert(ids.no_duplicates());
    ids.unique_seq_to_set();
    vstd::seq_lib::seq_to_set_is_finite(ids);
    assert forall|id: Seq<char>| ids.to_set().contains(id) <==> entries(notes).dom().contains(
        id,
    ) by {
        if ids.to_set().contains(id) {
            let i = choose|i: int| 0 <= i < ids.len() && ids[i] == id;
            assert(notes[i].id == id);
        }
        if has_id(notes, id) {
            let i = index_of_id(notes, id);
            assert(ids[i] == id);
        }
    }
    assert(ids.to_set() =~= entries(notes).dom());
}

/// A note under a new identifier joins the entries.
pub proof fn lemma_entries_push(notes: Seq<NoteView>, note: NoteView)
    requires
        unique_ids(notes),
        !has_id(notes, note.id),
    ensures
        unique_ids(notes.push(note)),
        entries(notes.push(note)) == entries(notes).insert(note.id, note),
{
    let more = notes.push(note);
    assert forall|id: Seq<char>| has_id(more, id) <==> (has_id(notes, id) || id == note.id) by {
        if has_id(more, id) {
            let i = index_of_id(more, id);
            if i < notes.len() {
                assert(notes[i].id == id);
            }
        }
        if has_id(notes, id) {
            let i = index_of_id(notes, id);
            assert(more[i].id == id);
        }
        if id == note.id {
            assert(more[notes.len() as int].id == id);
        }
    }
    assert forall|id: Seq<char>| has_id(more, id) implies #[trigger] entries(more)[id] == entries(
        notes,
    ).insert(note.id, note)[id] by {
        let i = index_of_id(more, id);
        if id != note.id {
            let j = index_of_id(notes, id);
            assert(more[j].id == more[i].id);
        }
    }
    assert(entries(more) =~= entries(notes).insert(note.id, note));
}

/// A note put in the place of the note with its identifier replaces that
/// entry.
pub proof fn lemma_entries_update(notes: Seq<NoteView>, i: int, note: NoteView)
    requires
        unique_ids(notes),
        0 <= i < notes.len(),
        notes[i].id == note.id,
    ensures
        unique_ids(notes.update(i, note)),
        entries(notes.update(i, note)) == entries(notes).insert(note.id, note),
{
    let changed = notes.update(i, note);
    assert forall|a: int, b: int|
        0 <= a < changed.len() && 0 <= b < changed.len() && a != b implies (
    #[trigger] changed[a]).id != (#[trigger] changed[b]).id by {
        assert(changed[a].id == notes[a].id);
        assert(changed[b].id == notes[b].id);
    }
    assert forall|id: Seq<char>| has_id(changed, id) <==> has_id(notes, id) by {
        if has_id(changed, id) {
            let k = index_of_id(changed, id);
            assert(notes[k].id == id);
        }
        if has_id(notes, id) {
            let k = index_of_id(notes, id);
            assert(changed[k].id == id);
        }
    }
    assert(has_id(notes, note.id));
    assert forall|id: Seq<char>| has_id(changed, id) implies #[trigger] entries(changed)[id]
        == entries(notes).insert(note.id, note)[id] by {
        let k = index_of_id(changed, id);
        assert(notes[k].id == id);
        if id != note.id {
            let j = index_of_id(notes, id);
            assert(notes[j].id == notes[k].id);
        } else {
            assert(notes[k].id == notes[i].id);
        }
    }
    assert(entries(changed) =~= entries(notes).insert(note.id, note));
}

/// Taking a note out of the list takes its entry away.
pub proof fn lemma_entries_remove(notes: Seq<NoteView>, i: int)
    requires
        unique_ids(notes),
        0 <= i < notes.len(),
    ensures
        unique_ids(notes.remove(i)),
        entries(notes.remove(i)) == entries(notes).remove(notes[i].id),
{
    let fewer = notes.remove(i);
    let gone = notes[i].id;
    assert forall|k: int| 0 <= k < fewer.len() implies #[trigger] fewer[k] == notes[if k < i {
        k
    } else {
        k + 1
    }] by {}
    assert forall|a: int, b: int|
        0 <= a < fewer.len() && 0 <= b < fewer.len() && a != b implies (#[trigger] fewer[a]).id
        != (#[trigger] fewer[b]).id by {
        let a0 = if a < i {
            a
        } else {
            a + 1
        };
        let b0 = if b < i {
            b
        } else {
            b + 1
        };
        assert(fewer[a] == notes[a0] && fewer[b] == notes[b0]);
    }
    assert forall|id: Seq<char>| has_id(fewer, id) <==> (has_id(notes, id) && id != gone) by {
        if has_id(fewer, id) {
            let k = index_of_id(fewer, id);
            let k0 = if k < i {
                k
            } else {
                k + 1
            };
            assert(fewer[k] == notes[k0]);
            assert(notes[k0].id == id);
        }
        if has_id(notes, id) && id != gone {
            let k0 = index_of_id(notes, id);
            let k = if k0 < i {
                k0
            } else {
                k0 - 1
            };
            assert(fewer[k] == notes[k0]);
            assert(fewer[k].id == id);
        }
    }
    assert forall|id: Seq<char>| has_id(fewer, id) implies #[trigger] entries(fewer)[id]
        == entries(notes).remove(gone)[id] by {
        let k = index_of_id(fewer, id);
        let k0 = if k < i {
            k
        } else {
            k + 1
        };
        assert(fewer[k] == notes[k0]);
        let j = index_of_id(notes, id);
        assert(notes[j].id == notes[k0].id);
    }
    assert(entries(fewer) =~= entries(notes).remove(gone));
}

/// The note document: at most one note under each identifier.
#[derive(Debug)]
pub struct StorageData {
    notes: Vec<AppNote>,
}

impl View for StorageData {
    type V = Map<Seq<char>, NoteView>;

    closed spec fn view(&self) -> Map<Seq<char>, NoteView> {
        entries(note_views(self.notes@))
    }
}

impl Default for StorageData {
    /// The empty document.
    fn default() -> (data: StorageData)
        ensures
            data@ == Map::<Seq<char>, NoteView>::empty(),
    {
        StorageData::new()
    }
}

impl StorageData {
    #[verifier::type_invariant]
    spec fn unique(&self) -> bool {
        unique_ids(note_views(self.notes@))
    }

    /// The empty document.
    pub fn new() -> (data: StorageData)
        ensures
            data@ == Map::<Seq<char>, NoteView>::empty(),
    {
        let data = StorageData { notes: Vec::new() };
        assert(data@ =~= Map::<Seq<char>, NoteView>::empty());
        data
    }

    /// The number of notes.
    pub fn len(&self) -> (count: usize)
        ensures
            self@.dom().finite(),
            count == self@.len(),
    {
        proof {
            use_type_invariant(self);
            lemma_entries_len(note_views(self.notes@));
        }
        self.notes.len()
    }

    /// Where the note with the identifier `id` stands, if there is one.
    fn position(&self, id: &str) -> (at: Option<usize>)
        ensures
            match at {
                Some(i) => i < self.notes@.len() && self.notes@[i as int]@.id == id@,
                None => !has_id(note_views(self.notes@), id@),
            },
    {
        let mut i: usize = 0;
        while i < self.notes.len()
            invariant
                i <= self.notes@.len(),
                forall|k: int| 0 <= k < i ==> (#[trigger] note_views(self.notes@)[k]).id != id@,
            decreases self.notes@.len() - i,
        {
            if same_text(self.notes[i].id.as_str(), id) {
                return Some(i);
            }
            i += 1;
        }
        None
    }

    /// A copy of the note under `id`, if there is one.
    pub fn get(&self, id: &str) -> (found: Option<AppNote>)
        ensures
            match found {
                Some(note) => self@.contains_key(id@) && note@ == self@[id@],
                None => !self@.contains_key(id@),
            },
    {
        proof {
            use_type_invariant(self);
        }
        match self.position(id) {
            Some(i) => {
                proof {
                    lemma_entries_at(note_views(self.notes@), i as int);
                }
                Some(self.notes[i].clone())
            },
            None => None,
        }
    }

    /// Puts `note` under its identifier, in place of the note that was there
    /// if there was one.
    pub fn insert(&mut self, note: AppNote)
        ensures
            final(self)@ == old(self)@.insert(note@.id, note@),
    {
        proof {
            use_type_invariant(&*self);
        }
        let ghost before = note_views(self.notes@);
        let at = self.position(note.id.as_str());
        let mut notes: Vec<AppNote> = Vec::new();
        core::mem::swap(&mut self.notes, &mut notes);
        match at {
            Some(i) => {
                proof {
                    lemma_entries_update(before, i as int, note@);
                }
                notes.set(i, note);
                assert(note_views(notes@) =~= before.update(i as int, note@));
            },
            None => {
                proof {
                    lemma_entries_push(before, note@);
                }
                notes.push(note);
                assert(note_views(notes@) =~= before.push(note@));
            },
        }
        self.notes = notes;
    }

    /// Takes away the note under `id`; without such a note nothing changes.
    pub fn remove(&mut self, id: &str)
        ensures
            final(self)@ == old(self)@.remove(id@),
    {
        proof {
            use_type_invariant(&*self);
        }
        let ghost before = note_views(self.notes@);
        match self.position(id) {
            Some(i) => {
                proof {
                    lemma_entries_remove(before, i as int);
                }
                let mut notes: Vec<AppNote> = Vec::new();
                core::mem::swap(&mut self.notes, &mut notes);
                notes.remove(i);
                assert(note_views(notes@) =~= before.remove(i as int));
                self.notes = notes;
            },
            None => {
                assert(self@ =~= self@.remove(id@));
            },
        }
    }

    /// Copies of all the notes, each once.
    pub fn notes(&self) -> (all: Vec<AppNote>)
        ensures
            unique_ids(note_views(all@)),
            entries(note_views(all@)) == self@,
            all@.len() == self@.len(),
    {
        proof {
            use_type_invariant(self);
            lemma_entries_len(note_views(self.notes@));
        }
        let mut all: Vec<AppNote> = Vec::new();
        let mut i: usize = 0;
        while i < self.notes.len()
            invariant
                i <= self.notes@.len(),
                note_views(all@) == note_views(self.notes@).take(i as int),
            decreases self.notes@.len() - i,
        {
            let ghost before = note_views(all@);
            all.push(self.notes[i].clone());
            assert(note_views(all@) =~= before.push(self.notes@[i as int]@));
            assert(note_views(self.notes@).take(i + 1) =~= note_views(self.notes@).take(
                i as int,
            ).push(self.notes@[i as int]@));
            i += 1;
        }
        assert(note_views(self.notes@).take(i as int) =~= note_views(self.notes@));
        all
    }

    /// Puts every note of `other` into this document; where both hold a note
    /// under one identifier, the note of `other` stays. Returns the number of
    /// notes that `other` holds.
    pub fn merge(&mut self, other: &StorageData) -> (count: usize)
        ensures
            final(self)@ == old(self)@.union_prefer_right(other@),
            other@.dom().finite(),
            count == other@.len(),
    {
        proof {
            use_type_invariant(other);
            lemma_entries_len(note_views(other.notes@));
        }
        let ghost start = self@;
        let ghost incoming = note_views(other.notes@);
        let mut i: usize = 0;
        assert(start.union_prefer_right(entries(incoming.take(0))) =~= start);
        while i < other.notes.len()
            invariant
                i <= other.notes@.len(),
                incoming == note_views(other.notes@),
                unique_ids(incoming),
                self@ == start.union_prefer_right(entries(incoming.take(i as int))),
            decreases other.notes@.len() - i,
        {
            proof {
                let done = incoming.take(i as int);
                let next = incoming[i as int];
                assert(incoming.take(i + 1) =~= done.push(next));
                assert(unique_ids(done)) by {
                    assert forall|a: int, b: int|
                        0 <= a < done.len() && 0 <= b < done.len() && a != b implies (
                    #[trigger] done[a]).id != (#[trigger] done[b]).id by {
                        assert(done[a] == incoming[a] && done[b] == incoming[b]);
                    }
                }
                if has_id(done, next.id) {
                    let k = index_of_id(done, next.id);
                    assert(done[k] == incoming[k]);
                }
                lemma_entries_push(done, next);
                vstd::map_lib::lemma_union_insert_right(start, entries(done), next.id, next);
            }
            self.insert(other.notes[i].clone());
            i += 1;
        }
        assert(incoming.take(i as int) =~= incoming);
        other.notes.len()
    }
}

/// Tells whether the text of a document file holds no document: it is empty
/// or whitespace only, and the store is then empty.
pub fn document_is_blank(contents: &str) -> (blank: bool)
    ensures
        blank == all_whitespace(contents@),
{
    is_blank(contents)
}

/// The store: the note document of one data directory.
#[derive(Debug)]
pub struct NoteStorage {
    data_dir: PathBuf,
    data: StorageData,
}

impl View for NoteStorage {
    type V = Map<Seq<char>, NoteView>;

    closed spec fn view(&self) -> Map<Seq<char>, NoteView> {
        self.data@
    }
}

impl NoteStorage {
    /// The data directory of the store.
    pub closed spec fn directory(&self) -> PathBuf {
        self.data_dir
    }

    /// An empty store for the given data directory.
    pub fn new(data_dir: PathBuf) -> (storage: NoteStorage)
        ensures
            storage@ == Map::<Seq<char>, NoteView>::empty(),
            storage.directory() == data_dir,
    {
        NoteStorage { data_dir, data: StorageData::new() }
    }

    /// The store of the given data directory with the document read from it.
    pub fn with_data(data_dir: PathBuf, data: StorageData) -> (storage: NoteStorage)
        ensures
            storage@ == data@,
            storage.directory() == data_dir,
    {
        NoteStorage { data_dir, data }
    }

    /// The data directory.
    pub fn data_dir(&self) -> (dir: &PathBuf)
        ensures
            *dir == self.directory(),
    {
        &self.data_dir
    }

    /// All the notes, each once, in no particular order.
    pub fn load_notes(&self) -> (all: Vec<AppNote>)
        ensures
            unique_ids(note_views(all@)),
            entries(note_views(all@)) == self@,
            all@.len() == self@.len(),
    {
        self.data.notes()
    }

    /// Stores a copy of `note` under its identifier, over the note that was
    /// there if there was one.
    pub fn save_note(&mut self, note: &AppNote)
        ensures
            final(self)@ == old(self)@.insert(note@.id, note@),
            final(self).directory() == old(self).directory(),
    {
        self.data.insert(note.clone());
    }

    /// Removes the note under `note_id`; without such a note nothing changes.
    pub fn delete_note(&mut self, note_id: &str)
        ensures
            final(self)@ == old(self)@.remove(note_id@),
            final(self).directory() == old(self).directory(),
    {
        self.data.remove(note_id);
    }

    /// Stores a copy of `note` under its identifier, as [`Self::save_note`]
    /// does.
    pub fn update_note(&mut self, note: &AppNote)
        ensures
            final(self)@ == old(self)@.insert(note@.id, note@),
            final(self).directory() == old(self).directory(),
    {
        self.save_note(note);
    }

    /// A copy of the note under `note_id`, if there is one.
    pub fn get_note(&self, note_id: &str) -> (found: Option<AppNote>)
        ensures
            match found {
                Some(note) => self@.contains_key(note_id@) && note@ == self@[note_id@],
                None => !self@.contains_key(note_id@),
            },
    {
        self.data.get(note_id)
    }

    /// Empties the store.
    pub fn clear_all_notes(&mut self)
        ensures
            final(self)@ == Map::<Seq<char>, NoteView>::empty(),
            final(self).directory() == old(self).directory(),
    {
        self.data = StorageData::new();
    }

    /// The whole document, as it is.
    pub fn export_notes(&self) -> (document: StorageData)
        ensures
            document@ == self@,
    {
        let mut document = StorageData::new();
        document.merge(&self.data);
        assert(Map::<Seq<char>, NoteView>::empty().union_prefer_right(self@) =~= self@);
        document
    }

    /// Merges `document` into the store; its notes replace the notes stored
    /// under the same identifiers. Returns the number of notes of `document`.
    pub fn import_notes(&mut self, document: &StorageData) -> (count: usize)
        ensures
            final(self)@ == old(self)@.union_prefer_right(document@),
            final(self).directory() == old(self).directory(),
            document@.dom().finite(),
            count == document@.len(),
    {
        self.data.merge(document)
    }

    /// The statistics of the store, given the size of its file.
    pub fn get_stats(&self, file_size_bytes: u64) -> (stats: StorageStats)
        ensures
            self@.dom().finite(),
            stats.total_notes == self@.len(),
            stats.file_size_bytes == file_size_bytes,
            stats.data_directory == self.directory(),
    {
        StorageStats {
            total_notes: self.data.len(),
            file_size_bytes,
            data_directory: clone_path(&self.data_dir),
        }
    }
}

/// Export and import round-trip: what a store exports, imported into an
/// empty store, gives a store with the same notes under the same
/// identifiers, and the import counts every one of them.
pub proof fn lemma_export_import_round_trip(original: Map<Seq<char>, NoteView>)
    ensures
        Map::<Seq<char>, NoteView>::empty().union_prefer_right(original) == original,
        Map::<Seq<char>, NoteView>::empty().union_prefer_right(original).len() == original.len(),
{
    assert(Map::<Seq<char>, NoteView>::empty().union_prefer_right(original) =~= original);
}

/// An import overwrites: afterwards every imported note is stored as it was
/// imported, and every other note is stored as before.
pub proof fn lemma_import_overwrites(
    stored: Map<Seq<char>, NoteView>,
    imported: Map<Seq<char>, NoteView>,
    id: Seq<char>,
)
    ensures
        imported.contains_key(id) ==> stored.union_prefer_right(imported).contains_key(id)
            && stored.union_prefer_right(imported)[id] == imported[id],
        !imported.contains_key(id) && stored.contains_key(id) ==> stored.union_prefer_right(
            imported,
        ).contains_key(id) && stored.union_prefer_right(imported)[id] == stored[id],
        !imported.contains_key(id) && !stored.contains_key(id) ==> !stored.union_prefer_right(
            imported,
        ).contains_key(id),
{
}

/// What a store holds and where.
#[derive(Debug)]
pub struct StorageStats {
    pub total_notes: usize,
    pub file_size_bytes: u64,
    pub data_directory: PathBuf,
}

/// The whole number nearest to `amount / unit`; a tie goes to the even
/// number.
pub open spec fn nearest_quotient(amount: nat, unit: nat) -> nat {
    let quotient = amount / unit;
    let rest = amount % unit;
    if 2 * rest > unit || (2 * rest == unit && quotient % 2 == 1) {
        quotient + 1
    } else {
        quotient
    }
}

/// The distance between neighbouring double-precision numbers at `bytes`:
/// 1 below 2^53, and twice as much with each further bit.
pub open spec fn double_spacing(bytes: nat) -> nat
    decreases bytes,
{
    if bytes < 0x20_0000_0000_0000 {
        1
    } else {
        2 * double_spacing(bytes / 2)
    }
}

/// The size as a double-precision number holds it: `bytes` itself below
/// 2^53, else the nearest number with 53 significant bits; a tie goes to the
/// one whose last bit is 0.
pub open spec fn as_double(bytes: nat) -> nat {
    nearest_quotient(bytes, double_spacing(bytes)) * double_spacing(bytes)
}

/// The number of tenths of `unit` in `size`, rounded to the nearest; a tie
/// goes to the even number.
pub open spec fn rounded_tenths(size: nat, unit: nat) -> nat {
    nearest_quotient(size * 10, unit)
}

/// `size / unit` with one decimal place.
pub open spec fn one_decimal(size: nat, unit: nat) -> Seq<char> {
    let tenths = rounded_tenths(size, unit);
    decimal(tenths / 10) + seq!['.'] + decimal(tenths % 10)
}

/// A size in bytes for a reader. The size is taken as a double-precision
/// number; below 1024 it is shown in whole bytes, else in kilobytes,
/// megabytes or gigabytes (powers of 1024) with one decimal place.
pub open spec fn human_readable(bytes: nat) -> Seq<char> {
    let size = as_double(bytes);
    if size < 1024 {
        decimal(size) + " B"@
    } else if size < 1024 * 1024 {
        one_decimal(size, 1024) + " KB"@
    } else if size < 1024 * 1024 * 1024 {
        one_decimal(size, 1024 * 1024) + " MB"@
    } else {
        one_decimal(size, 1024 * 1024 * 1024) + " GB"@
    }
}

/// A size below 2^53 is its own double-precision number.
pub proof fn lemma_small_sizes_are_exact(bytes: nat)
    requires
        bytes < 0x20_0000_0000_0000,
    ensures
        as_double(bytes) == bytes,
{
    assert(double_spacing(bytes) == 1);
}

/// The whole number nearest to `amount / unit`, a tie going to the even one.
fn nearest(amount: u128, unit: u128) -> (quotient: u128)
    requires
        0 < unit <= 0x4000_0000,
        amount <= 0x1_0000_0000_0000_0000_0000_0000,
    ensures
        quotient == nearest_quotient(amount as nat, unit as nat),
        quotient <= amount + 1,
{
    let quotient: u128 = amount / unit;
    let rest: u128 = amount % unit;
    if 2 * rest > unit || (2 * rest == unit && quotient % 2 == 1) {
        quotient + 1
    } else {
        quotient
    }
}

/// The size as a double-precision number holds it.
fn double_of(bytes: u64) -> (size: u128)
    ensures
        size == as_double(bytes as nat),
        size <= 0x1000_0000_0000_0000_0000,
{
    let mut step: u64 = 1;
    let mut rest: u64 = bytes;
    while rest >= 0x20_0000_0000_0000
        invariant
            1 <= step,
            rest * step <= bytes,
            step == 1 || rest >= 0x10_0000_0000_0000,
            double_spacing(bytes as nat) == step * double_spacing(rest as nat),
        decreases rest,
    {
        proof {
            assert((rest / 2) * (2 * step) <= rest * step) by (nonlinear_arith)
                requires
                    1 <= step,
                    0 <= rest,
            ;
            assert(step < 0x800) by (nonlinear_arith)
                requires
                    rest >= 0x20_0000_0000_0000,
                    rest * step <= bytes,
                    bytes < 0x1_0000_0000_0000_0000,
                    1 <= step,
            ;
            assert(step * (2 * double_spacing((rest / 2) as nat)) == (2 * step) * double_spacing(
                (rest / 2) as nat,
            )) by (nonlinear_arith);
        }
        rest = rest / 2;
        step = step * 2;
    }
    assert(double_spacing(rest as nat) == 1);
    assert(step == double_spacing(bytes as nat)) by (nonlinear_arith)
        requires
            double_spacing(bytes as nat) == step * double_spacing(rest as nat),
            double_spacing(rest as nat) == 1,
    ;
    assert(step < 0x1000) by (nonlinear_arith)
        requires
            rest * step <= bytes,
            bytes < 0x1_0000_0000_0000_0000,
            1 <= step,
            step == 1 || rest >= 0x10_0000_0000_0000,
    ;
    let multiples = nearest(bytes as u128, step as u128);
    assert(multiples * step <= 0x1000_0000_0000_0000_0000) by (nonlinear_arith)
        requires
            0 <= multiples <= 0x1_0000_0000_0000_0000,
            1 <= step < 0x1000,
    ;
    multiples * (step as u128)
}

/// Writes `size / unit` with one decimal place.
fn one_decimal_text(size: u128, unit: u128) -> (text: String)
    requires
        0 < unit <= 0x4000_0000,
        size <= 0x1000_0000_0000_0000_0000,
    ensures
        text@ == one_decimal(size as nat, unit as nat),
{
    let tenths = nearest(size * 10, unit);
    let mut text = decimal_text(tenths / 10);
    text.append(".");
    text.append(decimal_text(tenths % 10).as_str());
    proof {
        reveal_strlit(".");
        assert("."@ =~= seq!['.']);
    }
    text
}

impl StorageStats {
    /// The file size for a reader, as [`human_readable`] defines it.
    pub fn file_size_human_readable(&self) -> (text: String)
        ensures
            text@ == human_readable(self.file_size_bytes as nat),
    {
        let size = double_of(self.file_size_bytes);
        if size < 1024 {
            let mut text = decimal_text(size);
            text.append(" B");
            text
        } else if size < 1024 * 1024 {
            let mut text = one_decimal_text(size, 1024);
            text.append(" KB");
            text
        } else if size < 1024 * 1024 * 1024 {
            let mut text = one_decimal_text(size, 1024 * 1024);
            text.append(" MB");
            text
        } else {
            let mut text = one_decimal_text(size, 1024 * 1024 * 1024);
            text.append(" GB");
            text
        }
    }
}

} // verus!
