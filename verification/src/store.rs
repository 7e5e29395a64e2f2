//! The note store: an ordered collection of notes and the counter from which
//! their identifiers are drawn.

use crate::note_id::NoteId;
use vstd::prelude::*;

verus! {

/// A stored note.
#[derive(Clone, Debug, PartialEq, Eq)]
pub struct Note {
    pub id: NoteId,
    pub title: String,
    pub content: String,
}

/// What a note is, mathematically: its identifier and its two texts.
pub struct NoteView {
    pub id: u64,
    pub title: Seq<char>,
    pub content: Seq<char>,
}

impl View for Note {
    type V = NoteView;

    open spec fn view(&self) -> NoteView {
        NoteView { id: self.id.0, title: self.title@, content: self.content@ }
    }
}

/// The views of a sequence of notes, in the same order.
pub open spec fn note_views(notes: Seq<Note>) -> Seq<NoteView> {
    Seq::new(notes.len(), |i: int| notes[i]@)
}

/// The text that an optional string holds, if it holds one.
pub open spec fn text_view(text: Option<String>) -> Option<Seq<char>> {
    match text {
        Some(t) => Some(t@),
        None => None,
    }
}

/// The predicate that holds of every note but those with identifier `id`.
pub open spec fn has_other_id(id: u64) -> spec_fn(NoteView) -> bool {
    |note: NoteView| note.id != id
}

/// What a store is, mathematically: its notes in insertion order and the
/// identifier that the next created note will get.
pub struct StoreView {
    pub notes: Seq<NoteView>,
    pub next_id: u64,
}

impl StoreView {
    /// The store that a process starts with: no notes, and 1 as the first
    /// identifier.
    pub open spec fn empty() -> StoreView {
        StoreView { notes: Seq::empty(), next_id: 1 }
    }

    /// Whether some note of the store has identifier `id`.
    pub open spec fn contains(self, id: u64) -> bool {
        exists|i: int| 0 <= i < self.notes.len() && (#[trigger] self.notes[i]).id == id
    }

    /// Whether `i` is the position of the first note with identifier `id`.
    pub open spec fn is_first(self, id: u64, i: int) -> bool {
        &&& 0 <= i < self.notes.len()
        &&& self.notes[i].id == id
        &&& forall|j: int| 0 <= j < i ==> (#[trigger] self.notes[j]).id != id
    }

    /// The position of the first note with identifier `id`, where the store
    /// contains one.
    pub open spec fn position(self, id: u64) -> int {
        choose|i: int| self.is_first(id, i)
    }

    /// Whether no two notes share an identifier.
    pub open spec fn ids_distinct(self) -> bool {
        forall|i: int, j: int|
            0 <= i < j < self.notes.len() ==> (#[trigger] self.notes[i]).id != (
            #[trigger] self.notes[j]).id
    }

    /// No two notes share an identifier, and every identifier in use lies
    /// below the counter.
    pub open spec fn wf(self) -> bool {
        &&& self.ids_distinct()
        &&& forall|i: int|
            0 <= i < self.notes.len() ==> (#[trigger] self.notes[i]).id < self.next_id
    }

    /// The store without its last note.
    pub open spec fn without_last(self) -> StoreView {
        StoreView { notes: self.notes.drop_last(), next_id: self.next_id }
    }

    /// The note that `create` makes from the two texts.
    pub open spec fn created(self, title: Seq<char>, content: Seq<char>) -> NoteView {
        NoteView { id: self.next_id, title, content }
    }

    /// The store after a note with the two texts was created: the note stands
    /// last, and the counter has advanced by one, from the largest value of
    /// its type back to zero.
    pub open spec fn create(self, title: Seq<char>, content: Seq<char>) -> StoreView {
        StoreView {
            notes: self.notes.push(self.created(title, content)),
            next_id: if self.next_id == u64::MAX {
                0
            } else {
                (self.next_id + 1) as u64
            },
        }
    }

    /// The note `note` with the supplied texts put in place of its own.
    pub open spec fn patched(
        note: NoteView,
        title: Option<Seq<char>>,
        content: Option<Seq<char>>,
    ) -> NoteView {
        NoteView {
            id: note.id,
            title: match title {
                Some(t) => t,
                None => note.title,
            },
            content: match content {
                Some(c) => c,
                None => note.content,
            },
        }
    }

    /// The store after an update of the note with identifier `id`: the first
    /// such note takes the supplied texts, and nothing else changes. A store
    /// without such a note stays as it is.
    pub open spec fn update(
        self,
        id: u64,
        title: Option<Seq<char>>,
        content: Option<Seq<char>>,
    ) -> StoreView {
        if self.contains(id) {
            let i = self.position(id);
            StoreView {
                notes: self.notes.update(i, Self::patched(self.notes[i], title, content)),
                next_id: self.next_id,
            }
        } else {
            self
        }
    }

    /// The store after the notes with identifier `id` were removed: the
    /// others stay, in their order, and the counter is untouched.
    pub open spec fn delete(self, id: u64) -> StoreView {
        StoreView { notes: self.notes.filter(has_other_id(id)), next_id: self.next_id }
    }
}

impl StoreView {
    /// Only one position is that of the first note with identifier `id`.
    pub proof fn lemma_first_is_position(self, id: u64, i: int)
        requires
            self.is_first(id, i),
        ensures
            self.contains(id),
            self.position(id) == i,
    {
        let p = self.position(id);
        assert(self.is_first(id, p));
        if p < i {
            assert(self.notes[p].id != id);
        } else if i < p {
            assert(self.notes[i].id != id);
        }
    }

    /// Where a note at `bound` has identifier `id`, some note is the first
    /// with it.
    proof fn lemma_first_exists(self, id: u64, bound: int)
        requires
            0 <= bound < self.notes.len(),
            self.notes[bound].id == id,
        ensures
            exists|i: int| self.is_first(id, i),
        decreases bound,
    {
        if forall|j: int| 0 <= j < bound ==> (#[trigger] self.notes[j]).id != id {
            assert(self.is_first(id, bound));
        } else {
            let j = choose|j: int| 0 <= j < bound && (#[trigger] self.notes[j]).id == id;
            self.lemma_first_exists(id, j);
        }
    }

    /// In a store that contains `id`, its position is that of the first note
    /// with it.
    pub proof fn lemma_position(self, id: u64)
        requires
            self.contains(id),
        ensures
            self.is_first(id, self.position(id)),
    {
        let i = choose|i: int| 0 <= i < self.notes.len() && (#[trigger] self.notes[i]).id == id;
        self.lemma_first_exists(id, i);
    }

    /// After the removal of the notes with identifier `id`, the store
    /// contains exactly the other identifiers that it contained before.
    pub proof fn lemma_delete_contains(self, id: u64, other: u64)
        ensures
            self.delete(id).contains(other) <==> self.contains(other) && other != id,
        decreases self.notes.len(),
    {
        reveal(Seq::filter);
        if self.notes.len() > 0 {
            let rest = self.without_last();
            let last = self.notes.last();
            rest.lemma_delete_contains(id, other);
            let kept = rest.delete(id).notes;
            let all = self.delete(id).notes;
            if self.delete(id).contains(other) {
                let i = choose|i: int| 0 <= i < all.len() && all[i].id == other;
                if i < kept.len() {
                    assert(kept[i].id == other);
                    let j = choose|j: int| 0 <= j < rest.notes.len() && rest.notes[j].id == other;
                    assert(self.notes[j].id == other);
                } else {
                    assert(self.notes[self.notes.len() - 1].id == other);
                }
            }
            if self.contains(other) && other != id {
                let j = choose|j: int| 0 <= j < self.notes.len() && self.notes[j].id == other;
                if j < rest.notes.len() {
                    assert(rest.notes[j].id == other);
                    let i = choose|i: int| 0 <= i < kept.len() && kept[i].id == other;
                    assert(all[i].id == other);
                } else {
                    assert(all[all.len() - 1].id == other);
                }
            }
        }
    }

    /// Removing the notes with identifier `id` shortens the store exactly
    /// where it contains such a note.
    pub proof fn lemma_delete_shortens(self, id: u64)
        ensures
            self.delete(id).notes.len() <= self.notes.len(),
            self.delete(id).notes.len() < self.notes.len() <==> self.contains(id),
        decreases self.notes.len(),
    {
        reveal(Seq::filter);
        if self.notes.len() > 0 {
            let rest = self.without_last();
            rest.lemma_delete_shortens(id);
            if rest.contains(id) {
                let i = choose|i: int| 0 <= i < rest.notes.len() && rest.notes[i].id == id;
                assert(self.notes[i].id == id);
            }
            if self.contains(id) && !rest.contains(id) {
                let i = choose|i: int| 0 <= i < self.notes.len() && self.notes[i].id == id;
                if i < self.notes.len() - 1 {
                    assert(rest.notes[i].id == id);
                }
            }
        }
    }

    /// Removing an identifier that the store does not contain changes
    /// nothing.
    pub proof fn lemma_delete_absent(self, id: u64)
        requires
            !self.contains(id),
        ensures
            self.delete(id) == self,
        decreases self.notes.len(),
    {
        reveal(Seq::filter);
        if self.notes.len() > 0 {
            let rest = self.without_last();
            assert(self.notes[self.notes.len() - 1].id != id);
            assert forall|i: int| 0 <= i < rest.notes.len() implies (#[trigger] rest.notes[i]).id
                != id by {
                assert(self.notes[i].id != id);
            }
            rest.lemma_delete_absent(id);
            assert(rest.notes.push(self.notes.last()) =~= self.notes);
        } else {
            assert(self.delete(id).notes =~= self.notes);
        }
    }

    /// Where no two notes share an identifier, removing an identifier that
    /// the store contains takes out one note: the one at its position.
    pub proof fn lemma_delete_one(self, id: u64)
        requires
            self.ids_distinct(),
            self.contains(id),
        ensures
            self.delete(id).notes == self.notes.remove(self.position(id)),
            self.delete(id).notes.len() == self.notes.len() - 1,
        decreases self.notes.len(),
    {
        reveal(Seq::filter);
        let rest = self.without_last();
        let last = self.notes.last();
        let n = self.notes.len() - 1;
        if last.id == id {
            assert forall|i: int| 0 <= i < rest.notes.len() implies (#[trigger] rest.notes[i]).id
                != id by {
                assert(self.notes[i].id != self.notes[n].id);
            }
            rest.lemma_delete_absent(id);
            assert(self.is_first(id, n)) by {
                assert forall|j: int| 0 <= j < n implies (#[trigger] self.notes[j]).id != id by {
                    assert(rest.notes[j].id != id);
                }
            }
            self.lemma_first_is_position(id, n);
            assert(self.notes.remove(n) =~= rest.notes);
        } else {
            let i = choose|i: int| 0 <= i < self.notes.len() && self.notes[i].id == id;
            assert(rest.notes[i].id == id);
            assert(rest.ids_distinct()) by {
                assert forall|a: int, b: int| 0 <= a < b < rest.notes.len() implies (
                #[trigger] rest.notes[a]).id != (#[trigger] rest.notes[b]).id by {
                    assert(self.notes[a].id != self.notes[b].id);
                }
            }
            rest.lemma_delete_one(id);
            let p = rest.position(id);
            rest.lemma_position(id);
            assert(self.is_first(id, p)) by {
                assert(self.notes[p] == rest.notes[p]);
                assert forall|j: int| 0 <= j < p implies (#[trigger] self.notes[j]).id != id by {
                    assert(rest.notes[j].id != id);
                }
            }
            self.lemma_first_is_position(id, p);
            assert(rest.notes.remove(p).push(last) =~= self.notes.remove(p));
        }
    }

    /// Creating a note keeps the store well formed as long as the counter
    /// does not start over.
    pub proof fn lemma_create_wf(self, title: Seq<char>, content: Seq<char>)
        requires
            self.wf(),
            self.next_id < u64::MAX,
        ensures
            self.create(title, content).wf(),
    {
    }

    /// Updating a note keeps the store well formed, and changes no
    /// identifier.
    pub proof fn lemma_update_wf(self, id: u64, title: Option<Seq<char>>, content: Option<Seq<char>>)
        requires
            self.wf(),
        ensures
            self.update(id, title, content).wf(),
    {
        if self.contains(id) {
            self.lemma_position(id);
        }
    }

    /// Removing notes keeps the store well formed.
    pub proof fn lemma_delete_wf(self, id: u64)
        requires
            self.wf(),
        ensures
            self.delete(id).wf(),
        decreases self.notes.len(),
    {
        reveal(Seq::filter);
        if self.notes.len() > 0 {
            let rest = self.without_last();
            let last = self.notes.last();
            let n = self.notes.len() - 1;
            assert(rest.wf()) by {
                assert forall|a: int, b: int| 0 <= a < b < rest.notes.len() implies (
                #[trigger] rest.notes[a]).id != (#[trigger] rest.notes[b]).id by {
                    assert(self.notes[a].id != self.notes[b].id);
                }
                assert forall|a: int| 0 <= a < rest.notes.len() implies (
                #[trigger] rest.notes[a]).id < rest.next_id by {
                    assert(self.notes[a].id < self.next_id);
                }
            }
            rest.lemma_delete_wf(id);
            assert(self.notes[n].id < self.next_id);
            if last.id != id {
                let kept = rest.delete(id).notes;
                assert forall|a: int| 0 <= a < kept.len() implies (#[trigger] kept[a]).id
                    != last.id by {
                    rest.lemma_delete_contains(id, kept[a].id);
                    let b = choose|b: int|
                        0 <= b < rest.notes.len() && rest.notes[b].id == kept[a].id;
                    assert(self.notes[b].id != self.notes[n].id);
                }
            }
        }
    }
}

/// The error of an operation on a note that the store does not hold.
#[derive(Clone, Copy, Debug, PartialEq, Eq, Structural)]
pub struct NotFound;

/// The collection of all notes, with the counter that numbers them.
pub struct NoteStore {
    notes: Vec<Note>,
    next_id: u64,
}

impl View for NoteStore {
    type V = StoreView;

    closed spec fn view(&self) -> StoreView {
        StoreView { notes: note_views(self.notes@), next_id: self.next_id }
    }
}

impl NoteStore {
    /// A store without notes whose first note will get the identifier 1.
    pub fn new() -> (store: NoteStore)
        ensures
            store@ == StoreView::empty(),
            store@.wf(),
    {
        let store = NoteStore { notes: Vec::new(), next_id: 1 };
        assert(store@.notes =~= Seq::empty());
        store
    }

    /// A copy of every note, in insertion order.
    pub fn list(&self) -> (notes: Vec<Note>)
        ensures
            note_views(notes@) == self@.notes,
    {
        let mut notes: Vec<Note> = Vec::new();
        let mut i: usize = 0;
        while i < self.notes.len()
            invariant
                i <= self.notes.len(),
                notes@.len() == i,
                forall|k: int| 0 <= k < i ==> (#[trigger] notes@[k])@ == self.notes@[k]@,
            decreases self.notes.len() - i,
        {
            let note = &self.notes[i];
            notes.push(Note { id: note.id, title: note.title.clone(), content: note.content.clone() });
            i += 1;
        }
        assert(note_views(notes@) =~= self@.notes);
        notes
    }

    /// Stores a new note with the two texts under the next identifier and
    /// returns a copy of it.
    pub fn create(&mut self, title: String, content: String) -> (note: Note)
        ensures
            final(self)@ == old(self)@.create(title@, content@),
            note@ == old(self)@.created(title@, content@),
            old(self)@.wf() && old(self)@.next_id < u64::MAX ==> final(self)@.wf(),
    {
        proof {
            if old(self)@.wf() && old(self)@.next_id < u64::MAX {
                old(self)@.lemma_create_wf(title@, content@);
            }
        }
        let id = NoteId(self.next_id);
        self.next_id = self.next_id.wrapping_add(1);
        let stored = Note { id, title: title.clone(), content: content.clone() };
        self.notes.push(stored);
        assert(self@.notes =~= old(self)@.notes.push(stored@));
        Note { id, title, content }
    }

    /// Puts the supplied texts in place of those of the first note with
    /// identifier `id`. A text that is not supplied leaves the note's own in
    /// place. Fails, and changes nothing, where the store holds no such note.
    pub fn update(&mut self, id: NoteId, title: Option<String>, content: Option<String>) -> (r:
        Result<(), NotFound>)
        ensures
            r.is_ok() <==> old(self)@.contains(id.0),
            final(self)@ == old(self)@.update(id.0, text_view(title), text_view(content)),
            old(self)@.wf() ==> final(self)@.wf(),
    {
        proof {
            if old(self)@.wf() {
                old(self)@.lemma_update_wf(id.0, text_view(title), text_view(content));
            }
        }
        let mut i: usize = 0;
        while i < self.notes.len() && self.notes[i].id.0 != id.0
            invariant
                i <= self.notes.len(),
                forall|k: int| 0 <= k < i ==> (#[trigger] self.notes@[k]).id.0 != id.0,
            decreases self.notes.len() - i,
        {
            i += 1;
        }
        if i == self.notes.len() {
            return Err(NotFound);
        }
        assert(self@.is_first(id.0, i as int));
        proof {
            self@.lemma_first_is_position(id.0, i as int);
        }
        if let Some(new_title) = title {
            self.notes[i].title = new_title;
        }
        if let Some(new_content) = content {
            self.notes[i].content = new_content;
        }
        assert(self@.notes =~= old(self)@.update(
            id.0,
            text_view(title),
            text_view(content),
        ).notes);
        Ok(())
    }

    /// Removes the notes with identifier `id`; the others keep their order.
    /// Fails, and changes nothing, where the store holds no such note.
    pub fn delete(&mut self, id: NoteId) -> (r: Result<(), NotFound>)
        ensures
            r.is_ok() <==> old(self)@.contains(id.0),
            final(self)@ == old(self)@.delete(id.0),
            old(self)@.wf() ==> final(self)@.wf(),
    {
        proof {
            if old(self)@.wf() {
                old(self)@.lemma_delete_wf(id.0);
            }
        }
        let ghost before = old(self)@.notes;
        let ghost keep = has_other_id(id.0);
        let old_len = self.notes.len();
        let mut i: usize = 0;
        let mut seen: usize = 0;
        assert(before.take(0).filter(keep) =~= Seq::empty()) by {
            reveal(Seq::filter);
        }
        assert(self@.notes =~= before.take(0).filter(keep) + before.skip(0));
        while seen < old_len
            invariant
                seen <= old_len == before.len(),
                self.next_id == old(self).next_id,
                keep == has_other_id(id.0),
                i == before.take(seen as int).filter(keep).len(),
                self@.notes == before.take(seen as int).filter(keep) + before.skip(seen as int),
            decreases old_len - seen,
        {
            let ghost kept = before.take(seen as int).filter(keep);
            let ghost current = self@.notes;
            assert(current.len() == self.notes@.len());
            assert(current.len() == kept.len() + before.skip(seen as int).len());
            assert(current[i as int] == before[seen as int]);
            assert(before.take(seen + 1) =~= before.take(seen as int).push(before[seen as int]));
            proof {
                before.take(seen as int).lemma_filter_push(before[seen as int], keep);
            }
            if self.notes[i].id.0 == id.0 {
                let ghost stored = self.notes@;
                self.notes.remove(i);
                assert forall|k: int| 0 <= k < self@.notes.len() implies self@.notes[k] == (kept
                    + before.skip(seen + 1))[k] by {
                    if k < i {
                        assert(current[k] == stored[k]@);
                    } else {
                        assert(current[k + 1] == stored[k + 1]@);
                    }
                }
                assert(self@.notes =~= kept + before.skip(seen + 1));
            } else {
                assert(self@.notes =~= kept.push(before[seen as int]) + before.skip(seen + 1));
                i += 1;
            }
            seen += 1;
        }
        assert(before.take(seen as int) =~= before);
        assert(self@.notes =~= before.filter(keep));
        proof {
            old(self)@.lemma_delete_shortens(id.0);
        }
        if self.notes.len() != old_len {
            Ok(())
        } else {
            Err(NotFound)
        }
    }
}

} // verus!
