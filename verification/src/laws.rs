//! What holds of the service over several requests.

use crate::handlers::{
    bare, create_answer, list_answer, remove_answer, update_answer, update_effect, BodyView,
    ResponseView, Status,
};
use crate::store::{NoteView, StoreView};
use vstd::prelude::*;

verus! {

/// One request to the service, as its handlers see it.
pub enum Request {
    List,
    Create { title: Seq<char>, content: Seq<char> },
    Update { id: u64, title: Option<Seq<char>>, content: Option<Seq<char>> },
    Remove { id: u64 },
}

/// The answer of the service, holding `db`, to the request.
pub open spec fn answer(db: StoreView, request: Request) -> ResponseView {
    match request {
        Request::List => list_answer(db),
        Request::Create { title, content } => create_answer(db, title, content),
        Request::Update { id, title, content } => update_answer(id, db, title, content),
        Request::Remove { id } => remove_answer(id, db),
    }
}

/// The store that the request leaves behind, made on the store `db`.
pub open spec fn effect(db: StoreView, request: Request) -> StoreView {
    match request {
        Request::List => db,
        Request::Create { title, content } => db.create(title, content),
        Request::Update { id, title, content } => update_effect(id, db, title, content),
        Request::Remove { id } => db.delete(id),
    }
}

/// The store after the requests were served in order, starting from `db`.
pub open spec fn run(db: StoreView, requests: Seq<Request>) -> StoreView
    decreases requests.len(),
{
    if requests.len() == 0 {
        db
    } else {
        effect(run(db, requests.drop_last()), requests.last())
    }
}

/// The answer to the request at position `k`, the ones before it served.
pub open spec fn answer_at(db: StoreView, requests: Seq<Request>, k: int) -> ResponseView {
    answer(run(db, requests.take(k)), requests[k])
}

/// How many of the requests create a note.
pub open spec fn creations(requests: Seq<Request>) -> nat
    decreases requests.len(),
{
    if requests.len() == 0 {
        0
    } else if requests.last() is Create {
        creations(requests.drop_last()) + 1
    } else {
        creations(requests.drop_last())
    }
}

/// A longer prefix of the requests creates at least as many notes, and one
/// more for each creation that it adds.
pub proof fn lemma_creations_grow(requests: Seq<Request>, a: int, b: int)
    requires
        0 <= a <= b <= requests.len(),
    ensures
        creations(requests.take(a)) <= creations(requests.take(b)),
        a < b && requests[a] is Create ==> creations(requests.take(a)) < creations(
            requests.take(b),
        ),
    decreases b - a,
{
    if a < b {
        assert(requests.take(a + 1).drop_last() =~= requests.take(a));
        lemma_creations_grow(requests, a + 1, b);
    }
}

/// As long as the counter does not start over, it has advanced by the number
/// of notes created.
pub proof fn lemma_counter_counts_creations(db: StoreView, requests: Seq<Request>)
    requires
        db.next_id + creations(requests) <= u64::MAX,
    ensures
        run(db, requests).next_id == db.next_id + creations(requests),
    decreases requests.len(),
{
    if requests.len() > 0 {
        lemma_counter_counts_creations(db, requests.drop_last());
    }
}

/// Identifiers are handed out in strictly increasing order: of two notes
/// created in a run of requests, the later one has the larger identifier.
/// This holds until the counter starts over, that is as long as the first
/// identifier and the number of notes created come to no more than the
/// identifiers that there are.
pub proof fn lemma_created_ids_increase(db: StoreView, requests: Seq<Request>, i: int, j: int)
    requires
        0 <= i < j < requests.len(),
        requests[i] is Create,
        requests[j] is Create,
        db.next_id + creations(requests) <= u64::MAX + 1,
    ensures
        answer_at(db, requests, i).status == Status::Created,
        answer_at(db, requests, j).status == Status::Created,
        answer_at(db, requests, i).body matches BodyView::Note(first)
            && answer_at(db, requests, j).body matches BodyView::Note(second)
            && first.id < second.id,
{
    lemma_creations_grow(requests, i, j);
    lemma_creations_grow(requests, j, requests.len() as int);
    assert(requests.take(requests.len() as int) =~= requests);
    lemma_counter_counts_creations(db, requests.take(i));
    lemma_counter_counts_creations(db, requests.take(j));
}

/// A note that was just created is listed last, with the identifier it was
/// given and with exactly the texts of the request; the notes before it are
/// those that the store held.
pub proof fn lemma_create_then_list(db: StoreView, title: Seq<char>, content: Seq<char>)
    ensures
        answer(db, Request::Create { title, content }) == (ResponseView {
            status: Status::Created,
            body: BodyView::Note(NoteView { id: db.next_id, title, content }),
        }),
        answer(effect(db, Request::Create { title, content }), Request::List) == (ResponseView {
            status: Status::Success,
            body: BodyView::Notes(db.notes.push(NoteView { id: db.next_id, title, content })),
        }),
{
}

/// An update that supplies a title and no content puts the title in place of
/// that of the first note with the identifier and changes nothing else: the
/// notes are then listed as before, but for the new title of that one note,
/// which keeps its content.
pub proof fn lemma_update_title_keeps_content(db: StoreView, id: u64, title: Seq<char>)
    requires
        db.contains(id),
    ensures
        0 <= db.position(id) < db.notes.len(),
        db.notes[db.position(id)].id == id,
        answer(db, Request::Update { id, title: Some(title), content: None }) == bare(
            Status::NoContent,
        ),
        answer(
            effect(db, Request::Update { id, title: Some(title), content: None }),
            Request::List,
        ) == (ResponseView {
            status: Status::Success,
            body: BodyView::Notes(
                db.notes.update(
                    db.position(id),
                    NoteView { id, title, content: db.notes[db.position(id)].content },
                ),
            ),
        }),
{
    db.lemma_position(id);
}

/// Where no two notes share an identifier, removing a note that the store
/// holds takes out that note and no other, and removing it once more fails
/// and changes nothing.
pub proof fn lemma_remove_twice(db: StoreView, id: u64)
    requires
        db.ids_distinct(),
        db.contains(id),
    ensures
        answer(db, Request::Remove { id }) == bare(Status::NoContent),
        ({
            let after = effect(db, Request::Remove { id });
            &&& after.notes == db.notes.remove(db.position(id))
            &&& after.notes.len() == db.notes.len() - 1
            &&& after.next_id == db.next_id
            &&& !after.contains(id)
            &&& answer(after, Request::Remove { id }) == bare(Status::NotFound)
            &&& effect(after, Request::Remove { id }) == after
        }),
{
    db.lemma_delete_one(id);
    db.lemma_delete_contains(id, id);
    db.delete(id).lemma_delete_absent(id);
}

/// After a removal the store holds no note with the identifier, whatever it
/// held before.
pub proof fn lemma_removed_is_absent(db: StoreView, id: u64)
    ensures
        !effect(db, Request::Remove { id }).contains(id),
        answer(effect(db, Request::Remove { id }), Request::Remove { id }) == bare(
            Status::NotFound,
        ),
{
    db.lemma_delete_contains(id, id);
}

/// A request to change or to remove a note that the store does not hold
/// is answered with "not found" and changes nothing, provided that the change
/// supplies at least one text.
pub proof fn lemma_absent_not_found(
    db: StoreView,
    id: u64,
    title: Option<Seq<char>>,
    content: Option<Seq<char>>,
)
    requires
        !db.contains(id),
    ensures
        answer(db, Request::Remove { id }) == bare(Status::NotFound),
        effect(db, Request::Remove { id }) == db,
        title is Some || content is Some ==> answer(db, Request::Update { id, title, content })
            == bare(Status::NotFound),
        effect(db, Request::Update { id, title, content }) == db,
{
    db.lemma_delete_absent(id);
}

/// An update that supplies neither text is refused as unprocessable and
/// changes nothing, whether or not the store holds the note.
pub proof fn lemma_empty_update_refused(db: StoreView, id: u64)
    ensures
        answer(db, Request::Update { id, title: None, content: None }) == bare(
            Status::UnprocessableEntity,
        ),
        effect(db, Request::Update { id, title: None, content: None }) == db,
{
}

/// Every request keeps the store well formed, as long as the counter does not
/// start over.
pub proof fn lemma_effect_wf(db: StoreView, request: Request)
    requires
        db.wf(),
        request is Create ==> db.next_id < u64::MAX,
    ensures
        effect(db, request).wf(),
{
    match request {
        Request::List => {},
        Request::Create { title, content } => {
            db.lemma_create_wf(title, content);
        },
        Request::Update { id, title, content } => {
            db.lemma_update_wf(id, title, content);
        },
        Request::Remove { id } => {
            db.lemma_delete_wf(id);
        },
    }
}

/// The store stays well formed over a run of requests: no two notes ever
/// share an identifier, and no note has an identifier that is still to be
/// given out. This holds as long as the counter does not start over.
pub proof fn lemma_run_wf(db: StoreView, requests: Seq<Request>)
    requires
        db.wf(),
        db.next_id + creations(requests) <= u64::MAX,
    ensures
        run(db, requests).wf(),
    decreases requests.len(),
{
    if requests.len() > 0 {
        let before = requests.drop_last();
        lemma_run_wf(db, before);
        lemma_counter_counts_creations(db, before);
        lemma_effect_wf(run(db, before), requests.last());
    }
}

/// In a service that started empty, removing a note that the store holds
/// takes out that note and no other, and removing it once more fails. This
/// holds as long as the counter has not started over.
pub proof fn lemma_remove_takes_one(requests: Seq<Request>, id: u64)
    requires
        1 + creations(requests) <= u64::MAX,
        run(StoreView::empty(), requests).contains(id),
    ensures
        ({
            let db = run(StoreView::empty(), requests);
            let after = effect(db, Request::Remove { id });
            &&& answer(db, Request::Remove { id }) == bare(Status::NoContent)
            &&& after.notes == db.notes.remove(db.position(id))
            &&& after.notes.len() == db.notes.len() - 1
            &&& answer(after, Request::Remove { id }) == bare(Status::NotFound)
        }),
{
    lemma_run_wf(StoreView::empty(), requests);
    lemma_remove_twice(run(StoreView::empty(), requests), id);
}

/// Whether the request at position `k` created a note with identifier `id`.
pub open spec fn created_at(db: StoreView, requests: Seq<Request>, k: int, id: u64) -> bool {
    &&& 0 <= k < requests.len()
    &&& requests[k] is Create
    &&& answer_at(db, requests, k).body matches BodyView::Note(note) && note.id == id
}

/// Whether one of the requests created a note with identifier `id`.
pub open spec fn was_created(db: StoreView, requests: Seq<Request>, id: u64) -> bool {
    exists|k: int| created_at(db, requests, k, id)
}

/// A note that the store holds after a run of requests was there at the
/// start or was created by one of the requests.
pub proof fn lemma_stored_was_created(db: StoreView, requests: Seq<Request>, id: u64)
    requires
        run(db, requests).contains(id),
    ensures
        db.contains(id) || was_created(db, requests, id),
    decreases requests.len(),
{
    if requests.len() > 0 {
        let before = requests.drop_last();
        let mid = run(db, before);
        let n = requests.len() - 1;
        let after = run(db, requests);
        assert(requests.take(n) =~= before);
        let held_before = match requests.last() {
            Request::List => true,
            Request::Create { title, content } => {
                let i = choose|i: int| 0 <= i < after.notes.len() && after.notes[i].id == id;
                if i < mid.notes.len() {
                    assert(mid.notes[i].id == id);
                    true
                } else {
                    assert(created_at(db, requests, n, id));
                    false
                }
            },
            Request::Update { id: target, title, content } => {
                if mid.contains(target) {
                    mid.lemma_position(target);
                }
                let i = choose|i: int| 0 <= i < after.notes.len() && after.notes[i].id == id;
                assert(mid.notes[i].id == id);
                true
            },
            Request::Remove { id: target } => {
                mid.lemma_delete_contains(target, id);
                true
            },
        };
        if held_before {
            lemma_stored_was_created(db, before, id);
            if !db.contains(id) {
                let k = choose|k: int| created_at(db, before, k, id);
                assert(before.take(k) =~= requests.take(k));
                assert(created_at(db, requests, k, id));
            }
        }
    }
}

/// A request to change or to remove a note under an identifier that no
/// request has created is answered with "not found" and changes nothing,
/// provided that the change supplies at least one text. The run starts from
/// the empty store.
pub proof fn lemma_never_created_not_found(
    requests: Seq<Request>,
    id: u64,
    title: Option<Seq<char>>,
    content: Option<Seq<char>>,
)
    requires
        !was_created(StoreView::empty(), requests, id),
    ensures
        ({
            let db = run(StoreView::empty(), requests);
            &&& answer(db, Request::Remove { id }) == bare(Status::NotFound)
            &&& effect(db, Request::Remove { id }) == db
            &&& title is Some || content is Some ==> answer(
                db,
                Request::Update { id, title, content },
            ) == bare(Status::NotFound)
            &&& effect(db, Request::Update { id, title, content }) == db
        }),
{
    let db = run(StoreView::empty(), requests);
    if db.contains(id) {
        lemma_stored_was_created(StoreView::empty(), requests, id);
    }
    lemma_absent_not_found(db, id, title, content);
}

} // verus!
