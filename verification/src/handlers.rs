//! The request handlers: each performs one operation on the store and says
//! with which status and body the service answers.

use crate::note_id::NoteId;
use crate::store::{text_view, NoteStore, NoteView, StoreView};
use vstd::prelude::*;

verus! {

/// The largest request body, in bytes, that the service reads.
pub const MAX_BODY_BYTES: u64 = 16384;

/// The status of an answer.
#[derive(Clone, Copy, Debug, PartialEq, Eq, Structural)]
pub enum Status {
    Success,
    Created,
    NoContent,
    NotFound,
    UnprocessableEntity,
}

impl Status {
    /// The number of the status.
    pub open spec fn number(self) -> u16 {
        match self {
            Status::Success => 200,
            Status::Created => 201,
            Status::NoContent => 204,
            Status::NotFound => 404,
            Status::UnprocessableEntity => 422,
        }
    }

    /// The number of the status.
    pub fn code(&self) -> (code: u16)
        ensures
            code == self.number(),
    {
        match self {
            Status::Success => 200,
            Status::Created => 201,
            Status::NoContent => 204,
            Status::NotFound => 404,
            Status::UnprocessableEntity => 422,
        }
    }
}

/// A note as the service shows it.
#[derive(Clone, Debug, PartialEq, Eq)]
pub struct NoteResponse {
    pub id: NoteId,
    pub title: String,
    pub content: String,
}

impl View for NoteResponse {
    type V = NoteView;

    open spec fn view(&self) -> NoteView {
        NoteView { id: self.id.0, title: self.title@, content: self.content@ }
    }
}

/// The notes of the store as the service shows them.
#[derive(Clone, Debug, PartialEq, Eq)]
pub struct NotesResponse(pub Vec<NoteResponse>);

impl View for NotesResponse {
    type V = Seq<NoteView>;

    open spec fn view(&self) -> Seq<NoteView> {
        Seq::new(self.0@.len(), |i: int| self.0@[i]@)
    }
}

/// The request to create a note.
#[derive(Clone, Debug, PartialEq, Eq)]
pub struct CreateNoteRequest {
    pub title: String,
    /// Empty where the request named no content.
    pub content: String,
}

/// The request to change a note. A text that is absent is to stay as it is.
#[derive(Clone, Debug, PartialEq, Eq)]
pub struct UpdateNoteRequest {
    pub title: Option<String>,
    pub content: Option<String>,
}

/// What an answer carries besides its status.
#[derive(Clone, Debug, PartialEq, Eq)]
pub enum Body {
    Empty,
    Note(NoteResponse),
    Notes(NotesResponse),
}

/// What a body is, mathematically.
pub enum BodyView {
    Empty,
    Note(NoteView),
    Notes(Seq<NoteView>),
}

impl View for Body {
    type V = BodyView;

    open spec fn view(&self) -> BodyView {
        match self {
            Body::Empty => BodyView::Empty,
            Body::Note(note) => BodyView::Note(note@),
            Body::Notes(notes) => BodyView::Notes(notes@),
        }
    }
}

/// The answer to a request.
#[derive(Clone, Debug, PartialEq, Eq)]
pub struct Response {
    pub status: Status,
    pub body: Body,
}

/// What an answer is, mathematically.
pub struct ResponseView {
    pub status: Status,
    pub body: BodyView,
}

impl View for Response {
    type V = ResponseView;

    open spec fn view(&self) -> ResponseView {
        ResponseView { status: self.status, body: self.body@ }
    }
}

/// The answer with the given status and no body.
pub open spec fn bare(status: Status) -> ResponseView {
    ResponseView { status, body: BodyView::Empty }
}

/// The answer to a request for all notes: they are shown in insertion order.
pub open spec fn list_answer(db: StoreView) -> ResponseView {
    ResponseView { status: Status::Success, body: BodyView::Notes(db.notes) }
}

/// The answer to a request to create a note: the new note is shown.
pub open spec fn create_answer(db: StoreView, title: Seq<char>, content: Seq<char>) -> ResponseView {
    ResponseView { status: Status::Created, body: BodyView::Note(db.created(title, content)) }
}

/// The answer to a request to change the note with identifier `id`. A request
/// that supplies neither text is refused, whatever the store holds.
pub open spec fn update_answer(
    id: u64,
    db: StoreView,
    title: Option<Seq<char>>,
    content: Option<Seq<char>>,
) -> ResponseView {
    if title is None && content is None {
        bare(Status::UnprocessableEntity)
    } else if db.contains(id) {
        bare(Status::NoContent)
    } else {
        bare(Status::NotFound)
    }
}

/// The store after a request to change the note with identifier `id`. A
/// request that supplies neither text does not reach the store.
pub open spec fn update_effect(
    id: u64,
    db: StoreView,
    title: Option<Seq<char>>,
    content: Option<Seq<char>>,
) -> StoreView {
    if title is None && content is None {
        db
    } else {
        db.update(id, title, content)
    }
}

/// The answer to a request to remove the note with identifier `id`.
pub open spec fn remove_answer(id: u64, db: StoreView) -> ResponseView {
    if db.contains(id) {
        bare(Status::NoContent)
    } else {
        bare(Status::NotFound)
    }
}

/// Shows every note of the store, in insertion order.
pub fn list_notes(db: &NoteStore) -> (response: Response)
    ensures
        response@ == list_answer(db@),
{
    let stored = db.list();
    let mut notes: Vec<NoteResponse> = Vec::new();
    for note in it: stored
        invariant
            notes@.len() == it.index(),
            forall|k: int| 0 <= k < notes@.len() ==> (#[trigger] notes@[k])@ == it.seq()[k]@,
    {
        notes.push(NoteResponse { id: note.id, title: note.title, content: note.content });
    }
    let shown = NotesResponse(notes);
    assert(shown@ =~= db@.notes);
    Response { status: Status::Success, body: Body::Notes(shown) }
}

/// Creates a note from the request and shows it. The note gets the store's
/// next identifier and stands last in the store.
pub fn create_note(db: &mut NoteStore, req: CreateNoteRequest) -> (response: Response)
    ensures
        final(db)@ == old(db)@.create(req.title@, req.content@),
        response@ == create_answer(old(db)@, req.title@, req.content@),
        old(db)@.wf() && old(db)@.next_id < u64::MAX ==> final(db)@.wf(),
{
    let note = db.create(req.title, req.content);
    let shown = NoteResponse { id: note.id, title: note.title, content: note.content };
    Response { status: Status::Created, body: Body::Note(shown) }
}

/// Changes the note with identifier `id` as the request says. A request that
/// supplies neither text is refused before the store is looked at.
pub fn update_note(id: NoteId, db: &mut NoteStore, req: UpdateNoteRequest) -> (response: Response)
    ensures
        final(db)@ == update_effect(id.0, old(db)@, text_view(req.title), text_view(req.content)),
        response@ == update_answer(id.0, old(db)@, text_view(req.title), text_view(req.content)),
        old(db)@.wf() ==> final(db)@.wf(),
{
    if req.title.is_none() && req.content.is_none() {
        return Response { status: Status::UnprocessableEntity, body: Body::Empty };
    }
    match db.update(id, req.title, req.content) {
        Ok(()) => Response { status: Status::NoContent, body: Body::Empty },
        Err(_) => Response { status: Status::NotFound, body: Body::Empty },
    }
}

/// Removes the note with identifier `id` from the store.
pub fn remove_note(id: NoteId, db: &mut NoteStore) -> (response: Response)
    ensures
        final(db)@ == old(db)@.delete(id.0),
        response@ == remove_answer(id.0, old(db)@),
        old(db)@.wf() ==> final(db)@.wf(),
{
    match db.delete(id) {
        Ok(()) => Response { status: Status::NoContent, body: Body::Empty },
        Err(_) => Response { status: Status::NotFound, body: Body::Empty },
    }
}

/// Answers a request that no operation of the service matches.
pub fn unmatched() -> (response: Response)
    ensures
        response@ == bare(Status::NotFound),
{
    Response { status: Status::NotFound, body: Body::Empty }
}

} // verus!
