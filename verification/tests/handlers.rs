use notes::handlers::{
    create_note, list_notes, remove_note, unmatched, update_note, Body, CreateNoteRequest,
    NoteResponse, NotesResponse, Response, Status, UpdateNoteRequest, MAX_BODY_BYTES,
};
use notes::note_id::NoteId;
use notes::store::NoteStore;

fn text(s: &str) -> String {
    s.to_string()
}

fn shown(id: u64, title: &str, content: &str) -> NoteResponse {
    NoteResponse { id: NoteId(id), title: text(title), content: text(content) }
}

fn create(title: &str, content: &str) -> CreateNoteRequest {
    CreateNoteRequest { title: text(title), content: text(content) }
}

fn update(title: Option<&str>, content: Option<&str>) -> UpdateNoteRequest {
    UpdateNoteRequest { title: title.map(text), content: content.map(text) }
}

fn bare(status: Status) -> Response {
    Response { status, body: Body::Empty }
}

fn listing(notes: Vec<NoteResponse>) -> Response {
    Response { status: Status::Success, body: Body::Notes(NotesResponse(notes)) }
}

#[test]
fn status_codes() {
    assert_eq!(Status::Success.code(), 200);
    assert_eq!(Status::Created.code(), 201);
    assert_eq!(Status::NoContent.code(), 204);
    assert_eq!(Status::NotFound.code(), 404);
    assert_eq!(Status::UnprocessableEntity.code(), 422);
}

#[test]
fn body_limit_is_sixteen_kibibytes() {
    assert_eq!(MAX_BODY_BYTES, 16 * 1024);
}

#[test]
fn list_of_empty_store() {
    let db = NoteStore::new();
    assert_eq!(list_notes(&db), listing(vec![]));
}

#[test]
fn create_answers_created_with_the_note() {
    let mut db = NoteStore::new();
    let response = create_note(&mut db, create("title", "content"));
    assert_eq!(
        response,
        Response { status: Status::Created, body: Body::Note(shown(1, "title", "content")) }
    );
    assert_eq!(response.status.code(), 201);
}

#[test]
fn create_then_list_round_trip() {
    let mut db = NoteStore::new();
    create_note(&mut db, create("earlier", "x"));
    let title = "A \"title\" with \\ and \u{2603}";
    let content = "multi\nline\ncontent ";
    create_note(&mut db, create(title, content));
    assert_eq!(list_notes(&db), listing(vec![shown(1, "earlier", "x"), shown(2, title, content)]));
}

#[test]
fn create_ids_increase_across_other_requests() {
    let mut db = NoteStore::new();
    let mut ids = Vec::new();
    for k in 0..50u64 {
        let response = create_note(&mut db, create("n", ""));
        match response.body {
            Body::Note(note) => ids.push(note.id.0),
            other => panic!("unexpected body {:?}", other),
        }
        if k % 3 == 0 {
            remove_note(NoteId(k + 1), &mut db);
        }
        if k % 5 == 0 {
            update_note(NoteId(k), &mut db, update(Some("u"), None));
        }
        list_notes(&db);
    }
    for pair in ids.windows(2) {
        assert!(pair[0] < pair[1]);
    }
    assert_eq!(ids, (1..=50).collect::<Vec<u64>>());
}

#[test]
fn update_title_only_leaves_content_in_listing() {
    let mut db = NoteStore::new();
    create_note(&mut db, create("old", "kept"));
    create_note(&mut db, create("other", "same"));
    assert_eq!(update_note(NoteId(1), &mut db, update(Some("new"), None)), bare(Status::NoContent));
    assert_eq!(list_notes(&db), listing(vec![shown(1, "new", "kept"), shown(2, "other", "same")]));
}

#[test]
fn update_content_only_leaves_title_in_listing() {
    let mut db = NoteStore::new();
    create_note(&mut db, create("kept", "old"));
    assert_eq!(update_note(NoteId(1), &mut db, update(None, Some("new"))), bare(Status::NoContent));
    assert_eq!(list_notes(&db), listing(vec![shown(1, "kept", "new")]));
}

#[test]
fn update_with_empty_strings_is_accepted() {
    let mut db = NoteStore::new();
    create_note(&mut db, create("t", "c"));
    assert_eq!(update_note(NoteId(1), &mut db, update(Some(""), None)), bare(Status::NoContent));
    assert_eq!(list_notes(&db), listing(vec![shown(1, "", "c")]));
}

#[test]
fn update_without_fields_is_unprocessable_for_known_id() {
    let mut db = NoteStore::new();
    create_note(&mut db, create("t", "c"));
    let response = update_note(NoteId(1), &mut db, update(None, None));
    assert_eq!(response, bare(Status::UnprocessableEntity));
    assert_eq!(response.status.code(), 422);
    assert_eq!(list_notes(&db), listing(vec![shown(1, "t", "c")]));
}

#[test]
fn update_without_fields_is_unprocessable_for_unknown_id() {
    let mut db = NoteStore::new();
    assert_eq!(
        update_note(NoteId(99), &mut db, update(None, None)),
        bare(Status::UnprocessableEntity)
    );
    create_note(&mut db, create("t", "c"));
    assert_eq!(
        update_note(NoteId(2), &mut db, update(None, None)),
        bare(Status::UnprocessableEntity)
    );
    assert_eq!(list_notes(&db), listing(vec![shown(1, "t", "c")]));
}

#[test]
fn update_request_for_unknown_id_is_not_found() {
    let mut db = NoteStore::new();
    create_note(&mut db, create("t", "c"));
    let response = update_note(NoteId(2), &mut db, update(Some("x"), Some("y")));
    assert_eq!(response, bare(Status::NotFound));
    assert_eq!(response.status.code(), 404);
    assert_eq!(update_note(NoteId(0), &mut db, update(None, Some("y"))), bare(Status::NotFound));
    assert_eq!(list_notes(&db), listing(vec![shown(1, "t", "c")]));
}

#[test]
fn remove_answers_no_content_then_not_found() {
    let mut db = NoteStore::new();
    create_note(&mut db, create("a", ""));
    create_note(&mut db, create("b", ""));
    let first = remove_note(NoteId(1), &mut db);
    assert_eq!(first, bare(Status::NoContent));
    assert_eq!(first.status.code(), 204);
    assert_eq!(list_notes(&db), listing(vec![shown(2, "b", "")]));
    assert_eq!(remove_note(NoteId(1), &mut db), bare(Status::NotFound));
    assert_eq!(list_notes(&db), listing(vec![shown(2, "b", "")]));
}

#[test]
fn remove_never_created_id_is_not_found() {
    let mut db = NoteStore::new();
    assert_eq!(remove_note(NoteId(1), &mut db), bare(Status::NotFound));
    create_note(&mut db, create("a", ""));
    assert_eq!(remove_note(NoteId(2), &mut db), bare(Status::NotFound));
    assert_eq!(remove_note(NoteId(0), &mut db), bare(Status::NotFound));
    assert_eq!(list_notes(&db), listing(vec![shown(1, "a", "")]));
}

#[test]
fn unmatched_request_is_not_found_without_body() {
    let response = unmatched();
    assert_eq!(response, bare(Status::NotFound));
    assert_eq!(response.status.code(), 404);
}

#[test]
fn lorem_ipsum_scenario() {
    let mut db = NoteStore::new();

    let created = create_note(&mut db, create("Lorem Ipsum", ""));
    assert_eq!(created.status.code(), 201);
    assert_eq!(created.body, Body::Note(shown(1, "Lorem Ipsum", "")));

    let listed = list_notes(&db);
    assert_eq!(listed.status.code(), 200);
    assert_eq!(listed.body, Body::Notes(NotesResponse(vec![shown(1, "Lorem Ipsum", "")])));

    let id = "1".parse::<NoteId>().unwrap();
    let patched = update_note(id, &mut db, update(None, Some("hi")));
    assert_eq!(patched.status.code(), 204);
    assert_eq!(patched.body, Body::Empty);

    let listed = list_notes(&db);
    assert_eq!(listed.status.code(), 200);
    assert_eq!(listed.body, Body::Notes(NotesResponse(vec![shown(1, "Lorem Ipsum", "hi")])));

    let removed = remove_note(id, &mut db);
    assert_eq!(removed.status.code(), 204);
    assert_eq!(removed.body, Body::Empty);

    let listed = list_notes(&db);
    assert_eq!(listed.status.code(), 200);
    assert_eq!(listed.body, Body::Notes(NotesResponse(vec![])));

    let removed_again = remove_note(id, &mut db);
    assert_eq!(removed_again.status.code(), 404);
    assert_eq!(removed_again.body, Body::Empty);
}

#[test]
fn create_accepts_an_empty_title() {
    let mut db = NoteStore::new();
    let response = create_note(&mut db, create("", ""));
    assert_eq!(response, Response { status: Status::Created, body: Body::Note(shown(1, "", "")) });
    assert_eq!(list_notes(&db), listing(vec![shown(1, "", "")]));
}

#[test]
fn refused_update_does_not_hide_a_later_valid_one() {
    let mut db = NoteStore::new();
    create_note(&mut db, create("t", "c"));
    assert_eq!(update_note(NoteId(1), &mut db, update(None, None)), bare(Status::UnprocessableEntity));
    assert_eq!(
        update_note(NoteId(1), &mut db, update(Some("T"), Some("C"))),
        bare(Status::NoContent)
    );
    assert_eq!(list_notes(&db), listing(vec![shown(1, "T", "C")]));
}
