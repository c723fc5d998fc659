use vstd::prelude::*;

use crate::error::RepositoryError;
use crate::model::{AddLang, AddWord, Lang, UpdateLang, UpdateWord, Word};
use crate::repository::{langs_descending, words_descending, LangRepository, WordRepository};

verus! {

/// The HTTP statuses that the handlers answer with.
#[derive(Debug, Clone, Copy, PartialEq, Eq, Structural)]
pub enum Status {
    /// 200 OK
    Success,
    /// 201 Created
    Created,
    /// 204 No Content
    NoContent,
    /// 404 Not Found
    NotFound,
    /// 500 Internal Server Error
    InternalServerError,
}

/// The numeric HTTP status of each answer.
pub open spec fn status_code(s: Status) -> u16 {
    match s {
        Status::Success => 200,
        Status::Created => 201,
        Status::NoContent => 204,
        Status::NotFound => 404,
        Status::InternalServerError => 500,
    }
}

impl Status {
    /// The numeric HTTP status.
    pub fn as_u16(&self) -> (r: u16)
        ensures
            r == status_code(*self),
    {
        match self {
            Status::Success => 200,
            Status::Created => 201,
            Status::NoContent => 204,
            Status::NotFound => 404,
            Status::InternalServerError => 500,
        }
    }
}

/// The answer to a create: 201 with the record, or 404 on any failure.
pub fn respond_created<R>(outcome: Result<R, RepositoryError>) -> (r: Result<(Status, R), Status>)
    ensures
        match outcome {
            Ok(x) => r == Ok::<(Status, R), Status>((Status::Created, x)),
            Err(_) => r == Err::<(Status, R), Status>(Status::NotFound),
        },
{
    match outcome {
        Ok(x) => Ok((Status::Created, x)),
        Err(_) => Err(Status::NotFound),
    }
}

/// The answer to an update: 200 with the record, or 404 on any failure.
pub fn respond_updated<R>(outcome: Result<R, RepositoryError>) -> (r: Result<(Status, R), Status>)
    ensures
        match outcome {
            Ok(x) => r == Ok::<(Status, R), Status>((Status::Success, x)),
            Err(_) => r == Err::<(Status, R), Status>(Status::NotFound),
        },
{
    match outcome {
        Ok(x) => Ok((Status::Success, x)),
        Err(_) => Err(Status::NotFound),
    }
}

/// The answer to a delete: 204 with no body, or 404 on any failure.
pub fn respond_deleted(outcome: Result<(), RepositoryError>) -> (r: Status)
    ensures
        r == (if outcome is Ok {
            Status::NoContent
        } else {
            Status::NotFound
        }),
{
    match outcome {
        Ok(_) => Status::NoContent,
        Err(_) => Status::NotFound,
    }
}

/// The answer to a listing: 200 with the records. A storage failure while
/// listing is answered with 500 rather than left to abort the request.
pub fn respond_listed<R>(outcome: Result<Vec<R>, RepositoryError>) -> (r: Result<
    (Status, Vec<R>),
    Status,
>)
    ensures
        match outcome {
            Ok(v) => r == Ok::<(Status, Vec<R>), Status>((Status::Success, v)),
            Err(_) => r == Err::<(Status, Vec<R>), Status>(Status::InternalServerError),
        },
{
    match outcome {
        Ok(v) => Ok((Status::Success, v)),
        Err(_) => Err(Status::InternalServerError),
    }
}

/// POST /languages
pub fn add_lang<T: LangRepository>(payload: AddLang, repository: &mut T) -> (r: Result<
    (Status, Lang),
    Status,
>)
    requires
        old(repository).lang_inv(),
    ensures
        final(repository).lang_inv(),
        match r {
            Ok((s, l)) => s == Status::Created && l.name@ == payload.name@,
            Err(s) => s == Status::NotFound,
        },
{
    respond_created(repository.add(payload))
}

/// GET /languages
pub fn all_lang<T: LangRepository>(repository: &T) -> (r: Result<(Status, Vec<Lang>), Status>)
    requires
        repository.lang_inv(),
    ensures
        match r {
            Ok((s, v)) => s == Status::Success && langs_descending(v@),
            Err(s) => s == Status::InternalServerError,
        },
{
    respond_listed(repository.all())
}

/// PATCH /languages/{id}
pub fn update_lang<T: LangRepository>(id: i32, payload: UpdateLang, repository: &mut T) -> (r:
    Result<(Status, Lang), Status>)
    requires
        old(repository).lang_inv(),
    ensures
        final(repository).lang_inv(),
        match r {
            Ok((s, l)) => s == Status::Success && l.id == id && l.name@ == payload.name@,
            Err(s) => s == Status::NotFound,
        },
{
    respond_updated(repository.update(id, payload))
}

/// DELETE /languages/{id}
pub fn delete_lang<T: LangRepository>(id: i32, repository: &mut T) -> (r: Status)
    requires
        old(repository).lang_inv(),
    ensures
        final(repository).lang_inv(),
        r == Status::NoContent || r == Status::NotFound,
{
    respond_deleted(repository.delete(id))
}

/// POST /languages/{lang_id}
pub fn add_word<T: WordRepository>(lang_id: i32, payload: AddWord, repository: &mut T) -> (r:
    Result<(Status, Word), Status>)
    requires
        old(repository).word_inv(),
    ensures
        final(repository).word_inv(),
        match r {
            Ok((s, w)) => s == Status::Created && w.name@ == payload.name@ && w.means@
                == payload.means@ && w.lang_id == lang_id,
            Err(s) => s == Status::NotFound,
        },
{
    respond_created(repository.add(lang_id, payload))
}

/// GET /languages/{lang_id}
pub fn all_word<T: WordRepository>(lang_id: i32, repository: &T) -> (r: Result<
    (Status, Vec<Word>),
    Status,
>)
    requires
        repository.word_inv(),
    ensures
        match r {
            Ok((s, v)) => s == Status::Success && words_descending(v@) && forall|i: int|
                0 <= i < v@.len() ==> #[trigger] v@[i].lang_id == lang_id,
            Err(s) => s == Status::InternalServerError,
        },
{
    respond_listed(repository.all(lang_id))
}

/// PATCH /languages/{lang_id}/{id}
pub fn update_word<T: WordRepository>(
    lang_id: i32,
    id: i32,
    payload: UpdateWord,
    repository: &mut T,
) -> (r: Result<(Status, Word), Status>)
    requires
        old(repository).word_inv(),
    ensures
        final(repository).word_inv(),
        match r {
            Ok((s, w)) => s == Status::Success && w.id == id && w.name@ == payload.name@ && w.means@
                == payload.means@ && w.lang_id == lang_id,
            Err(s) => s == Status::NotFound,
        },
{
    respond_updated(repository.update(lang_id, id, payload))
}

/// DELETE /languages/{lang_id}/{id}
pub fn delete_word<T: WordRepository>(lang_id: i32, id: i32, repository: &mut T) -> (r: Status)
    requires
        old(repository).word_inv(),
    ensures
        final(repository).word_inv(),
        r == Status::NoContent || r == Status::NotFound,
{
    respond_deleted(repository.delete(lang_id, id))
}

} // verus!
