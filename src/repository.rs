use vstd::prelude::*;

use crate::error::RepositoryError;
use crate::model::{AddLang, AddWord, Lang, UpdateLang, UpdateWord, Word};

verus! {

/// Identifiers strictly decrease along the sequence: newest first.
pub open spec fn langs_descending(v: Seq<Lang>) -> bool {
    forall|i: int, j: int| 0 <= i < j < v.len() ==> v[i].id > v[j].id
}

/// Identifiers strictly decrease along the sequence: newest first.
pub open spec fn words_descending(v: Seq<Word>) -> bool {
    forall|i: int, j: int| 0 <= i < j < v.len() ==> v[i].id > v[j].id
}

/// The language operations a storage backend provides.
///
/// `lang_inv` is the backend's own consistency condition; every operation
/// keeps it.
pub trait LangRepository: Sized {
    spec fn lang_inv(&self) -> bool;

    /// Stores a new language and returns it with its assigned identifier.
    fn add(&mut self, payload: AddLang) -> (r: Result<Lang, RepositoryError>)
        requires
            old(self).lang_inv(),
        ensures
            final(self).lang_inv(),
            r matches Ok(l) ==> l.name@ == payload.name@,
    ;

    /// Every language, newest first.
    fn all(&self) -> (r: Result<Vec<Lang>, RepositoryError>)
        requires
            self.lang_inv(),
        ensures
            r matches Ok(v) ==> langs_descending(v@),
    ;

    /// Renames the language `id`; fails as `NotFound(id)` where there is none.
    fn update(&mut self, id: i32, payload: UpdateLang) -> (r: Result<Lang, RepositoryError>)
        requires
            old(self).lang_inv(),
        ensures
            final(self).lang_inv(),
            r matches Ok(l) ==> l.id == id && l.name@ == payload.name@,
            r matches Err(RepositoryError::NotFound(k)) ==> k == id,
    ;

    /// Removes the language `id`; fails as `NotFound(id)` where there is none.
    fn delete(&mut self, id: i32) -> (r: Result<(), RepositoryError>)
        requires
            old(self).lang_inv(),
        ensures
            final(self).lang_inv(),
            r matches Err(RepositoryError::NotFound(k)) ==> k == id,
    ;
}

/// The word operations a storage backend provides, each scoped to a language.
pub trait WordRepository: Sized {
    spec fn word_inv(&self) -> bool;

    /// Stores a new word under `lang_id` and returns it with its assigned identifier.
    fn add(&mut self, lang_id: i32, payload: AddWord) -> (r: Result<Word, RepositoryError>)
        requires
            old(self).word_inv(),
        ensures
            final(self).word_inv(),
            r matches Ok(w) ==> w.name@ == payload.name@ && w.means@ == payload.means@
                && w.lang_id == lang_id,
    ;

    /// The words of `lang_id`, newest first.
    fn all(&self, lang_id: i32) -> (r: Result<Vec<Word>, RepositoryError>)
        requires
            self.word_inv(),
        ensures
            r matches Ok(v) ==> words_descending(v@) && forall|i: int|
                0 <= i < v@.len() ==> #[trigger] v@[i].lang_id == lang_id,
    ;

    /// Replaces the text and meaning of word `id` and files it under `lang_id`;
    /// fails as `NotFound(id)` where there is no word `id`.
    fn update(&mut self, lang_id: i32, id: i32, payload: UpdateWord) -> (r: Result<
        Word,
        RepositoryError,
    >)
        requires
            old(self).word_inv(),
        ensures
            final(self).word_inv(),
            r matches Ok(w) ==> w.id == id && w.name@ == payload.name@ && w.means@
                == payload.means@ && w.lang_id == lang_id,
            r matches Err(RepositoryError::NotFound(k)) ==> k == id,
    ;

    /// Removes word `id` of language `lang_id`; fails as `NotFound(id)` where
    /// no word has both keys.
    fn delete(&mut self, lang_id: i32, id: i32) -> (r: Result<(), RepositoryError>)
        requires
            old(self).word_inv(),
        ensures
            final(self).word_inv(),
            r matches Err(RepositoryError::NotFound(k)) ==> k == id,
    ;
}

} // verus!
