use vstd::prelude::*;

use crate::error::RepositoryError;
use crate::model::{AddLang, AddWord, Lang, UpdateLang, UpdateWord, Word};
use crate::repository::{langs_descending, words_descending, LangRepository, WordRepository};

verus! {

/// The abstract content of a repository: the live records in order of
/// creation, and the next identifier of each kind to hand out.
pub struct RepoState {
    pub langs: Seq<Lang>,
    pub words: Seq<Word>,
    pub next_lang_id: int,
    pub next_word_id: int,
}

/// The languages, newest first: the last one created comes first.
pub open spec fn langs_newest_first(rows: Seq<Lang>) -> Seq<Lang>
    decreases rows.len(),
{
    if rows.len() == 0 {
        Seq::empty()
    } else {
        seq![rows.last()] + langs_newest_first(rows.drop_last())
    }
}

/// The words owned by `lang_id`, newest first.
pub open spec fn words_newest_first(rows: Seq<Word>, lang_id: i32) -> Seq<Word>
    decreases rows.len(),
{
    if rows.len() == 0 {
        Seq::empty()
    } else if rows.last().lang_id == lang_id {
        seq![rows.last()] + words_newest_first(rows.drop_last(), lang_id)
    } else {
        words_newest_first(rows.drop_last(), lang_id)
    }
}

impl RepoState {
    pub open spec fn has_lang(self, id: i32) -> bool {
        exists|k: int| 0 <= k < self.langs.len() && #[trigger] self.langs[k].id == id
    }

    pub open spec fn has_word(self, id: i32) -> bool {
        exists|k: int| 0 <= k < self.words.len() && #[trigger] self.words[k].id == id
    }

    /// Some word with identifier `id` is owned by `lang_id`.
    pub open spec fn has_word_in(self, lang_id: i32, id: i32) -> bool {
        exists|k: int|
            0 <= k < self.words.len() && #[trigger] self.words[k].id == id && self.words[k].lang_id
                == lang_id
    }

    /// Some word is owned by language `lang_id`.
    pub open spec fn lang_in_use(self, lang_id: i32) -> bool {
        exists|k: int| 0 <= k < self.words.len() && #[trigger] self.words[k].lang_id == lang_id
    }

    /// Identifiers are positive, increase in order of creation, stay below the
    /// next one to hand out, and every word's language exists.
    pub open spec fn wf(self) -> bool {
        &&& 1 <= self.next_lang_id <= i32::MAX + 1
        &&& 1 <= self.next_word_id <= i32::MAX + 1
        &&& forall|i: int, j: int|
            0 <= i < j < self.langs.len() ==> self.langs[i].id < self.langs[j].id
        &&& forall|i: int|
            0 <= i < self.langs.len() ==> 1 <= #[trigger] self.langs[i].id < self.next_lang_id
        &&& forall|i: int, j: int|
            0 <= i < j < self.words.len() ==> self.words[i].id < self.words[j].id
        &&& forall|i: int|
            0 <= i < self.words.len() ==> 1 <= #[trigger] self.words[i].id < self.next_word_id
        &&& forall|i: int| 0 <= i < self.words.len() ==> self.has_lang(#[trigger] self.words[i].lang_id)
    }

    pub open spec fn lang_added(self, l: Lang) -> RepoState {
        RepoState {
            langs: self.langs.push(l),
            words: self.words,
            next_lang_id: self.next_lang_id + 1,
            next_word_id: self.next_word_id,
        }
    }

    pub open spec fn word_added(self, w: Word) -> RepoState {
        RepoState {
            langs: self.langs,
            words: self.words.push(w),
            next_lang_id: self.next_lang_id,
            next_word_id: self.next_word_id + 1,
        }
    }

    pub open spec fn lang_replaced(self, k: int, l: Lang) -> RepoState {
        RepoState {
            langs: self.langs.update(k, l),
            words: self.words,
            next_lang_id: self.next_lang_id,
            next_word_id: self.next_word_id,
        }
    }

    pub open spec fn word_replaced(self, k: int, w: Word) -> RepoState {
        RepoState {
            langs: self.langs,
            words: self.words.update(k, w),
            next_lang_id: self.next_lang_id,
            next_word_id: self.next_word_id,
        }
    }

    pub open spec fn lang_removed(self, k: int) -> RepoState {
        RepoState {
            langs: self.langs.remove(k),
            words: self.words,
            next_lang_id: self.next_lang_id,
            next_word_id: self.next_word_id,
        }
    }

    pub open spec fn word_removed(self, k: int) -> RepoState {
        RepoState {
            langs: self.langs,
            words: self.words.remove(k),
            next_lang_id: self.next_lang_id,
            next_word_id: self.next_word_id,
        }
    }
}

/// A repository held in memory: a stand-in for a database, with the same
/// contracts and the same ordering.
pub struct MemoryRepository {
    langs: Vec<Lang>,
    words: Vec<Word>,
    next_lang_id: i64,
    next_word_id: i64,
}

impl View for MemoryRepository {
    type V = RepoState;

    closed spec fn view(&self) -> RepoState {
        RepoState {
            langs: self.langs@,
            words: self.words@,
            next_lang_id: self.next_lang_id as int,
            next_word_id: self.next_word_id as int,
        }
    }
}

/// The language listing reverses the stored order.
pub proof fn lemma_langs_newest_first_index(rows: Seq<Lang>)
    ensures
        langs_newest_first(rows).len() == rows.len(),
        forall|i: int|
            0 <= i < rows.len() ==> #[trigger] langs_newest_first(rows)[i] == rows[rows.len() - 1
                - i],
    decreases rows.len(),
{
    if rows.len() > 0 {
        lemma_langs_newest_first_index(rows.drop_last());
    }
}

/// Every word listed for `lang_id` is a stored word of that language, and the
/// listing runs newest first where identifiers grow in the stored order.
pub proof fn lemma_words_newest_first_members(rows: Seq<Word>, lang_id: i32)
    requires
        forall|i: int, j: int| 0 <= i < j < rows.len() ==> rows[i].id < rows[j].id,
    ensures
        words_descending(words_newest_first(rows, lang_id)),
        forall|i: int|
            0 <= i < words_newest_first(rows, lang_id).len() ==> (#[trigger] words_newest_first(
                rows,
                lang_id,
            )[i]).lang_id == lang_id && exists|k: int|
                0 <= k < rows.len() && rows[k] == words_newest_first(rows, lang_id)[i],
    decreases rows.len(),
{
    if rows.len() > 0 {
        let rest = rows.drop_last();
        lemma_words_newest_first_members(rest, lang_id);
        let v = words_newest_first(rows, lang_id);
        let rv = words_newest_first(rest, lang_id);
        if rows.last().lang_id == lang_id {
            assert forall|i: int| 0 < i < v.len() implies v[i] == rv[i - 1] by {}
            assert forall|i: int|
                0 <= i < v.len() implies (#[trigger] v[i]).lang_id == lang_id && exists|k: int|
                0 <= k < rows.len() && rows[k] == v[i] by {
                if i == 0 {
                    assert(rows[rows.len() - 1] == v[0]);
                } else {
                    let k = choose|k: int| 0 <= k < rest.len() && rest[k] == rv[i - 1];
                    assert(rows[k] == v[i]);
                }
            }
            assert forall|i: int, j: int| 0 <= i < j < v.len() implies v[i].id > v[j].id by {
                if i == 0 {
                    assert(v[j] == rv[j - 1]);
                    assert(rv[j - 1] == v[j]);
                    let k = choose|k: int| 0 <= k < rest.len() && rest[k] == rv[j - 1];
                    assert(rows[k] == v[j]);
                } else {
                    assert(v[i] == rv[i - 1]);
                }
            }
        } else {
            assert forall|i: int|
                0 <= i < v.len() implies (#[trigger] v[i]).lang_id == lang_id && exists|k: int|
                0 <= k < rows.len() && rows[k] == v[i] by {
                let k = choose|k: int| 0 <= k < rest.len() && rest[k] == rv[i];
                assert(rows[k] == v[i]);
            }
        }
    }
}

/// A stored word of `lang_id` appears in the listing of `lang_id`.
pub proof fn lemma_words_newest_first_includes(rows: Seq<Word>, lang_id: i32, k: int)
    requires
        0 <= k < rows.len(),
        rows[k].lang_id == lang_id,
    ensures
        words_newest_first(rows, lang_id).contains(rows[k]),
    decreases rows.len(),
{
    let v = words_newest_first(rows, lang_id);
    if k == rows.len() - 1 {
        assert(v[0] == rows[k]);
    } else {
        let rest = rows.drop_last();
        lemma_words_newest_first_includes(rest, lang_id, k);
        let rv = words_newest_first(rest, lang_id);
        let i = choose|i: int| 0 <= i < rv.len() && rv[i] == rest[k];
        if rows.last().lang_id == lang_id {
            assert(v[i + 1] == rows[k]);
        } else {
            assert(v[i] == rows[k]);
        }
    }
}

/// Language existence depends on the languages alone.
proof fn lemma_has_lang_same_langs(a: RepoState, b: RepoState, id: i32)
    requires
        a.langs == b.langs,
        a.has_lang(id),
    ensures
        b.has_lang(id),
{
    let j = choose|j: int| 0 <= j < a.langs.len() && #[trigger] a.langs[j].id == id;
    assert(b.langs[j].id == id);
}

impl MemoryRepository {
    /// An empty repository; the first identifier of each kind is 1.
    pub fn new() -> (r: MemoryRepository)
        ensures
            r@.wf(),
            r@.langs == Seq::<Lang>::empty(),
            r@.words == Seq::<Word>::empty(),
            r@.next_lang_id == 1,
            r@.next_word_id == 1,
    {
        MemoryRepository { langs: Vec::new(), words: Vec::new(), next_lang_id: 1, next_word_id: 1 }
    }

    fn find_lang(&self, id: i32) -> (r: Option<usize>)
        ensures
            match r {
                Some(k) => k < self@.langs.len() && self@.langs[k as int].id == id,
                None => !self@.has_lang(id),
            },
    {
        let mut k: usize = 0;
        while k < self.langs.len()
            invariant
                k <= self.langs@.len(),
                forall|i: int| 0 <= i < k ==> self.langs@[i].id != id,
            decreases self.langs@.len() - k,
        {
            if self.langs[k].id == id {
                return Some(k);
            }
            k = k + 1;
        }
        None
    }

    fn find_word(&self, id: i32) -> (r: Option<usize>)
        ensures
            match r {
                Some(k) => k < self@.words.len() && self@.words[k as int].id == id,
                None => !self@.has_word(id),
            },
    {
        let mut k: usize = 0;
        while k < self.words.len()
            invariant
                k <= self.words@.len(),
                forall|i: int| 0 <= i < k ==> self.words@[i].id != id,
            decreases self.words@.len() - k,
        {
            if self.words[k].id == id {
                return Some(k);
            }
            k = k + 1;
        }
        None
    }

    fn owns_words(&self, lang_id: i32) -> (r: bool)
        ensures
            r == self@.lang_in_use(lang_id),
    {
        let mut k: usize = 0;
        while k < self.words.len()
            invariant
                k <= self.words@.len(),
                forall|i: int| 0 <= i < k ==> self.words@[i].lang_id != lang_id,
            decreases self.words@.len() - k,
        {
            if self.words[k].lang_id == lang_id {
                assert(self@.words[k as int].lang_id == lang_id);
                return true;
            }
            k = k + 1;
        }
        false
    }

    /// Stores a language named after the payload under the next identifier.
    /// Fails as `Unexpected`, changing nothing, once identifiers run out.
    pub fn add_lang(&mut self, payload: AddLang) -> (r: Result<Lang, RepositoryError>)
        requires
            old(self)@.wf(),
        ensures
            final(self)@.wf(),
            old(self)@.next_lang_id <= i32::MAX ==> {
                let l = (Lang { id: old(self)@.next_lang_id as i32, name: payload.name });
                &&& r == Ok::<Lang, RepositoryError>(l)
                &&& final(self)@ == old(self)@.lang_added(l)
            },
            old(self)@.next_lang_id > i32::MAX ==> (r matches Err(RepositoryError::Unexpected(_)))
                && final(self)@ == old(self)@,
    {
        if self.next_lang_id > i32::MAX as i64 {
            return Err(RepositoryError::Unexpected("language identifiers are exhausted".to_owned()));
        }
        let l = Lang { id: self.next_lang_id as i32, name: payload.name };
        self.langs.push(l.duplicate());
        self.next_lang_id = self.next_lang_id + 1;
        proof {
            let st = self@;
            let o = old(self)@;
            assert(st == o.lang_added(l));
            assert forall|i: int| 0 <= i < st.langs.len() implies #[trigger] st.langs[i]
                == (if i < o.langs.len() { o.langs[i] } else { l }) by {}
            assert forall|i: int| 0 <= i < st.words.len() implies st.has_lang(
                #[trigger] st.words[i].lang_id,
            ) by {
                assert(o.has_lang(o.words[i].lang_id));
                let k = choose|k: int| 0 <= k < o.langs.len() && #[trigger] o.langs[k].id == o.words[i].lang_id;
                assert(st.langs[k] == o.langs[k]);
            }
        }
        Ok(l)
    }

    /// Every language, newest first.
    pub fn all_langs(&self) -> (r: Vec<Lang>)
        ensures
            r@ == langs_newest_first(self@.langs),
    {
        let mut r: Vec<Lang> = Vec::new();
        let mut i: usize = 0;
        while i < self.langs.len()
            invariant
                i <= self.langs@.len(),
                r@ == langs_newest_first(self.langs@.subrange(0, i as int)),
            decreases self.langs@.len() - i,
        {
            let l = self.langs[i].duplicate();
            proof {
                let next = self.langs@.subrange(0, i + 1);
                assert(next.drop_last() =~= self.langs@.subrange(0, i as int));
                assert(r@.insert(0, l) =~= seq![next.last()] + r@);
            }
            r.insert(0, l);
            i = i + 1;
        }
        proof {
            assert(self.langs@.subrange(0, self.langs@.len() as int) =~= self.langs@);
        }
        r
    }

    /// Renames language `id` in place. Fails as `NotFound(id)`, changing
    /// nothing, where there is no such language.
    pub fn update_lang(&mut self, id: i32, payload: UpdateLang) -> (r: Result<Lang, RepositoryError>)
        requires
            old(self)@.wf(),
        ensures
            final(self)@.wf(),
            !old(self)@.has_lang(id) ==> r == Err::<Lang, RepositoryError>(
                RepositoryError::NotFound(id),
            ) && final(self)@ == old(self)@,
            old(self)@.has_lang(id) ==> {
                let l = (Lang { id: id, name: payload.name });
                &&& r == Ok::<Lang, RepositoryError>(l)
                &&& exists|k: int|
                    0 <= k < old(self)@.langs.len() && #[trigger] old(self)@.langs[k].id == id
                        && final(self)@ == old(self)@.lang_replaced(k, l)
            },
    {
        match self.find_lang(id) {
            None => Err(RepositoryError::NotFound(id)),
            Some(k) => {
                let l = Lang { id: id, name: payload.name };
                self.langs.set(k, l.duplicate());
                proof {
                    let st = self@;
                    let o = old(self)@;
                    assert(st == o.lang_replaced(k as int, l));
                    assert forall|i: int| 0 <= i < st.words.len() implies st.has_lang(
                        #[trigger] st.words[i].lang_id,
                    ) by {
                        assert(o.has_lang(o.words[i].lang_id));
                        let j = choose|j: int| 0 <= j < o.langs.len() && #[trigger] o.langs[j].id == o.words[i].lang_id;
                        assert(st.langs[j].id == o.langs[j].id);
                    }
                }
                Ok(l)
            },
        }
    }

    /// Removes language `id`. Fails as `NotFound(id)` where there is no such
    /// language, and as `Unexpected` where words still belong to it; either
    /// failure changes nothing.
    pub fn delete_lang(&mut self, id: i32) -> (r: Result<(), RepositoryError>)
        requires
            old(self)@.wf(),
        ensures
            final(self)@.wf(),
            !old(self)@.has_lang(id) ==> r == Err::<(), RepositoryError>(
                RepositoryError::NotFound(id),
            ) && final(self)@ == old(self)@,
            old(self)@.has_lang(id) && old(self)@.lang_in_use(id) ==> (r matches Err(
                RepositoryError::Unexpected(_),
            )) && final(self)@ == old(self)@,
            old(self)@.has_lang(id) && !old(self)@.lang_in_use(id) ==> r == Ok::<
                (),
                RepositoryError,
            >(()) && exists|k: int|
                0 <= k < old(self)@.langs.len() && #[trigger] old(self)@.langs[k].id == id
                    && final(self)@ == old(self)@.lang_removed(k),
    {
        match self.find_lang(id) {
            None => Err(RepositoryError::NotFound(id)),
            Some(k) => {
                if self.owns_words(id) {
                    return Err(
                        RepositoryError::Unexpected("language still owns words".to_owned()),
                    );
                }
                self.langs.remove(k);
                proof {
                    let st = self@;
                    let o = old(self)@;
                    assert(st == o.lang_removed(k as int));
                    assert forall|i: int| 0 <= i < st.langs.len() implies #[trigger] st.langs[i]
                        == (if i < k { o.langs[i] } else { o.langs[i + 1] }) by {}
                    assert forall|i: int| 0 <= i < st.words.len() implies st.has_lang(
                        #[trigger] st.words[i].lang_id,
                    ) by {
                        assert(o.has_lang(o.words[i].lang_id));
                        let j = choose|j: int| 0 <= j < o.langs.len() && #[trigger] o.langs[j].id == o.words[i].lang_id;
                        assert(j != k);
                        if j < k {
                            assert(st.langs[j] == o.langs[j]);
                        } else {
                            assert(st.langs[j - 1] == o.langs[j]);
                        }
                    }
                }
                Ok(())
            },
        }
    }
    /// Stores a word under `lang_id` with the next identifier. Fails as
    /// `Unexpected`, changing nothing, where language `lang_id` does not exist
    /// or identifiers run out.
    pub fn add_word(&mut self, lang_id: i32, payload: AddWord) -> (r: Result<Word, RepositoryError>)
        requires
            old(self)@.wf(),
        ensures
            final(self)@.wf(),
            old(self)@.has_lang(lang_id) && old(self)@.next_word_id <= i32::MAX ==> {
                let w = (Word {
                    id: old(self)@.next_word_id as i32,
                    name: payload.name,
                    means: payload.means,
                    lang_id: lang_id,
                });
                &&& r == Ok::<Word, RepositoryError>(w)
                &&& final(self)@ == old(self)@.word_added(w)
            },
            !(old(self)@.has_lang(lang_id) && old(self)@.next_word_id <= i32::MAX) ==> (r matches Err(
                RepositoryError::Unexpected(_),
            )) && final(self)@ == old(self)@,
    {
        let owner = self.find_lang(lang_id);
        if owner.is_none() {
            return Err(RepositoryError::Unexpected("language does not exist".to_owned()));
        }
        if self.next_word_id > i32::MAX as i64 {
            return Err(RepositoryError::Unexpected("word identifiers are exhausted".to_owned()));
        }
        let w = Word {
            id: self.next_word_id as i32,
            name: payload.name,
            means: payload.means,
            lang_id: lang_id,
        };
        self.words.push(w.duplicate());
        self.next_word_id = self.next_word_id + 1;
        proof {
            let st = self@;
            let o = old(self)@;
            assert(st == o.word_added(w));
            assert forall|i: int| 0 <= i < st.words.len() implies #[trigger] st.words[i]
                == (if i < o.words.len() { o.words[i] } else { w }) by {}
            assert forall|i: int| 0 <= i < st.words.len() implies st.has_lang(
                #[trigger] st.words[i].lang_id,
            ) by {
                if i < o.words.len() {
                    lemma_has_lang_same_langs(o, st, o.words[i].lang_id);
                } else {
                    let j = owner->Some_0 as int;
                    assert(st.langs[j].id == lang_id);
                }
            }
        }
        Ok(w)
    }

    /// The words owned by `lang_id`, newest first.
    pub fn all_words(&self, lang_id: i32) -> (r: Vec<Word>)
        ensures
            r@ == words_newest_first(self@.words, lang_id),
    {
        let mut r: Vec<Word> = Vec::new();
        let mut i: usize = 0;
        while i < self.words.len()
            invariant
                i <= self.words@.len(),
                r@ == words_newest_first(self.words@.subrange(0, i as int), lang_id),
            decreases self.words@.len() - i,
        {
            proof {
                let next = self.words@.subrange(0, i + 1);
                assert(next.drop_last() =~= self.words@.subrange(0, i as int));
            }
            if self.words[i].lang_id == lang_id {
                let w = self.words[i].duplicate();
                proof {
                    let next = self.words@.subrange(0, i + 1);
                    assert(r@.insert(0, w) =~= seq![next.last()] + r@);
                }
                r.insert(0, w);
            }
            i = i + 1;
        }
        proof {
            assert(self.words@.subrange(0, self.words@.len() as int) =~= self.words@);
        }
        r
    }

    /// Replaces the text and meaning of word `id` and files it under
    /// `lang_id`, in place. Fails as `NotFound(id)` where there is no word
    /// `id`, and as `Unexpected` where language `lang_id` does not exist;
    /// either failure changes nothing.
    pub fn update_word(&mut self, lang_id: i32, id: i32, payload: UpdateWord) -> (r: Result<
        Word,
        RepositoryError,
    >)
        requires
            old(self)@.wf(),
        ensures
            final(self)@.wf(),
            !old(self)@.has_word(id) ==> r == Err::<Word, RepositoryError>(
                RepositoryError::NotFound(id),
            ) && final(self)@ == old(self)@,
            old(self)@.has_word(id) && !old(self)@.has_lang(lang_id) ==> (r matches Err(
                RepositoryError::Unexpected(_),
            )) && final(self)@ == old(self)@,
            old(self)@.has_word(id) && old(self)@.has_lang(lang_id) ==> {
                let w = (Word { id: id, name: payload.name, means: payload.means, lang_id: lang_id });
                &&& r == Ok::<Word, RepositoryError>(w)
                &&& exists|k: int|
                    0 <= k < old(self)@.words.len() && #[trigger] old(self)@.words[k].id == id
                        && final(self)@ == old(self)@.word_replaced(k, w)
            },
    {
        match self.find_word(id) {
            None => Err(RepositoryError::NotFound(id)),
            Some(k) => {
                let owner = self.find_lang(lang_id);
                if owner.is_none() {
                    return Err(RepositoryError::Unexpected("language does not exist".to_owned()));
                }
                let w = Word { id: id, name: payload.name, means: payload.means, lang_id: lang_id };
                self.words.set(k, w.duplicate());
                proof {
                    let st = self@;
                    let o = old(self)@;
                    assert(st == o.word_replaced(k as int, w));
                    assert forall|i: int| 0 <= i < st.words.len() implies st.has_lang(
                        #[trigger] st.words[i].lang_id,
                    ) by {
                        if i != k {
                            assert(st.words[i] == o.words[i]);
                            lemma_has_lang_same_langs(o, st, o.words[i].lang_id);
                        } else {
                            let j = owner->Some_0 as int;
                            assert(st.langs[j].id == lang_id);
                        }
                    }
                }
                Ok(w)
            },
        }
    }

    /// Removes word `id` of language `lang_id`. Fails as `NotFound(id)`,
    /// changing nothing, where no word has both keys: a word is never deleted
    /// through another language.
    pub fn delete_word(&mut self, lang_id: i32, id: i32) -> (r: Result<(), RepositoryError>)
        requires
            old(self)@.wf(),
        ensures
            final(self)@.wf(),
            !old(self)@.has_word_in(lang_id, id) ==> r == Err::<(), RepositoryError>(
                RepositoryError::NotFound(id),
            ) && final(self)@ == old(self)@,
            old(self)@.has_word_in(lang_id, id) ==> r == Ok::<(), RepositoryError>(()) && exists|
                k: int,
            |
                0 <= k < old(self)@.words.len() && #[trigger] old(self)@.words[k].id == id
                    && old(self)@.words[k].lang_id == lang_id && final(self)@ == old(
                    self,
                )@.word_removed(k),
    {
        match self.find_word(id) {
            None => Err(RepositoryError::NotFound(id)),
            Some(k) => {
                if self.words[k].lang_id != lang_id {
                    proof {
                        let o = self@;
                        assert forall|j: int| 0 <= j < o.words.len() && #[trigger] o.words[j].id
                            == id implies o.words[j].lang_id != lang_id by {
                            assert(j == k);
                        }
                    }
                    return Err(RepositoryError::NotFound(id));
                }
                self.words.remove(k);
                proof {
                    let st = self@;
                    let o = old(self)@;
                    assert(st == o.word_removed(k as int));
                    assert forall|i: int| 0 <= i < st.words.len() implies #[trigger] st.words[i]
                        == (if i < k { o.words[i] } else { o.words[i + 1] }) by {}
                    assert forall|i: int| 0 <= i < st.words.len() implies st.has_lang(
                        #[trigger] st.words[i].lang_id,
                    ) by {
                        if i < k {
                            lemma_has_lang_same_langs(o, st, o.words[i].lang_id);
                        } else {
                            lemma_has_lang_same_langs(o, st, o.words[i + 1].lang_id);
                        }
                    }
                }
                Ok(())
            },
        }
    }
}

impl LangRepository for MemoryRepository {
    open spec fn lang_inv(&self) -> bool {
        self@.wf()
    }

    fn add(&mut self, payload: AddLang) -> (r: Result<Lang, RepositoryError>) {
        self.add_lang(payload)
    }

    fn all(&self) -> (r: Result<Vec<Lang>, RepositoryError>) {
        let v = self.all_langs();
        proof {
            lemma_langs_newest_first_index(self@.langs);
        }
        Ok(v)
    }

    fn update(&mut self, id: i32, payload: UpdateLang) -> (r: Result<Lang, RepositoryError>) {
        self.update_lang(id, payload)
    }

    fn delete(&mut self, id: i32) -> (r: Result<(), RepositoryError>) {
        self.delete_lang(id)
    }
}

impl WordRepository for MemoryRepository {
    open spec fn word_inv(&self) -> bool {
        self@.wf()
    }

    fn add(&mut self, lang_id: i32, payload: AddWord) -> (r: Result<Word, RepositoryError>) {
        self.add_word(lang_id, payload)
    }

    fn all(&self, lang_id: i32) -> (r: Result<Vec<Word>, RepositoryError>) {
        let v = self.all_words(lang_id);
        proof {
            lemma_words_newest_first_members(self@.words, lang_id);
        }
        Ok(v)
    }

    fn update(&mut self, lang_id: i32, id: i32, payload: UpdateWord) -> (r: Result<
        Word,
        RepositoryError,
    >) {
        self.update_word(lang_id, id, payload)
    }

    fn delete(&mut self, lang_id: i32, id: i32) -> (r: Result<(), RepositoryError>) {
        self.delete_word(lang_id, id)
    }
}

} // verus!
