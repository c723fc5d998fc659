use vstd::prelude::*;

use crate::memory::{langs_newest_first, lemma_words_newest_first_includes, words_newest_first, RepoState};
use crate::model::{Lang, Word};

verus! {

/// A language is added under an identifier that no live language has, and
/// every identifier handed out afterwards is larger: none is assigned twice.
pub proof fn law_added_lang_id_is_fresh(before: RepoState, l: Lang)
    requires
        before.wf(),
        l.id == before.next_lang_id,
    ensures
        forall|i: int| 0 <= i < before.langs.len() ==> #[trigger] before.langs[i].id != l.id,
        before.lang_added(l).next_lang_id > l.id,
{
}

/// Adding language `a` and then language `b` lists `b` first, then `a`, then
/// the languages that were there before.
pub proof fn law_two_adds_list_newest_first(before: RepoState, a: Lang, b: Lang)
    ensures
        langs_newest_first(before.lang_added(a).lang_added(b).langs) == seq![b, a]
            + langs_newest_first(before.langs),
{
    let one = before.langs.push(a);
    let two = one.push(b);
    assert(two.drop_last() =~= one);
    assert(one.drop_last() =~= before.langs);
    assert(langs_newest_first(two) == seq![b] + langs_newest_first(one));
    assert(langs_newest_first(one) == seq![a] + langs_newest_first(before.langs));
    assert(seq![b] + (seq![a] + langs_newest_first(before.langs)) =~= seq![b, a]
        + langs_newest_first(before.langs));
}

/// Deleting word `k` through a language that does not own it matches no
/// word, and the word stays listed under the language that owns it.
pub proof fn law_delete_word_through_other_lang(st: RepoState, lang_id: i32, k: int)
    requires
        st.wf(),
        0 <= k < st.words.len(),
        st.words[k].lang_id != lang_id,
    ensures
        !st.has_word_in(lang_id, st.words[k].id),
        words_newest_first(st.words, st.words[k].lang_id).contains(st.words[k]),
{
    assert forall|j: int|
        0 <= j < st.words.len() && #[trigger] st.words[j].id == st.words[k].id implies st.words[j].lang_id
        != lang_id by {
        if j < k {
            assert(st.words[j].id < st.words[k].id);
        } else if j > k {
            assert(st.words[k].id < st.words[j].id);
        }
    }
    lemma_words_newest_first_includes(st.words, st.words[k].lang_id, k);
}

/// A word added under a language is listed first for that language, ahead
/// of the words that were there before.
pub proof fn law_added_word_listed_first(before: RepoState, w: Word)
    ensures
        words_newest_first(before.word_added(w).words, w.lang_id) == seq![w] + words_newest_first(
            before.words,
            w.lang_id,
        ),
        words_newest_first(before.word_added(w).words, w.lang_id).contains(w),
{
    let after = before.words.push(w);
    assert(after.drop_last() =~= before.words);
    let v = words_newest_first(after, w.lang_id);
    assert(v[0] == w);
}

} // verus!
