use lexicon::error::RepositoryError;
use lexicon::memory::MemoryRepository;
use lexicon::model::{AddLang, AddWord, Lang, UpdateLang, UpdateWord, Word};
use lexicon::repository::{LangRepository, WordRepository};

fn lang(name: &str) -> AddLang {
    AddLang { name: name.to_string() }
}

fn word(name: &str, means: &str) -> AddWord {
    AddWord { name: name.to_string(), means: means.to_string() }
}

#[test]
fn add_returns_payload_name_and_fresh_ids() {
    let mut repo = MemoryRepository::new();
    let a = repo.add_lang(lang("Spanish")).unwrap();
    let b = repo.add_lang(lang("French")).unwrap();
    assert_eq!(a, Lang { id: 1, name: "Spanish".to_string() });
    assert_eq!(b, Lang { id: 2, name: "French".to_string() });
    repo.delete_lang(2).unwrap();
    let c = repo.add_lang(lang("German")).unwrap();
    assert_eq!(c.id, 3);
}

#[test]
fn languages_listed_newest_first() {
    let mut repo = MemoryRepository::new();
    repo.add_lang(lang("A")).unwrap();
    repo.add_lang(lang("B")).unwrap();
    let names: Vec<String> = repo.all_langs().into_iter().map(|l| l.name).collect();
    assert_eq!(names, vec!["B".to_string(), "A".to_string()]);
    let via_trait = LangRepository::all(&repo).unwrap();
    assert_eq!(via_trait, vec![Lang { id: 2, name: "B".to_string() }, Lang { id: 1, name: "A".to_string() }]);
}

#[test]
fn empty_repository_lists_nothing() {
    let repo = MemoryRepository::new();
    assert!(repo.all_langs().is_empty());
    assert!(repo.all_words(1).is_empty());
}

#[test]
fn update_missing_language_is_not_found_and_changes_nothing() {
    let mut repo = MemoryRepository::new();
    repo.add_lang(lang("Spanish")).unwrap();
    let r = repo.update_lang(7, UpdateLang { name: "Italian".to_string() });
    assert_eq!(r, Err(RepositoryError::NotFound(7)));
    assert_eq!(repo.all_langs(), vec![Lang { id: 1, name: "Spanish".to_string() }]);
}

#[test]
fn update_language_renames_in_place() {
    let mut repo = MemoryRepository::new();
    repo.add_lang(lang("Spanish")).unwrap();
    repo.add_lang(lang("French")).unwrap();
    let r = LangRepository::update(&mut repo, 1, UpdateLang { name: "Castilian".to_string() });
    assert_eq!(r, Ok(Lang { id: 1, name: "Castilian".to_string() }));
    assert_eq!(
        repo.all_langs(),
        vec![Lang { id: 2, name: "French".to_string() }, Lang { id: 1, name: "Castilian".to_string() }]
    );
}

#[test]
fn delete_missing_language_is_not_found() {
    let mut repo = MemoryRepository::new();
    assert_eq!(repo.delete_lang(3), Err(RepositoryError::NotFound(3)));
}

#[test]
fn delete_language_with_words_is_refused() {
    let mut repo = MemoryRepository::new();
    repo.add_lang(lang("Spanish")).unwrap();
    repo.add_word(1, word("hola", "hello")).unwrap();
    assert!(matches!(repo.delete_lang(1), Err(RepositoryError::Unexpected(_))));
    assert_eq!(repo.all_langs().len(), 1);
}

#[test]
fn add_word_to_missing_language_is_unexpected() {
    let mut repo = MemoryRepository::new();
    assert!(matches!(repo.add_word(5, word("hola", "hello")), Err(RepositoryError::Unexpected(_))));
    assert!(repo.all_words(5).is_empty());
}

#[test]
fn delete_word_through_other_language_is_not_found() {
    let mut repo = MemoryRepository::new();
    repo.add_lang(lang("Spanish")).unwrap();
    repo.add_lang(lang("French")).unwrap();
    let w = repo.add_word(1, word("hola", "hello")).unwrap();
    let r = WordRepository::delete(&mut repo, 2, w.id);
    assert_eq!(r, Err(RepositoryError::NotFound(w.id)));
    assert_eq!(repo.all_words(1), vec![w]);
}

#[test]
fn added_word_is_listed() {
    let mut repo = MemoryRepository::new();
    repo.add_lang(lang("Spanish")).unwrap();
    repo.add_lang(lang("French")).unwrap();
    repo.add_word(2, word("bonjour", "hello")).unwrap();
    let w = WordRepository::add(&mut repo, 1, word("adios", "goodbye")).unwrap();
    let listed = WordRepository::all(&repo, 1).unwrap();
    assert!(listed.iter().any(|x| x.name == "adios" && x.means == "goodbye" && x.id == w.id));
    assert!(listed.iter().all(|x| x.lang_id == 1));
}

#[test]
fn words_listed_newest_first_per_language() {
    let mut repo = MemoryRepository::new();
    repo.add_lang(lang("Spanish")).unwrap();
    repo.add_lang(lang("French")).unwrap();
    repo.add_word(1, word("uno", "one")).unwrap();
    repo.add_word(2, word("deux", "two")).unwrap();
    repo.add_word(1, word("tres", "three")).unwrap();
    let ids: Vec<i32> = repo.all_words(1).into_iter().map(|w| w.id).collect();
    assert_eq!(ids, vec![3, 1]);
}

#[test]
fn update_word_moves_it_to_the_given_language() {
    let mut repo = MemoryRepository::new();
    repo.add_lang(lang("Spanish")).unwrap();
    repo.add_lang(lang("French")).unwrap();
    repo.add_word(1, word("hola", "hello")).unwrap();
    let r = repo.update_word(2, 1, UpdateWord { name: "salut".to_string(), means: "hi".to_string() });
    let moved = Word { id: 1, name: "salut".to_string(), means: "hi".to_string(), lang_id: 2 };
    assert_eq!(r, Ok(moved.clone()));
    assert!(repo.all_words(1).is_empty());
    assert_eq!(repo.all_words(2), vec![moved]);
}

#[test]
fn update_missing_word_is_not_found() {
    let mut repo = MemoryRepository::new();
    repo.add_lang(lang("Spanish")).unwrap();
    let r = repo.update_word(1, 9, UpdateWord { name: "x".to_string(), means: "y".to_string() });
    assert_eq!(r, Err(RepositoryError::NotFound(9)));
}

#[test]
fn update_word_into_missing_language_is_unexpected() {
    let mut repo = MemoryRepository::new();
    repo.add_lang(lang("Spanish")).unwrap();
    repo.add_word(1, word("hola", "hello")).unwrap();
    let r = repo.update_word(4, 1, UpdateWord { name: "x".to_string(), means: "y".to_string() });
    assert!(matches!(r, Err(RepositoryError::Unexpected(_))));
    assert_eq!(repo.all_words(1).len(), 1);
}

#[test]
fn spanish_hola_scenario() {
    let mut repo = MemoryRepository::new();
    let spanish = repo.add_lang(lang("Spanish")).unwrap();
    assert_eq!(spanish.id, 1);
    let hola = repo.add_word(1, word("hola", "hello")).unwrap();
    assert_eq!(hola.id, 1);
    assert_eq!(hola.lang_id, 1);
    let expected = Word { id: 1, name: "hola".to_string(), means: "hello".to_string(), lang_id: 1 };
    assert_eq!(repo.all_words(1), vec![expected]);
    assert_eq!(repo.delete_word(1, 1), Ok(()));
    assert!(repo.all_words(1).is_empty());
    assert_eq!(repo.delete_lang(1), Ok(()));
    assert!(repo.all_langs().is_empty());
}
