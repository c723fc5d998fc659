use lexicon::error::RepositoryError;
use lexicon::handler::{
    add_lang, add_word, all_lang, all_word, delete_lang, delete_word, respond_created,
    respond_deleted, respond_listed, respond_updated, update_lang, update_word, Status,
};
use lexicon::memory::MemoryRepository;
use lexicon::model::{AddLang, AddWord, Lang, UpdateLang, UpdateWord, Word};
use lexicon::store::{classify_fault, delete_outcome, keyed_outcome, unkeyed_outcome, StoreFault};

#[test]
fn status_codes() {
    assert_eq!(Status::Success.as_u16(), 200);
    assert_eq!(Status::Created.as_u16(), 201);
    assert_eq!(Status::NoContent.as_u16(), 204);
    assert_eq!(Status::NotFound.as_u16(), 404);
    assert_eq!(Status::InternalServerError.as_u16(), 500);
}

#[test]
fn outcomes_map_to_statuses() {
    assert_eq!(respond_created::<i32>(Ok(5)), Ok((Status::Created, 5)));
    assert_eq!(respond_created::<i32>(Err(RepositoryError::NotFound(1))), Err(Status::NotFound));
    assert_eq!(respond_updated::<i32>(Ok(5)), Ok((Status::Success, 5)));
    assert_eq!(
        respond_updated::<i32>(Err(RepositoryError::Unexpected("down".to_string()))),
        Err(Status::NotFound)
    );
    assert_eq!(respond_deleted(Ok(())), Status::NoContent);
    assert_eq!(respond_deleted(Err(RepositoryError::NotFound(2))), Status::NotFound);
    assert_eq!(respond_listed::<i32>(Ok(vec![3, 2])), Ok((Status::Success, vec![3, 2])));
    assert_eq!(
        respond_listed::<i32>(Err(RepositoryError::Unexpected("down".to_string()))),
        Err(Status::InternalServerError)
    );
}

#[test]
fn handlers_over_memory_repository() {
    let mut repo = MemoryRepository::new();
    let created = add_lang(AddLang { name: "Spanish".to_string() }, &mut repo);
    assert_eq!(created, Ok((Status::Created, Lang { id: 1, name: "Spanish".to_string() })));
    let listed = all_lang(&repo);
    assert_eq!(listed, Ok((Status::Success, vec![Lang { id: 1, name: "Spanish".to_string() }])));
    let renamed = update_lang(1, UpdateLang { name: "Castilian".to_string() }, &mut repo);
    assert_eq!(renamed, Ok((Status::Success, Lang { id: 1, name: "Castilian".to_string() })));
    assert_eq!(update_lang(8, UpdateLang { name: "x".to_string() }, &mut repo), Err(Status::NotFound));

    let hola = add_word(1, AddWord { name: "hola".to_string(), means: "hello".to_string() }, &mut repo);
    let expected = Word { id: 1, name: "hola".to_string(), means: "hello".to_string(), lang_id: 1 };
    assert_eq!(hola, Ok((Status::Created, expected.clone())));
    assert_eq!(
        add_word(6, AddWord { name: "a".to_string(), means: "b".to_string() }, &mut repo),
        Err(Status::NotFound)
    );
    assert_eq!(all_word(1, &repo), Ok((Status::Success, vec![expected])));
    let changed = update_word(1, 1, UpdateWord { name: "ola".to_string(), means: "wave".to_string() }, &mut repo);
    assert_eq!(
        changed,
        Ok((Status::Success, Word { id: 1, name: "ola".to_string(), means: "wave".to_string(), lang_id: 1 }))
    );
    assert_eq!(delete_lang(1, &mut repo), Status::NotFound);
    assert_eq!(delete_word(2, 1, &mut repo), Status::NotFound);
    assert_eq!(delete_word(1, 1, &mut repo), Status::NoContent);
    assert_eq!(delete_lang(1, &mut repo), Status::NoContent);
    assert_eq!(all_lang(&repo), Ok((Status::Success, vec![])));
}

#[test]
fn store_faults_are_classified() {
    assert_eq!(classify_fault(4, StoreFault::RowNotFound), RepositoryError::NotFound(4));
    assert_eq!(
        classify_fault(4, StoreFault::Other("refused".to_string())),
        RepositoryError::Unexpected("refused".to_string())
    );
    assert_eq!(keyed_outcome::<i32>(3, Ok(9)), Ok(9));
    assert_eq!(keyed_outcome::<i32>(3, Err(StoreFault::RowNotFound)), Err(RepositoryError::NotFound(3)));
    assert_eq!(unkeyed_outcome::<i32>(Ok(9)), Ok(9));
    assert!(matches!(unkeyed_outcome::<i32>(Err(StoreFault::RowNotFound)), Err(RepositoryError::Unexpected(_))));
    assert_eq!(
        unkeyed_outcome::<i32>(Err(StoreFault::Other("lost".to_string()))),
        Err(RepositoryError::Unexpected("lost".to_string()))
    );
}

#[test]
fn delete_of_zero_rows_is_not_found() {
    assert_eq!(delete_outcome(7, Ok(0)), Err(RepositoryError::NotFound(7)));
    assert_eq!(delete_outcome(7, Ok(1)), Ok(()));
    assert_eq!(delete_outcome(7, Err(StoreFault::RowNotFound)), Err(RepositoryError::NotFound(7)));
    assert_eq!(
        delete_outcome(7, Err(StoreFault::Other("fk".to_string()))),
        Err(RepositoryError::Unexpected("fk".to_string()))
    );
}
