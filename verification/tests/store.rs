use book_store::book::BookPayload;
use book_store::book::Error;
use book_store::store::BookStore;

fn payload(title: &str, author: &str, summary: &str, store_name: &str) -> BookPayload {
    BookPayload {
        title: String::from(title),
        author: String::from(author),
        summary: String::from(summary),
        store_name: String::from(store_name),
    }
}

#[test]
fn create_then_read_roundtrip() {
    let mut store = BookStore::new();
    let created = store
        .add_book(payload("Dune", "Herbert", "sand", "S1"), 100)
        .unwrap();
    let read = store.get_book(created.id).unwrap();
    assert_eq!(read, created);
}

#[test]
fn create_assigns_first_id_and_stamps_creation() {
    let mut store = BookStore::new();
    let created = store
        .add_book(payload("Dune", "Herbert", "sand", "S1"), 100)
        .unwrap();
    assert_eq!(created.id, 1);
    assert_eq!(created.title, "Dune");
    assert_eq!(created.author, "Herbert");
    assert_eq!(created.summary, "sand");
    assert_eq!(created.store_name, "S1");
    assert_eq!(created.created_at, 100);
    assert_eq!(created.updated_at, None);
}

#[test]
fn sequential_creates_mint_successive_ids() {
    let mut store = BookStore::new();
    let mut ids: Vec<u64> = Vec::new();
    let mut i: u64 = 0;
    while i < 5 {
        let b = store
            .add_book(payload("t", "a", "s", "n"), 10 + i)
            .unwrap();
        ids.push(b.id);
        i += 1;
    }
    assert_eq!(ids, vec![1, 2, 3, 4, 5]);
    assert_eq!(store.current_counter(), 5);
}

#[test]
fn ids_are_not_reused_after_delete() {
    let mut store = BookStore::new();
    let first = store.add_book(payload("a", "b", "c", "d"), 1).unwrap();
    store.delete_book(first.id).unwrap();
    let second = store.add_book(payload("e", "f", "g", "h"), 2).unwrap();
    assert_ne!(second.id, first.id);
    assert_eq!(second.id, 2);
}

#[test]
fn full_lifecycle_scenario() {
    let mut store = BookStore::new();
    let created = store
        .add_book(payload("Dune", "Herbert", "...", "S1"), 100)
        .unwrap();
    assert_eq!(created.id, 1);
    assert_eq!(created.created_at, 100);
    assert_eq!(created.updated_at, None);

    let updated = store
        .update_book(1, payload("Dune (rev)", "Herbert", "...", "S1"), 200)
        .unwrap();
    assert_eq!(updated.id, 1);
    assert_eq!(updated.title, "Dune (rev)");
    assert_eq!(updated.updated_at, Some(200));
    assert_eq!(updated.created_at, 100);

    let removed = store.delete_book(1).unwrap();
    assert_eq!(removed, updated);

    match store.get_book(1) {
        Err(Error::NotFound { msg }) => assert!(msg.contains("1")),
        Ok(_) => panic!("record survived its deletion"),
    }
}

#[test]
fn opened_store_runs_the_full_lifecycle() {
    let mut store = BookStore::open();
    match store.get_book(1) {
        Err(Error::NotFound { msg }) => assert_eq!(msg, "a book with id=1 not found"),
        Ok(_) => panic!("store opened over fresh memory held a record"),
    }
    let created = store.add_book(payload("t", "a", "s", "n"), 3).unwrap();
    assert_eq!(created.id, 1);
    assert_eq!(store.get_book(1).unwrap(), created);
}

#[test]
fn oversized_update_of_missing_id_is_not_found() {
    let mut store = BookStore::new();
    match store.update_book(5, payload(&"x".repeat(2000), "a", "s", "n"), 1) {
        Err(Error::NotFound { msg }) => {
            assert_eq!(msg, "couldn't update a book with id=5. message not found");
        },
        Ok(_) => panic!("updated a record that does not exist"),
    }
}

#[test]
fn read_on_empty_store_is_not_found() {
    let store = BookStore::new();
    match store.get_book(999) {
        Err(Error::NotFound { msg }) => {
            assert_eq!(msg, "a book with id=999 not found");
        },
        Ok(_) => panic!("empty store returned a record"),
    }
}

#[test]
fn update_preserves_id_and_created_at() {
    let mut store = BookStore::new();
    store.add_book(payload("t", "a", "s", "n"), 7).unwrap();
    let updated = store
        .update_book(1, payload("t2", "a2", "s2", "n2"), 9)
        .unwrap();
    assert_eq!(updated.id, 1);
    assert_eq!(updated.created_at, 7);
    assert_eq!(updated.title, "t2");
    assert_eq!(updated.author, "a2");
    assert_eq!(updated.summary, "s2");
    assert_eq!(updated.store_name, "n2");
    assert_eq!(updated.updated_at, Some(9));
    let read = store.get_book(1).unwrap();
    assert_eq!(read, updated);
}

#[test]
fn repeated_updates_restamp_update_time() {
    let mut store = BookStore::new();
    store.add_book(payload("t", "a", "s", "n"), 1).unwrap();
    store.update_book(1, payload("u", "a", "s", "n"), 5).unwrap();
    let second = store.update_book(1, payload("v", "a", "s", "n"), 8).unwrap();
    assert_eq!(second.updated_at, Some(8));
    assert_eq!(second.created_at, 1);
}

#[test]
fn update_missing_id_is_not_found() {
    let mut store = BookStore::new();
    match store.update_book(4, payload("t", "a", "s", "n"), 3) {
        Err(Error::NotFound { msg }) => {
            assert_eq!(msg, "couldn't update a book with id=4. message not found");
        },
        Ok(_) => panic!("updated a record that does not exist"),
    }
}

#[test]
fn delete_missing_id_is_not_found_and_changes_nothing() {
    let mut store = BookStore::new();
    let kept = store.add_book(payload("t", "a", "s", "n"), 1).unwrap();
    match store.delete_book(8) {
        Err(Error::NotFound { msg }) => {
            assert_eq!(msg, "couldn't delete a book with id=8. book not found.");
        },
        Ok(_) => panic!("deleted a record that does not exist"),
    }
    assert_eq!(store.get_book(kept.id).unwrap(), kept);
}

#[test]
fn delete_returns_last_stored_record() {
    let mut store = BookStore::new();
    store.add_book(payload("t", "a", "s", "n"), 1).unwrap();
    let updated = store.update_book(1, payload("u", "b", "c", "d"), 2).unwrap();
    let removed = store.delete_book(1).unwrap();
    assert_eq!(removed, updated);
    assert!(store.get_book(1).is_err());
}

#[test]
fn operations_touch_only_their_own_id() {
    let mut store = BookStore::new();
    let one = store.add_book(payload("t1", "a", "s", "n"), 1).unwrap();
    let two = store.add_book(payload("t2", "a", "s", "n"), 2).unwrap();
    store.update_book(two.id, payload("t2x", "a", "s", "n"), 3).unwrap();
    assert_eq!(store.get_book(one.id).unwrap(), one);
    store.delete_book(one.id).unwrap();
    let still = store.get_book(two.id).unwrap();
    assert_eq!(still.title, "t2x");
}
