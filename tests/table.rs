use prompt_store::{
    deletion_outcome, not_found_text, row_outcome, storage_outcome, success_status,
    duplicate_id_text, Operation, Prompt, PromptTable, StoreError,
};

fn s(text: &str) -> String {
    text.to_string()
}

#[test]
fn create_then_get_returns_the_same_prompt() {
    let mut t = PromptTable::new();
    let p = t.create(s("A"), s("B")).unwrap();
    assert_eq!(p.title, "A");
    assert_eq!(p.content, "B");
    // later than 2020-09-13, in microseconds since the Unix epoch
    assert!(p.created_at > 1_600_000_000_000_000);
    let g = t.get(p.id).unwrap();
    assert_eq!(g, p);
    let again = t.get(p.id).unwrap();
    assert_eq!(again.created_at, p.created_at);
}

#[test]
fn create_draws_a_version_four_id() {
    let mut t = PromptTable::new();
    let p = t.create(s("A"), s("B")).unwrap();
    assert_eq!((p.id >> 76) & 0xf, 4);
    assert_eq!((p.id >> 62) & 0x3, 2);
    assert!(p.created_at >= 0);
}

#[test]
fn create_accepts_empty_strings() {
    let mut t = PromptTable::new();
    let p = t.create(s(""), s("")).unwrap();
    assert_eq!(t.get(p.id).unwrap(), p);
}

#[test]
fn create_draws_distinct_ids() {
    let mut t = PromptTable::new();
    let a = t.create(s("A"), s("B")).unwrap();
    let b = t.create(s("A"), s("B")).unwrap();
    assert_ne!(a.id, b.id);
}

#[test]
fn update_keeps_id_and_creation_time() {
    let mut t = PromptTable::new();
    let p = t.create(s("A"), s("B")).unwrap();
    let u = t.update(p.id, s("C"), s("D")).unwrap();
    assert_eq!(u.id, p.id);
    assert_eq!(u.title, "C");
    assert_eq!(u.content, "D");
    assert_eq!(u.created_at, p.created_at);
    assert_eq!(t.get(p.id).unwrap(), u);
}

#[test]
fn delete_is_terminal() {
    let mut t = PromptTable::new();
    let p = t.create(s("A"), s("B")).unwrap();
    assert_eq!(t.delete(p.id), Ok(()));
    assert_eq!(t.get(p.id), Err(StoreError::NotFound));
    assert_eq!(t.update(p.id, s("C"), s("D")), Err(StoreError::NotFound));
    assert_eq!(t.delete(p.id), Err(StoreError::NotFound));
    assert!(t.list().is_empty());
}

#[test]
fn list_of_empty_table_is_empty() {
    let t = PromptTable::new();
    assert!(t.list().is_empty());
}

#[test]
fn list_holds_every_created_prompt() {
    let mut t = PromptTable::new();
    let mut created: Vec<Prompt> = Vec::new();
    for i in 0..5 {
        created.push(t.create(format!("title {}", i), format!("content {}", i)).unwrap());
    }
    let listed = t.list();
    assert_eq!(listed.len(), 5);
    for p in &created {
        assert_eq!(listed.iter().filter(|q| *q == p).count(), 1);
    }
}

#[test]
fn list_after_delete_leaves_the_others() {
    let mut t = PromptTable::new();
    t.insert_row(1, s("a"), s("x"), 100).unwrap();
    t.insert_row(2, s("b"), s("y"), 200).unwrap();
    t.insert_row(3, s("c"), s("z"), 300).unwrap();
    t.delete(2).unwrap();
    let mut ids: Vec<u128> = t.list().iter().map(|p| p.id).collect();
    ids.sort();
    assert_eq!(ids, vec![1, 3]);
}

#[test]
fn unknown_id_is_not_found() {
    let mut t = PromptTable::new();
    let p = t.create(s("A"), s("B")).unwrap();
    let unknown = p.id ^ 1;
    assert_eq!(t.get(unknown), Err(StoreError::NotFound));
    assert_eq!(t.update(unknown, s("C"), s("D")), Err(StoreError::NotFound));
    assert_eq!(t.delete(unknown), Err(StoreError::NotFound));
    assert_eq!(t.get(p.id).unwrap(), p);
}

#[test]
fn insert_row_stores_given_values() {
    let mut t = PromptTable::new();
    let p = t.insert_row(7, s("T"), s("C"), 1_700_000_000_000_000).unwrap();
    assert_eq!(
        p,
        Prompt { id: 7, title: s("T"), content: s("C"), created_at: 1_700_000_000_000_000 }
    );
    assert_eq!(t.get(7).unwrap(), p);
}

#[test]
fn insert_row_refuses_a_taken_id() {
    let mut t = PromptTable::new();
    t.insert_row(7, s("T"), s("C"), 1).unwrap();
    let r = t.insert_row(7, s("U"), s("D"), 2);
    assert_eq!(r, Err(StoreError::Persistence(duplicate_id_text())));
    let g = t.get(7).unwrap();
    assert_eq!(g.title, "T");
    assert_eq!(g.created_at, 1);
    assert_eq!(t.list().len(), 1);
}

#[test]
fn end_to_end_scenario() {
    let mut t = PromptTable::new();
    let created = storage_outcome(Ok(t.create(s("A"), s("B")).unwrap())).unwrap();
    assert_eq!(success_status(Operation::Create), 201);
    assert_eq!(created.title, "A");
    assert_eq!(created.content, "B");
    let got = t.get(created.id).unwrap();
    assert_eq!(success_status(Operation::Get), 200);
    assert_eq!(got, created);
    let updated = t.update(created.id, s("C"), s("D")).unwrap();
    assert_eq!(success_status(Operation::Update), 200);
    assert_eq!(updated.id, created.id);
    assert_eq!(updated.title, "C");
    assert_eq!(updated.content, "D");
    assert_eq!(updated.created_at, created.created_at);
    t.delete(created.id).unwrap();
    assert_eq!(success_status(Operation::Delete), 204);
    let e = t.get(created.id).unwrap_err();
    assert_eq!(e.status(), 404);
    assert_eq!(e.message(), "Prompt not found");
}

#[test]
fn success_statuses() {
    assert_eq!(success_status(Operation::Create), 201);
    assert_eq!(success_status(Operation::List), 200);
    assert_eq!(success_status(Operation::Get), 200);
    assert_eq!(success_status(Operation::Update), 200);
    assert_eq!(success_status(Operation::Delete), 204);
}

#[test]
fn error_statuses_and_messages() {
    assert_eq!(StoreError::NotFound.status(), 404);
    assert_eq!(StoreError::NotFound.message(), "Prompt not found");
    let e = StoreError::Persistence(s("connection refused"));
    assert_eq!(e.status(), 500);
    assert_eq!(e.message(), "connection refused");
    assert_eq!(not_found_text(), "Prompt not found");
}

#[test]
fn row_outcome_cases() {
    let p = Prompt { id: 9, title: s("t"), content: s("c"), created_at: 5 };
    assert_eq!(row_outcome(Ok(Some(p.clone()))), Ok(p));
    assert_eq!(row_outcome(Ok(None)), Err(StoreError::NotFound));
    assert_eq!(row_outcome(Err(s("boom"))), Err(StoreError::Persistence(s("boom"))));
}

#[test]
fn deletion_outcome_cases() {
    assert_eq!(deletion_outcome(Ok(1)), Ok(()));
    assert_eq!(deletion_outcome(Ok(0)), Err(StoreError::NotFound));
    assert_eq!(deletion_outcome(Err(s("boom"))), Err(StoreError::Persistence(s("boom"))));
}

#[test]
fn storage_outcome_cases() {
    assert_eq!(storage_outcome::<u32>(Ok(3)), Ok(3));
    assert_eq!(storage_outcome::<u32>(Err(s("down"))), Err(StoreError::Persistence(s("down"))));
}
