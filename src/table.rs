use vstd::prelude::*;

use crate::outcome::{deletion_outcome, row_outcome, StoreError};
use crate::source::{now_micros, random_id};
use crate::prompt::{Prompt, PromptView};

verus! {

/// A table of prompts, keyed by id.
pub type PromptMap = Map<u128, PromptView>;

/// Whether some row of `rows` has the id `k`.
pub open spec fn holds_id(rows: Seq<Prompt>, k: u128) -> bool {
    exists|i: int| 0 <= i < rows.len() && (#[trigger] rows[i]).id == k
}

/// No two rows of `rows` share an id.
pub open spec fn ids_distinct(rows: Seq<Prompt>) -> bool {
    forall|i: int, j: int|
        0 <= i < rows.len() && 0 <= j < rows.len() && i != j ==> (#[trigger] rows[i]).id
            != (#[trigger] rows[j]).id
}

/// The table that `rows` stands for: each id present maps to its row.
pub open spec fn table_of(rows: Seq<Prompt>) -> PromptMap {
    Map::new(
        |k: u128| holds_id(rows, k),
        |k: u128| rows[choose|i: int| 0 <= i < rows.len() && (#[trigger] rows[i]).id == k]@,
    )
}

/// Each prompt of `t` is stored under its own id.
pub open spec fn keyed_by_id(t: PromptMap) -> bool {
    forall|k: u128| #[trigger] t.contains_key(k) ==> t[k].id == k
}

/// The prompt that `id` names in `t`, if any.
pub open spec fn lookup(t: PromptMap, id: u128) -> Option<PromptView> {
    if t.contains_key(id) {
        Some(t[id])
    } else {
        None
    }
}

/// The table after a prompt is inserted under a fresh id.
pub open spec fn after_create(
    t: PromptMap,
    id: u128,
    title: Seq<char>,
    content: Seq<char>,
    created_at: i64,
) -> PromptMap {
    t.insert(id, PromptView { id, title, content, created_at })
}

/// The prompt that an update of `id` leaves: new title and content, the same
/// id and creation time.
pub open spec fn updated(old: PromptView, title: Seq<char>, content: Seq<char>) -> PromptView {
    PromptView { id: old.id, title, content, created_at: old.created_at }
}

/// The table after an update of `id`; unchanged where `id` is absent.
pub open spec fn after_update(
    t: PromptMap,
    id: u128,
    title: Seq<char>,
    content: Seq<char>,
) -> PromptMap {
    if t.contains_key(id) {
        t.insert(id, updated(t[id], title, content))
    } else {
        t
    }
}

/// The table after a delete of `id`; unchanged where `id` is absent.
pub open spec fn after_delete(t: PromptMap, id: u128) -> PromptMap {
    t.remove(id)
}

/// `listed` holds each prompt of `t` exactly once, in any order.
pub open spec fn lists_table(listed: Seq<PromptView>, t: PromptMap) -> bool {
    &&& listed.len() == t.len()
    &&& forall|i: int, j: int|
        0 <= i < listed.len() && 0 <= j < listed.len() && i != j ==> (#[trigger] listed[i]).id
            != (#[trigger] listed[j]).id
    &&& forall|i: int|
        0 <= i < listed.len() ==> t.contains_key((#[trigger] listed[i]).id) && t[listed[i].id]
            == listed[i]
    &&& forall|k: u128|
        t.contains_key(k) ==> exists|i: int| 0 <= i < listed.len() && (#[trigger] listed[i]).id == k
}

/// The description of the failure to store a second row under one id.
pub open spec fn duplicate_id_spec() -> Seq<char> {
    "duplicate key value violates unique constraint on id"@
}

/// The description of the failure to store a second row under one id.
pub fn duplicate_id_text() -> (r: String)
    ensures
        r@ == duplicate_id_spec(),
{
    proof {
        reveal_strlit("duplicate key value violates unique constraint on id");
    }
    String::from_str("duplicate key value violates unique constraint on id")
}

/// Prompts held in memory, each under its own id. The table's order of rows
/// means nothing.
pub struct PromptTable {
    rows: Vec<Prompt>,
}

impl View for PromptTable {
    type V = PromptMap;

    closed spec fn view(&self) -> PromptMap {
        table_of(self.rows@)
    }
}

proof fn lemma_row_in_table(rows: Seq<Prompt>, i: int)
    requires
        ids_distinct(rows),
        0 <= i < rows.len(),
    ensures
        table_of(rows).contains_key(rows[i].id),
        table_of(rows)[rows[i].id] == rows[i]@,
{
    let k = rows[i].id;
    assert(holds_id(rows, k));
    let j = choose|j: int| 0 <= j < rows.len() && (#[trigger] rows[j]).id == k;
    assert(j == i);
}


proof fn lemma_table_is(rows: Seq<Prompt>, t: PromptMap)
    requires
        ids_distinct(rows),
        forall|k: u128| #[trigger] t.contains_key(k) <==> holds_id(rows, k),
        forall|i: int| 0 <= i < rows.len() ==> t[(#[trigger] rows[i]).id] == rows[i]@,
    ensures
        table_of(rows) == t,
{
    assert forall|k: u128| #[trigger] table_of(rows).contains_key(k) implies table_of(rows)[k]
        == t[k] by {
        let i = choose|i: int| 0 <= i < rows.len() && (#[trigger] rows[i]).id == k;
        lemma_row_in_table(rows, i);
    }
    assert(table_of(rows) =~= t);
}

proof fn lemma_push(rows: Seq<Prompt>, p: Prompt)
    requires
        ids_distinct(rows),
        !holds_id(rows, p.id),
    ensures
        ids_distinct(rows.push(p)),
        table_of(rows.push(p)) == table_of(rows).insert(p.id, p@),
{
    let s = rows.push(p);
    let t = table_of(rows).insert(p.id, p@);
    assert(s[rows.len() as int] == p);
    assert forall|i: int, j: int|
        0 <= i < s.len() && 0 <= j < s.len() && i != j implies (#[trigger] s[i]).id
        != (#[trigger] s[j]).id by {
        if i < rows.len() {
            assert(s[i] == rows[i]);
        }
        if j < rows.len() {
            assert(s[j] == rows[j]);
        }
    }
    assert forall|k: u128| #[trigger] t.contains_key(k) <==> holds_id(s, k) by {
        if holds_id(rows, k) {
            let i = choose|i: int| 0 <= i < rows.len() && (#[trigger] rows[i]).id == k;
            assert(s[i] == rows[i]);
        }
        if holds_id(s, k) && k != p.id {
            let i = choose|i: int| 0 <= i < s.len() && (#[trigger] s[i]).id == k;
            assert(s[i] == rows[i]);
        }
    }
    assert forall|i: int| 0 <= i < s.len() implies t[(#[trigger] s[i]).id] == s[i]@ by {
        if i < rows.len() {
            assert(s[i] == rows[i]);
            lemma_row_in_table(rows, i);
        }
    }
    lemma_table_is(s, t);
}

proof fn lemma_replace(rows: Seq<Prompt>, i: int, q: Prompt)
    requires
        ids_distinct(rows),
        0 <= i < rows.len(),
        q.id == rows[i].id,
    ensures
        ids_distinct(rows.update(i, q)),
        table_of(rows.update(i, q)) == table_of(rows).insert(q.id, q@),
{
    let s = rows.update(i, q);
    let t = table_of(rows).insert(q.id, q@);
    assert forall|a: int, b: int|
        0 <= a < s.len() && 0 <= b < s.len() && a != b implies (#[trigger] s[a]).id
        != (#[trigger] s[b]).id by {
        assert(s[a].id == rows[a].id);
        assert(s[b].id == rows[b].id);
    }
    assert forall|k: u128| #[trigger] t.contains_key(k) <==> holds_id(s, k) by {
        if holds_id(rows, k) {
            let j = choose|j: int| 0 <= j < rows.len() && (#[trigger] rows[j]).id == k;
            assert(s[j].id == rows[j].id);
        }
        if holds_id(s, k) {
            let j = choose|j: int| 0 <= j < s.len() && (#[trigger] s[j]).id == k;
            assert(s[j].id == rows[j].id);
        }
        if k == q.id {
            assert(s[i] == q);
        }
    }
    assert forall|j: int| 0 <= j < s.len() implies t[(#[trigger] s[j]).id] == s[j]@ by {
        if j != i {
            assert(s[j] == rows[j]);
            lemma_row_in_table(rows, j);
        }
    }
    lemma_table_is(s, t);
}

proof fn lemma_remove(rows: Seq<Prompt>, i: int)
    requires
        ids_distinct(rows),
        0 <= i < rows.len(),
    ensures
        ids_distinct(rows.remove(i)),
        table_of(rows.remove(i)) == table_of(rows).remove(rows[i].id),
{
    let s = rows.remove(i);
    let id = rows[i].id;
    let t = table_of(rows).remove(id);
    assert forall|a: int| 0 <= a < s.len() implies #[trigger] s[a] == rows[if a < i {
        a
    } else {
        a + 1
    }] by {}
    assert forall|a: int, b: int|
        0 <= a < s.len() && 0 <= b < s.len() && a != b implies (#[trigger] s[a]).id
        != (#[trigger] s[b]).id by {
        let a1 = if a < i { a } else { a + 1 };
        let b1 = if b < i { b } else { b + 1 };
        assert(s[a] == rows[a1]);
        assert(s[b] == rows[b1]);
    }
    assert forall|k: u128| #[trigger] t.contains_key(k) <==> holds_id(s, k) by {
        if holds_id(rows, k) && k != id {
            let j = choose|j: int| 0 <= j < rows.len() && (#[trigger] rows[j]).id == k;
            assert(j != i);
            let j1 = if j < i { j } else { j - 1 };
            assert(s[j1] == rows[j]);
        }
        if holds_id(s, k) {
            let j = choose|j: int| 0 <= j < s.len() && (#[trigger] s[j]).id == k;
            let j1 = if j < i { j } else { j + 1 };
            assert(s[j] == rows[j1]);
            assert(j1 != i);
        }
    }
    assert forall|j: int| 0 <= j < s.len() implies t[(#[trigger] s[j]).id] == s[j]@ by {
        let j1 = if j < i { j } else { j + 1 };
        assert(s[j] == rows[j1]);
        lemma_row_in_table(rows, j1);
    }
    lemma_table_is(s, t);
}


proof fn lemma_lists_rows(rows: Seq<Prompt>, listed: Seq<PromptView>)
    requires
        ids_distinct(rows),
        listed.len() == rows.len(),
        forall|j: int| 0 <= j < rows.len() ==> #[trigger] listed[j] == rows[j]@,
    ensures
        lists_table(listed, table_of(rows)),
{
    let t = table_of(rows);
    let ids = rows.map_values(|p: Prompt| p.id);
    assert forall|j: int| 0 <= j < rows.len() implies t.contains_key((#[trigger] listed[j]).id)
        && t[listed[j].id] == listed[j] by {
        lemma_row_in_table(rows, j);
    }
    assert forall|k: u128| t.contains_key(k) implies exists|i: int|
        0 <= i < listed.len() && (#[trigger] listed[i]).id == k by {
        let i = choose|i: int| 0 <= i < rows.len() && (#[trigger] rows[i]).id == k;
        assert(listed[i].id == k);
    }
    assert forall|i: int, j: int|
        0 <= i < listed.len() && 0 <= j < listed.len() && i != j implies (#[trigger] listed[i]).id
        != (#[trigger] listed[j]).id by {
        assert(listed[i].id == rows[i].id);
        assert(listed[j].id == rows[j].id);
    }
    assert(ids.no_duplicates()) by {
        assert forall|i: int, j: int|
            0 <= i < ids.len() && 0 <= j < ids.len() && i != j implies ids[i] != ids[j] by {
            assert(ids[i] == rows[i].id);
            assert(ids[j] == rows[j].id);
        }
    }
    assert forall|k: u128| #[trigger] t.dom().contains(k) <==> ids.to_set().contains(k) by {
        if t.dom().contains(k) {
            let i = choose|i: int| 0 <= i < rows.len() && (#[trigger] rows[i]).id == k;
            assert(ids[i] == k);
        }
        if ids.to_set().contains(k) {
            let i = choose|i: int| 0 <= i < ids.len() && ids[i] == k;
            assert(rows[i].id == k);
        }
    }
    assert(t.dom() =~= ids.to_set());
    ids.unique_seq_to_set();
}

impl PromptTable {
    /// The rows are well formed: no two share an id.
    pub closed spec fn wf(&self) -> bool {
        ids_distinct(self.rows@)
    }

    /// A well-formed table stores each prompt under its own id.
    pub proof fn lemma_keyed_by_id(&self)
        requires
            self.wf(),
        ensures
            keyed_by_id(self@),
    {
        assert forall|k: u128| #[trigger] self@.contains_key(k) implies self@[k].id == k by {
            let i = choose|i: int| 0 <= i < self.rows@.len() && (#[trigger] self.rows@[i]).id == k;
            lemma_row_in_table(self.rows@, i);
        }
    }

    /// An empty table.
    pub fn new() -> (r: PromptTable)
        ensures
            r.wf(),
            r@ == PromptMap::empty(),
    {
        let r = PromptTable { rows: Vec::new() };
        assert(r@ =~= PromptMap::empty());
        r
    }

    /// The position of the row with id `id`, if there is one.
    fn position_of(&self, id: u128) -> (r: Option<usize>)
        requires
            self.wf(),
        ensures
            match r {
                Some(i) => i < self.rows@.len() && self.rows@[i as int].id == id,
                None => !self@.contains_key(id),
            },
    {
        let mut i: usize = 0;
        while i < self.rows.len()
            invariant
                i <= self.rows@.len(),
                forall|j: int| 0 <= j < i ==> (#[trigger] self.rows@[j]).id != id,
            decreases self.rows@.len() - i,
        {
            if self.rows[i].id == id {
                return Some(i);
            }
            i = i + 1;
        }
        None
    }

    /// The prompt stored under `id`, if any.
    fn find(&self, id: u128) -> (r: Option<Prompt>)
        requires
            self.wf(),
        ensures
            match r {
                Some(p) => lookup(self@, id) == Some(p@),
                None => lookup(self@, id) == None::<PromptView>,
            },
    {
        match self.position_of(id) {
            Some(i) => {
                proof {
                    lemma_row_in_table(self.rows@, i as int);
                }
                Some(self.rows[i].duplicate())
            },
            None => None,
        }
    }

    /// The prompt stored under `id`; `NotFound` where there is none.
    pub fn get(&self, id: u128) -> (r: Result<Prompt, StoreError>)
        requires
            self.wf(),
        ensures
            match r {
                Ok(p) => lookup(self@, id) == Some(p@),
                Err(e) => lookup(self@, id) == None::<PromptView> && e == StoreError::NotFound,
            },
    {
        row_outcome(Ok(self.find(id)))
    }

    /// Stores a prompt under `id`, created at `created_at`. An id already
    /// present is a storage failure (the key must be unique), and the table is
    /// left as it was.
    pub fn insert_row(
        &mut self,
        id: u128,
        title: String,
        content: String,
        created_at: i64,
    ) -> (r: Result<Prompt, StoreError>)
        requires
            old(self).wf(),
        ensures
            final(self).wf(),
            match r {
                Ok(p) => {
                    &&& !old(self)@.contains_key(id)
                    &&& p@ == (PromptView { id, title: title@, content: content@, created_at })
                    &&& final(self)@ == after_create(old(self)@, id, title@, content@, created_at)
                },
                Err(e) => {
                    &&& old(self)@.contains_key(id)
                    &&& e is Persistence
                    &&& e->Persistence_0@ == duplicate_id_spec()
                    &&& final(self)@ == old(self)@
                },
            },
    {
        match self.position_of(id) {
            Some(i) => {
                proof {
                    lemma_row_in_table(self.rows@, i as int);
                }
                Err(StoreError::Persistence(duplicate_id_text()))
            },
            None => {
                let p = Prompt { id, title, content, created_at };
                let r = p.duplicate();
                proof {
                    lemma_push(self.rows@, p);
                }
                self.rows.push(p);
                Ok(r)
            },
        }
    }
    /// Inserts a prompt under a fresh random id, created now. Where the id
    /// drawn is taken already, the insert fails as a storage failure and the
    /// table is left as it was; on an empty table it always succeeds.
    pub fn create(&mut self, title: String, content: String) -> (r: Result<Prompt, StoreError>)
        requires
            old(self).wf(),
        ensures
            final(self).wf(),
            match r {
                Ok(p) => {
                    &&& !old(self)@.contains_key(p.id)
                    &&& p.title@ == title@
                    &&& p.content@ == content@
                    &&& final(self)@ == after_create(
                        old(self)@,
                        p.id,
                        title@,
                        content@,
                        p.created_at,
                    )
                },
                Err(e) => {
                    &&& e is Persistence
                    &&& e->Persistence_0@ == duplicate_id_spec()
                    &&& old(self)@ != PromptMap::empty()
                    &&& final(self)@ == old(self)@
                },
            },
            old(self)@ == PromptMap::empty() ==> r is Ok,
    {
        let id = random_id();
        let created_at = now_micros();
        self.insert_row(id, title, content, created_at)
    }

    /// Every stored prompt, once each, in no particular order.
    pub fn list(&self) -> (r: Vec<Prompt>)
        requires
            self.wf(),
        ensures
            lists_table(r@.map_values(|p: Prompt| p@), self@),
    {
        let mut r: Vec<Prompt> = Vec::new();
        let mut i: usize = 0;
        while i < self.rows.len()
            invariant
                i <= self.rows@.len(),
                r@.len() == i,
                forall|j: int| 0 <= j < i ==> (#[trigger] r@[j])@ == self.rows@[j]@,
            decreases self.rows@.len() - i,
        {
            r.push(self.rows[i].duplicate());
            i = i + 1;
        }
        proof {
            lemma_lists_rows(self.rows@, r@.map_values(|p: Prompt| p@));
        }
        r
    }

    /// Replaces the title and content of the prompt under `id`, keeping its id
    /// and creation time; `NotFound` where there is none, the table unchanged.
    pub fn update(
        &mut self,
        id: u128,
        title: String,
        content: String,
    ) -> (r: Result<Prompt, StoreError>)
        requires
            old(self).wf(),
        ensures
            final(self).wf(),
            final(self)@ == after_update(old(self)@, id, title@, content@),
            match r {
                Ok(p) => old(self)@.contains_key(id) && p@ == updated(
                    old(self)@[id],
                    title@,
                    content@,
                ),
                Err(e) => !old(self)@.contains_key(id) && e == StoreError::NotFound,
            },
    {
        let found = match self.position_of(id) {
            Some(i) => {
                proof {
                    lemma_row_in_table(self.rows@, i as int);
                }
                let q = Prompt { id, title, content, created_at: self.rows[i].created_at };
                let r = q.duplicate();
                proof {
                    lemma_replace(self.rows@, i as int, q);
                }
                self.rows.set(i, q);
                Some(r)
            },
            None => None,
        };
        row_outcome(Ok(found))
    }

    /// Removes the prompt under `id`; `NotFound` where there is none, the
    /// table unchanged.
    pub fn delete(&mut self, id: u128) -> (r: Result<(), StoreError>)
        requires
            old(self).wf(),
        ensures
            final(self).wf(),
            final(self)@ == after_delete(old(self)@, id),
            match r {
                Ok(_) => old(self)@.contains_key(id),
                Err(e) => !old(self)@.contains_key(id) && e == StoreError::NotFound,
            },
    {
        let removed: u64 = match self.position_of(id) {
            Some(i) => {
                proof {
                    lemma_remove(self.rows@, i as int);
                }
                self.rows.remove(i);
                1
            },
            None => {
                assert(self@.remove(id) =~= self@);
                0
            },
        };
        deletion_outcome(Ok(removed))
    }
}

} // verus!
