use vstd::prelude::*;

use crate::prompt::PromptView;
use crate::table::{
    after_create, after_delete, after_update, keyed_by_id, lists_table, lookup, PromptMap,
};

verus! {

/// The ids of `s`, in order.
pub open spec fn ids_of(s: Seq<PromptView>) -> Seq<u128> {
    s.map_values(|v: PromptView| v.id)
}

/// The table after the prompts of `s` were created in turn, starting from `t`.
pub open spec fn after_creates(t: PromptMap, s: Seq<PromptView>) -> PromptMap
    decreases s.len(),
{
    if s.len() == 0 {
        t
    } else {
        after_creates(t, s.drop_last()).insert(s.last().id, s.last())
    }
}

/// Each create in `s` succeeded: every one drew an id that no earlier one had.
pub open spec fn fresh_ids(s: Seq<PromptView>) -> bool {
    ids_of(s).no_duplicates()
}

/// A prompt created under a fresh id is found again under that id, with the
/// title, content and creation time it was stored with. Looking it up changes
/// nothing, so a second lookup finds the same creation time.
pub proof fn law_create_then_get(
    t: PromptMap,
    id: u128,
    title: Seq<char>,
    content: Seq<char>,
    created_at: i64,
)
    requires
        !t.contains_key(id),
    ensures
        lookup(after_create(t, id, title, content, created_at), id) == Some(
            PromptView { id, title, content, created_at },
        ),
{
}

/// An update of a stored prompt is seen by the next lookup: the new title and
/// content, under the same id and with the creation time first assigned.
pub proof fn law_update_then_get(t: PromptMap, id: u128, title: Seq<char>, content: Seq<char>)
    requires
        keyed_by_id(t),
        t.contains_key(id),
    ensures
        lookup(after_update(t, id, title, content), id) == Some(
            PromptView { id, title, content, created_at: t[id].created_at },
        ),
{
}

/// After a delete succeeds, the id names nothing: a lookup finds nothing, and
/// an update or a second delete finds nothing to change and changes nothing.
pub proof fn law_delete_is_terminal(t: PromptMap, id: u128, title: Seq<char>, content: Seq<char>)
    requires
        t.contains_key(id),
    ensures
        lookup(after_delete(t, id), id) == None::<PromptView>,
        !after_delete(t, id).contains_key(id),
        after_update(after_delete(t, id), id, title, content) == after_delete(t, id),
        after_delete(after_delete(t, id), id) == after_delete(t, id),
{
    assert(after_delete(after_delete(t, id), id) =~= after_delete(t, id));
}

proof fn lemma_after_creates(s: Seq<PromptView>)
    requires
        fresh_ids(s),
    ensures
        after_creates(PromptMap::empty(), s).dom() == ids_of(s).to_set(),
        forall|i: int|
            0 <= i < s.len() ==> after_creates(PromptMap::empty(), s)[(#[trigger] s[i]).id]
                == s[i],
    decreases s.len(),
{
    if s.len() > 0 {
        let p = s.drop_last();
        assert(ids_of(p) == ids_of(s).drop_last());
        assert(fresh_ids(p)) by {
            assert forall|i: int, j: int|
                0 <= i < ids_of(p).len() && 0 <= j < ids_of(p).len() && i != j implies ids_of(
                p,
            )[i] != ids_of(p)[j] by {
                assert(ids_of(p)[i] == ids_of(s)[i]);
                assert(ids_of(p)[j] == ids_of(s)[j]);
            }
        }
        lemma_after_creates(p);
        let t = after_creates(PromptMap::empty(), s);
        assert(ids_of(s) == ids_of(p).push(s.last().id));
        assert(ids_of(s).to_set() =~= ids_of(p).to_set().insert(s.last().id)) by {
            ids_of(p).lemma_push_to_set_commute(s.last().id);
        }
        assert forall|i: int| 0 <= i < s.len() implies t[(#[trigger] s[i]).id] == s[i] by {
            if i < p.len() {
                assert(s[i] == p[i]);
                assert(ids_of(s)[i] != ids_of(s)[s.len() - 1]);
            }
        }
    } else {
        assert(ids_of(s).to_set() =~= Set::<u128>::empty());
        assert(after_creates(PromptMap::empty(), s).dom() =~= Set::<u128>::empty());
    }
}

/// After prompts are created in turn, each under a fresh id, with no deletes,
/// a listing holds exactly as many entries as there were creates, each equal
/// to what one create stored, and the ids listed are the ids created.
pub proof fn law_list_after_creates(s: Seq<PromptView>, listed: Seq<PromptView>)
    requires
        fresh_ids(s),
        lists_table(listed, after_creates(PromptMap::empty(), s)),
    ensures
        listed.len() == s.len(),
        forall|i: int| 0 <= i < listed.len() ==> s.contains(#[trigger] listed[i]),
        ids_of(listed).to_set() == ids_of(s).to_set(),
{
    let t = after_creates(PromptMap::empty(), s);
    lemma_after_creates(s);
    ids_of(s).unique_seq_to_set();
    assert forall|i: int| 0 <= i < listed.len() implies s.contains(#[trigger] listed[i]) by {
        let k = listed[i].id;
        assert(ids_of(s).to_set().contains(k));
        let j = choose|j: int| 0 <= j < ids_of(s).len() && ids_of(s)[j] == k;
        assert(s[j].id == k);
        assert(t[s[j].id] == s[j]);
    }
    assert forall|k: u128| #[trigger] ids_of(listed).to_set().contains(k) <==> ids_of(
        s,
    ).to_set().contains(k) by {
        if ids_of(listed).to_set().contains(k) {
            let i = choose|i: int| 0 <= i < ids_of(listed).len() && ids_of(listed)[i] == k;
            assert(listed[i].id == k);
        }
        if ids_of(s).to_set().contains(k) {
            assert(t.contains_key(k));
            let i = choose|i: int| 0 <= i < listed.len() && (#[trigger] listed[i]).id == k;
            assert(ids_of(listed)[i] == k);
        }
    }
    assert(ids_of(listed).to_set() =~= ids_of(s).to_set());
}

/// An id that no create handed out names nothing: a lookup finds nothing, and
/// an update or a delete of it changes nothing (each reports it not found).
pub proof fn law_unknown_id_not_found(
    s: Seq<PromptView>,
    id: u128,
    title: Seq<char>,
    content: Seq<char>,
)
    requires
        fresh_ids(s),
        !ids_of(s).contains(id),
    ensures
        lookup(after_creates(PromptMap::empty(), s), id) == None::<PromptView>,
        after_update(after_creates(PromptMap::empty(), s), id, title, content) == after_creates(
            PromptMap::empty(),
            s,
        ),
        after_delete(after_creates(PromptMap::empty(), s), id) == after_creates(
            PromptMap::empty(),
            s,
        ),
{
    let t = after_creates(PromptMap::empty(), s);
    lemma_after_creates(s);
    if t.contains_key(id) {
        assert(ids_of(s).to_set().contains(id));
    }
    assert(after_delete(t, id) =~= t);
}

/// A create that succeeds on a table built by creates under fresh ids leaves a
/// table of the same kind: the created prompt joins the sequence, its id still
/// fresh. An empty table is the one built by no create.
pub proof fn law_create_extends_creates(
    s: Seq<PromptView>,
    id: u128,
    title: Seq<char>,
    content: Seq<char>,
    created_at: i64,
)
    requires
        fresh_ids(s),
        !after_creates(PromptMap::empty(), s).contains_key(id),
    ensures
        fresh_ids(s.push(PromptView { id, title, content, created_at })),
        after_create(after_creates(PromptMap::empty(), s), id, title, content, created_at)
            == after_creates(
            PromptMap::empty(),
            s.push(PromptView { id, title, content, created_at }),
        ),
        after_creates(PromptMap::empty(), Seq::<PromptView>::empty()) == PromptMap::empty(),
{
    let v = PromptView { id, title, content, created_at };
    let n = s.push(v);
    lemma_after_creates(s);
    assert(n.drop_last() =~= s);
    assert(ids_of(n) =~= ids_of(s).push(id));
    assert(!ids_of(s).contains(id)) by {
        if ids_of(s).contains(id) {
            let i = choose|i: int| 0 <= i < ids_of(s).len() && ids_of(s)[i] == id;
            assert(ids_of(s).to_set().contains(id));
        }
    }
    assert forall|i: int, j: int|
        0 <= i < ids_of(n).len() && 0 <= j < ids_of(n).len() && i != j implies ids_of(n)[i]
        != ids_of(n)[j] by {
        if i < s.len() && j < s.len() {
            assert(ids_of(n)[i] == ids_of(s)[i]);
            assert(ids_of(n)[j] == ids_of(s)[j]);
        } else if i < s.len() {
            assert(ids_of(n)[i] == ids_of(s)[i]);
            assert(ids_of(s).contains(ids_of(s)[i]));
        } else if j < s.len() {
            assert(ids_of(n)[j] == ids_of(s)[j]);
            assert(ids_of(s).contains(ids_of(s)[j]));
        }
    }
}

} // verus!
