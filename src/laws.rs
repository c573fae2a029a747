//! Properties of the reconciliation engine, stated over the models and
//! proved.
use vstd::prelude::*;
use crate::member::{FamilyNode, MemberAttrs};
use crate::diff::{
    first_index, lemma_first_index, updated_of, updated_in, created_of, created_in, new_sons,
    deleted_of, deleted_in, gone_sons,
};
use crate::builder::{first_name_index, merge_all, merge_son};
use crate::commit::{creates_in, creates_of, run_state, next_step, CommitState, CommitStep, OpModel};
use crate::session::{after_commit, after_discard, session_plan, SessionView};
use crate::edit::{edit_at, edit_node, kept_sons, EditModel};

verus! {

/// The sons of every node have distinct ids.
pub open spec fn wf(t: FamilyNode) -> bool
    decreases t,
{
    &&& forall|i: int, j: int|
        0 <= i < j < t.sons.len() ==> #[trigger] t.sons[i].id != #[trigger] t.sons[j].id
    &&& forall|i: int| 0 <= i < t.sons.len() ==> wf(#[trigger] t.sons[i])
}

/// Each of `os` that has a counterpart by id in `cs` is that counterpart.
pub open spec fn matched_same(os: Seq<FamilyNode>, cs: Seq<FamilyNode>) -> bool {
    forall|i: int|
        0 <= i < os.len() ==> (#[trigger] first_index(cs, os[i].id) matches Some(j) ==> cs[j]
            == os[i])
}

/// Every son in `cs` has a counterpart by id in `os`.
pub open spec fn all_known(os: Seq<FamilyNode>, cs: Seq<FamilyNode>) -> bool {
    forall|k: int| 0 <= k < cs.len() ==> #[trigger] first_index(os, cs[k].id) is Some
}

/// In a sequence of distinct ids, the first son with the id of the `i`-th
/// son is the `i`-th.
pub proof fn lemma_first_index_distinct(cs: Seq<FamilyNode>, i: int)
    requires
        0 <= i < cs.len(),
        forall|a: int, b: int| 0 <= a < b < cs.len() ==> #[trigger] cs[a].id != #[trigger] cs[b].id,
    ensures
        first_index(cs, cs[i].id) == Some(i),
{
    lemma_first_index(cs, cs[i].id);
    match first_index(cs, cs[i].id) {
        Some(f) => {
            if f < i {
                assert(cs[f].id != cs[i].id);
            } else if f > i {
                assert(cs[i].id != cs[i].id);
            }
        },
        None => {
            assert(cs[i].id != cs[i].id);
        },
    }
}

proof fn lemma_new_sons_none(os: Seq<FamilyNode>, cs: Seq<FamilyNode>, p: u128)
    requires
        all_known(os, cs),
    ensures
        new_sons(os, cs, p) == Seq::<(u128, FamilyNode)>::empty(),
    decreases cs.len(),
{
    if cs.len() > 0 {
        let pre = cs.subrange(0, cs.len() - 1);
        assert forall|k: int| 0 <= k < pre.len() implies #[trigger] first_index(os, pre[k].id) is Some by {
            assert(pre[k] == cs[k]);
        }
        lemma_new_sons_none(os, pre, p);
        assert(first_index(os, cs[cs.len() - 1].id) is Some);
        assert(new_sons(os, cs, p) =~= Seq::<(u128, FamilyNode)>::empty());
    }
}

proof fn lemma_gone_sons_none(os: Seq<FamilyNode>, cs: Seq<FamilyNode>)
    requires
        all_known(cs, os),
    ensures
        gone_sons(os, cs) == Seq::<u128>::empty(),
    decreases os.len(),
{
    if os.len() > 0 {
        let pre = os.subrange(0, os.len() - 1);
        assert forall|k: int| 0 <= k < pre.len() implies #[trigger] first_index(cs, pre[k].id) is Some by {
            assert(pre[k] == os[k]);
        }
        lemma_gone_sons_none(pre, cs);
        assert(first_index(cs, os[os.len() - 1].id) is Some);
        assert(gone_sons(os, cs) =~= Seq::<u128>::empty());
    }
}

/// A well-formed tree differs from itself in nothing.
pub proof fn lemma_diff_self(t: FamilyNode)
    requires
        wf(t),
    ensures
        updated_of(t, t) == Seq::<MemberAttrs>::empty(),
        created_of(t, t) == Seq::<(u128, FamilyNode)>::empty(),
        deleted_of(t, t) == Seq::<u128>::empty(),
    decreases t,
{
    let ss = t.sons;
    assert forall|i: int| 0 <= i < ss.len() implies (#[trigger] first_index(ss, ss[i].id) matches Some(
        j,
    ) ==> ss[j] == ss[i]) by {
        lemma_first_index_distinct(ss, i);
    }
    assert forall|k: int| 0 <= k < ss.len() implies #[trigger] first_index(ss, ss[k].id) is Some by {
        lemma_first_index_distinct(ss, k);
    }
    lemma_sons_same(ss, ss);
    lemma_new_sons_none(ss, ss, t.id);
    lemma_gone_sons_none(ss, ss);
    assert(updated_of(t, t) =~= Seq::<MemberAttrs>::empty());
    assert(created_of(t, t) =~= Seq::<(u128, FamilyNode)>::empty());
    assert(deleted_of(t, t) =~= Seq::<u128>::empty());
}

/// Sons that are matched only to themselves contribute nothing below.
pub proof fn lemma_sons_same(os: Seq<FamilyNode>, cs: Seq<FamilyNode>)
    requires
        matched_same(os, cs),
        forall|i: int| 0 <= i < os.len() ==> wf(#[trigger] os[i]),
    ensures
        updated_in(os, cs) == Seq::<MemberAttrs>::empty(),
        created_in(os, cs) == Seq::<(u128, FamilyNode)>::empty(),
        deleted_in(os, cs) == Seq::<u128>::empty(),
    decreases os,
{
    if os.len() > 0 {
        let pre = os.subrange(0, os.len() - 1);
        let last = os[os.len() - 1];
        assert forall|i: int| 0 <= i < pre.len() implies (#[trigger] first_index(cs, pre[i].id) matches Some(
            j,
        ) ==> cs[j] == pre[i]) by {
            assert(pre[i] == os[i]);
            assert(first_index(cs, os[i].id) matches Some(j) ==> cs[j] == os[i]);
        }
        assert forall|i: int| 0 <= i < pre.len() implies wf(#[trigger] pre[i]) by {
            assert(pre[i] == os[i]);
        }
        lemma_sons_same(pre, cs);
        assert(first_index(cs, os[os.len() - 1].id) matches Some(j) ==> cs[j] == os[os.len() - 1]);
        assert(wf(last));
        lemma_diff_self(last);
        assert(updated_in(os, cs) =~= Seq::<MemberAttrs>::empty());
        assert(created_in(os, cs) =~= Seq::<(u128, FamilyNode)>::empty());
        assert(deleted_in(os, cs) =~= Seq::<u128>::empty());
    }
}

/// Discarding the working copy leaves nothing to commit: the difference is
/// empty, and a commit would issue only an empty update batch.
pub proof fn law_discard_then_diff_is_empty(s: SessionView)
    requires
        wf(s.baseline),
    ensures
        updated_of(after_discard(s).baseline, after_discard(s).working) == Seq::<
            MemberAttrs,
        >::empty(),
        created_of(after_discard(s).baseline, after_discard(s).working) == Seq::<
            (u128, FamilyNode),
        >::empty(),
        deleted_of(after_discard(s).baseline, after_discard(s).working) == Seq::<u128>::empty(),
        session_plan(after_discard(s)) == seq![OpModel::UpdateBatch(Seq::empty())],
{
    lemma_diff_self(s.baseline);
    let d = after_discard(s);
    assert(crate::commit::creates_all(Seq::<(u128, FamilyNode)>::empty()) =~= Seq::empty());
    assert(session_plan(d) =~= seq![OpModel::UpdateBatch(Seq::empty())]);
}

/// Following first matches by name from the sons of `n`, the names of the
/// chain `c` are all present already.
pub open spec fn chain_present(n: FamilyNode, c: FamilyNode) -> bool
    decreases c,
{
    match first_name_index(n.sons, c.name) {
        Some(j) => c.sons.len() == 0 || (c.sons.len() == 1 && chain_present(n.sons[j], c.sons[0])),
        None => false,
    }
}

/// Merging a chain of names that is already present changes nothing: no
/// node is added, and every name, id and flag stays as it was.
pub proof fn law_merge_present_chain(n: FamilyNode, c: FamilyNode)
    requires
        chain_present(n, c),
    ensures
        merge_son(n, c) == n,
    decreases c,
{
    crate::builder::lemma_first_name_index(n.sons, c.name);
    let j = first_name_index(n.sons, c.name)->0;
    let target = n.sons[j];
    if c.sons.len() == 0 {
        assert(merge_all(target, c.sons) == target);
    } else {
        law_merge_present_chain(target, c.sons[0]);
        assert(c.sons.subrange(0, 0) =~= Seq::<FamilyNode>::empty());
        assert(merge_all(target, c.sons.subrange(0, 0)) == target);
        assert(merge_all(target, c.sons) == merge_son(target, c.sons[0]));
    }
    assert(n.sons.update(j, target) =~= n.sons);
}

/// A commit run whose operations succeed up to one that fails ends aborted
/// after issuing exactly the plan's operations before the failure, in
/// order; the session is left as it was, so a second commit plans the very
/// same operations, creations, deletions and update batch alike.
pub proof fn law_commit_all_or_nothing(s: SessionView, outcomes: Seq<bool>)
    requires
        session_plan(s).len() < usize::MAX,
        1 <= outcomes.len() <= session_plan(s).len() + 1,
        !outcomes[outcomes.len() - 1],
        forall|i: int| 0 <= i < outcomes.len() - 1 ==> #[trigger] outcomes[i],
    ensures
        run_state(session_plan(s).len(), outcomes) == CommitState::Aborted,
        forall|i: int|
            0 <= i < outcomes.len() && i < session_plan(s).len() ==> next_step(
                #[trigger] run_state(session_plan(s).len(), outcomes.subrange(0, i)),
                session_plan(s).len(),
            ) == CommitStep::Issue(i as usize),
        after_commit(s, run_state(session_plan(s).len(), outcomes)) == s,
        session_plan(after_commit(s, run_state(session_plan(s).len(), outcomes))) == session_plan(s),
{
    let n = session_plan(s).len();
    lemma_run_prefix(n, outcomes, (outcomes.len() - 1) as int);
    assert(outcomes.subrange(0, outcomes.len() - 1) =~= outcomes.subrange(0, outcomes.len() - 1));
    assert forall|i: int| 0 <= i < outcomes.len() && i < n implies next_step(
        #[trigger] run_state(n, outcomes.subrange(0, i)),
        n,
    ) == CommitStep::Issue(i as usize) by {
        lemma_run_prefix(n, outcomes, i);
    }
}

/// After `i` successes a run over `n` operations is about to issue the
/// `i`-th, or to commit the transaction once all are done.
proof fn lemma_run_prefix(n: nat, outcomes: Seq<bool>, i: int)
    requires
        0 <= i < outcomes.len(),
        i <= n,
        n < usize::MAX,
        forall|k: int| 0 <= k < i ==> #[trigger] outcomes[k],
    ensures
        run_state(n, outcomes.subrange(0, i)) == (CommitState::Running { next: i as usize }),
    decreases i,
{
    if i > 0 {
        lemma_run_prefix(n, outcomes, i - 1);
        let pre = outcomes.subrange(0, i);
        assert(pre.subrange(0, i - 1) =~= outcomes.subrange(0, i - 1));
        assert(pre[i - 1] == outcomes[i - 1]);
    } else {
        assert(outcomes.subrange(0, 0) =~= Seq::<bool>::empty());
    }
}

/// How many nodes of `t` have the id `id`.
pub open spec fn count_id(t: FamilyNode, id: u128) -> nat
    decreases t,
{
    (if t.id == id {
        1nat
    } else {
        0nat
    }) + count_in(t.sons, id)
}

pub open spec fn count_in(ss: Seq<FamilyNode>, id: u128) -> nat
    decreases ss,
{
    if ss.len() == 0 {
        0
    } else {
        count_in(ss.subrange(0, ss.len() - 1), id) + count_id(ss[ss.len() - 1], id)
    }
}

/// The node of `t` whose id is `id`, where there is exactly one.
pub open spec fn find_node(t: FamilyNode, id: u128) -> FamilyNode
    decreases t,
{
    if t.id == id {
        t
    } else {
        find_in(t.sons, id)
    }
}

pub open spec fn find_in(ss: Seq<FamilyNode>, id: u128) -> FamilyNode
    decreases ss,
{
    if ss.len() == 0 {
        arbitrary()
    } else if count_id(ss[ss.len() - 1], id) > 0 {
        find_node(ss[ss.len() - 1], id)
    } else {
        find_in(ss.subrange(0, ss.len() - 1), id)
    }
}

proof fn lemma_count_zero(ss: Seq<FamilyNode>, id: u128)
    requires
        count_in(ss, id) == 0,
    ensures
        forall|i: int| 0 <= i < ss.len() ==> count_id(#[trigger] ss[i], id) == 0,
    decreases ss.len(),
{
    if ss.len() > 0 {
        let pre = ss.subrange(0, ss.len() - 1);
        lemma_count_zero(pre, id);
        assert forall|i: int| 0 <= i < ss.len() implies count_id(#[trigger] ss[i], id) == 0 by {
            if i < ss.len() - 1 {
                assert(pre[i] == ss[i]);
            }
        }
    }
}

proof fn lemma_count_one(ss: Seq<FamilyNode>, id: u128) -> (j: int)
    requires
        count_in(ss, id) == 1,
    ensures
        0 <= j < ss.len(),
        count_id(ss[j], id) == 1,
        forall|i: int| 0 <= i < ss.len() && i != j ==> count_id(#[trigger] ss[i], id) == 0,
        find_in(ss, id) == find_node(ss[j], id),
    decreases ss.len(),
{
    let pre = ss.subrange(0, ss.len() - 1);
    let last = ss.len() - 1;
    if count_id(ss[last], id) > 0 {
        lemma_count_zero(pre, id);
        assert forall|i: int| 0 <= i < ss.len() && i != last implies count_id(#[trigger] ss[i], id)
            == 0 by {
            assert(pre[i] == ss[i]);
        }
        last
    } else {
        let j = lemma_count_one(pre, id);
        assert(pre[j] == ss[j]);
        assert forall|i: int| 0 <= i < ss.len() && i != j implies count_id(#[trigger] ss[i], id)
            == 0 by {
            if i < last {
                assert(pre[i] == ss[i]);
            }
        }
        j
    }
}

/// An edit of an id that a tree does not hold leaves it unchanged.
proof fn lemma_edit_absent(t: FamilyNode, id: u128, e: EditModel)
    requires
        count_id(t, id) == 0,
    ensures
        edit_at(t, id, e) == t,
    decreases t,
{
    lemma_count_zero(t.sons, id);
    assert forall|i: int| 0 <= i < t.sons.len() implies edit_at(t, id, e).sons[i] == t.sons[i] by {
        lemma_edit_absent(t.sons[i], id, e);
    }
    assert(edit_at(t, id, e).sons =~= t.sons);
}

/// Sons matched one to one by position, all alike but the `j`-th,
/// contribute below exactly what the `j`-th pair does, once the prefix
/// of length `m` reaches it.
proof fn lemma_in_one(os: Seq<FamilyNode>, cs: Seq<FamilyNode>, j: int, m: int)
    requires
        0 <= j < os.len(),
        0 <= m <= os.len(),
        os.len() == cs.len(),
        forall|i: int| 0 <= i < os.len() ==> #[trigger] first_index(cs, os[i].id) == Some(i),
        forall|i: int| 0 <= i < os.len() && i != j ==> #[trigger] cs[i] == os[i] && wf(os[i]),
    ensures
        updated_in(os.subrange(0, m), cs) == if m > j {
            updated_of(os[j], cs[j])
        } else {
            Seq::empty()
        },
        created_in(os.subrange(0, m), cs) == if m > j {
            created_of(os[j], cs[j])
        } else {
            Seq::empty()
        },
        deleted_in(os.subrange(0, m), cs) == if m > j {
            deleted_of(os[j], cs[j])
        } else {
            Seq::empty()
        },
    decreases m,
{
    if m > 0 {
        lemma_in_one(os, cs, j, m - 1);
        let p = os.subrange(0, m);
        assert(p.subrange(0, m - 1) =~= os.subrange(0, m - 1));
        assert(p[m - 1] == os[m - 1]);
        assert(first_index(cs, os[m - 1].id) == Some(m - 1));
        if m - 1 != j {
            assert(cs[m - 1] == os[m - 1] && wf(os[m - 1]));
            lemma_diff_self(os[m - 1]);
        }
        assert(updated_in(p, cs) =~= if m > j {
            updated_of(os[j], cs[j])
        } else {
            Seq::empty()
        });
        assert(created_in(p, cs) =~= if m > j {
            created_of(os[j], cs[j])
        } else {
            Seq::empty()
        });
        assert(deleted_in(p, cs) =~= if m > j {
            deleted_of(os[j], cs[j])
        } else {
            Seq::empty()
        });
    } else {
        assert(os.subrange(0, 0) =~= Seq::<FamilyNode>::empty());
    }
}

/// In a well-formed tree with one node of id `id`, an edit of that node
/// changes the difference exactly as it changes the node alone.
pub proof fn lemma_edit_local(t: FamilyNode, id: u128, e: EditModel)
    requires
        wf(t),
        count_id(t, id) == 1,
    ensures
        wf(find_node(t, id)),
        find_node(t, id).id == id,
        updated_of(t, edit_at(t, id, e)) == updated_of(
            find_node(t, id),
            edit_node(find_node(t, id), e),
        ),
        created_of(t, edit_at(t, id, e)) == created_of(
            find_node(t, id),
            edit_node(find_node(t, id), e),
        ),
        deleted_of(t, edit_at(t, id, e)) == deleted_of(
            find_node(t, id),
            edit_node(find_node(t, id), e),
        ),
    decreases t,
{
    if t.id != id {
        let os = t.sons;
        let t2 = edit_at(t, id, e);
        let cs = t2.sons;
        let j = lemma_count_one(os, id);
        assert(wf(os[j]));
        lemma_edit_local(os[j], id, e);
        assert forall|i: int| 0 <= i < os.len() && i != j implies #[trigger] cs[i] == os[i] && wf(
            os[i],
        ) by {
            lemma_edit_absent(os[i], id, e);
        }
        assert forall|i: int| 0 <= i < os.len() implies #[trigger] cs[i].id == os[i].id by {
            if i != j {
                lemma_edit_absent(os[i], id, e);
            } else {
                let n = os[j];
                if n.id == id {
                    match e {
                        EditModel::Rename(a, b) => {},
                        EditModel::AddSon(s) => {
                            assert(merge_son(n, s).id == n.id);
                        },
                        EditModel::RemoveSons(ids) => {},
                    }
                }
            }
        }
        assert forall|i: int| 0 <= i < os.len() implies #[trigger] first_index(cs, os[i].id) == Some(
            i,
        ) by {
            assert forall|a: int, b: int| 0 <= a < b < cs.len() implies #[trigger] cs[a].id
                != #[trigger] cs[b].id by {
                assert(cs[a].id == os[a].id);
                assert(cs[b].id == os[b].id);
            }
            lemma_first_index_distinct(cs, i);
        }
        assert forall|k: int| 0 <= k < cs.len() implies #[trigger] first_index(os, cs[k].id) is Some by {
            lemma_first_index_distinct(os, k);
        }
        assert forall|k: int| 0 <= k < os.len() implies #[trigger] first_index(cs, os[k].id) is Some by {
        }
        lemma_new_sons_none(os, cs, t2.id);
        lemma_gone_sons_none(os, cs);
        lemma_in_one(os, cs, j, os.len() as int);
        assert(os.subrange(0, os.len() as int) =~= os);
        assert(updated_of(t, t2) =~= updated_of(os[j], cs[j]));
        assert(created_of(t, t2) =~= created_of(os[j], cs[j]));
        assert(deleted_of(t, t2) =~= deleted_of(os[j], cs[j]));
    }
}

/// Renaming the one node of id `id` in an unchanged working copy yields
/// exactly one attribute update, for that id and with the new name and
/// flag, and nothing else; the difference being a function of the trees
/// alone, computing it again yields the same.
pub proof fn law_rename_gives_one_update(t: FamilyNode, id: u128, name: Seq<char>, is_male: bool)
    requires
        wf(t),
        count_id(t, id) == 1,
        find_node(t, id).name != name || find_node(t, id).is_male != is_male,
    ensures
        updated_of(t, edit_at(t, id, EditModel::Rename(name, is_male))) == seq![
            MemberAttrs { id, name, is_male },
        ],
        created_of(t, edit_at(t, id, EditModel::Rename(name, is_male))) == Seq::<
            (u128, FamilyNode),
        >::empty(),
        deleted_of(t, edit_at(t, id, EditModel::Rename(name, is_male))) == Seq::<u128>::empty(),
{
    let e = EditModel::Rename(name, is_male);
    lemma_edit_local(t, id, e);
    let n = find_node(t, id);
    let n2 = edit_node(n, e);
    lemma_diff_self(n);
    assert(n2.sons == n.sons);
    assert(updated_in(n.sons, n.sons) =~= Seq::<MemberAttrs>::empty());
    assert(updated_of(n, n2) =~= seq![MemberAttrs { id, name, is_male }]);
    assert(created_of(n, n2) == created_of(n, n));
    assert(deleted_of(n, n2) == deleted_of(n, n));
}

/// Adding to the one node of id `id` in an unchanged working copy a son
/// whose name and id are new among that node's sons yields exactly one
/// creation: that whole subtree, however deep, under `id`; and nothing for
/// its inner nodes, nor any update or deletion.
pub proof fn law_add_son_gives_one_creation(t: FamilyNode, id: u128, son: FamilyNode)
    requires
        wf(t),
        count_id(t, id) == 1,
        first_name_index(find_node(t, id).sons, son.name) is None,
        first_index(find_node(t, id).sons, son.id) is None,
    ensures
        created_of(t, edit_at(t, id, EditModel::AddSon(son))) == seq![(id, son)],
        updated_of(t, edit_at(t, id, EditModel::AddSon(son))) == Seq::<MemberAttrs>::empty(),
        deleted_of(t, edit_at(t, id, EditModel::AddSon(son))) == Seq::<u128>::empty(),
{
    let e = EditModel::AddSon(son);
    lemma_edit_local(t, id, e);
    let n = find_node(t, id);
    let n2 = edit_node(n, e);
    let os = n.sons;
    let cs = os.push(son);
    assert(n2.sons == cs);
    assert(cs.subrange(0, cs.len() - 1) =~= os);
    assert forall|i: int| 0 <= i < os.len() implies #[trigger] first_index(cs, os[i].id) == Some(
        i,
    ) by {
        lemma_first_index_distinct(os, i);
    }
    assert forall|i: int| 0 <= i < os.len() implies (#[trigger] first_index(cs, os[i].id) matches Some(
        j,
    ) ==> cs[j] == os[i]) by {
        assert(first_index(cs, os[i].id) == Some(i));
    }
    assert forall|i: int| 0 <= i < os.len() implies wf(#[trigger] os[i]) by {}
    lemma_sons_same(os, cs);
    assert forall|k: int| 0 <= k < os.len() implies #[trigger] first_index(os, os[k].id) is Some by {
        lemma_first_index_distinct(os, k);
    }
    lemma_new_sons_none(os, os, n.id);
    assert forall|k: int| 0 <= k < os.len() implies #[trigger] first_index(cs, os[k].id) is Some by {
        assert(first_index(cs, os[k].id) == Some(k));
    }
    lemma_gone_sons_none(os, cs);
    assert(new_sons(os, cs, n.id) =~= seq![(id, son)]);
    assert(created_of(n, n2) =~= seq![(id, son)]);
    assert(updated_of(n, n2) =~= Seq::<MemberAttrs>::empty());
    assert(deleted_of(n, n2) =~= Seq::<u128>::empty());
}

proof fn lemma_kept_from(ss: Seq<FamilyNode>, ids: Seq<u128>)
    ensures
        forall|m: int|
            0 <= m < kept_sons(ss, ids).len() ==> exists|i: int|
                0 <= i < ss.len() && #[trigger] kept_sons(ss, ids)[m] == ss[i] && !ids.contains(
                    ss[i].id,
                ),
    decreases ss.len(),
{
    if ss.len() > 0 {
        let pre = ss.subrange(0, ss.len() - 1);
        let last = ss.len() - 1;
        lemma_kept_from(pre, ids);
        let rest = kept_sons(pre, ids);
        let k = kept_sons(ss, ids);
        assert forall|m: int| 0 <= m < k.len() implies exists|i: int|
            0 <= i < ss.len() && #[trigger] k[m] == ss[i] && !ids.contains(ss[i].id) by {
            if m < rest.len() {
                let i = choose|i: int|
                    0 <= i < pre.len() && #[trigger] rest[m] == pre[i] && !ids.contains(pre[i].id);
                assert(k[m] == ss[i]);
            } else {
                assert(k[m] == ss[last]);
            }
        }
    }
}

proof fn lemma_kept_has(ss: Seq<FamilyNode>, ids: Seq<u128>)
    ensures
        forall|i: int|
            0 <= i < ss.len() && !ids.contains(#[trigger] ss[i].id) ==> exists|m: int|
                0 <= m < kept_sons(ss, ids).len() && kept_sons(ss, ids)[m] == ss[i],
    decreases ss.len(),
{
    if ss.len() > 0 {
        let pre = ss.subrange(0, ss.len() - 1);
        let last = ss.len() - 1;
        lemma_kept_has(pre, ids);
        let rest = kept_sons(pre, ids);
        let k = kept_sons(ss, ids);
        assert forall|i: int| 0 <= i < ss.len() && !ids.contains(#[trigger] ss[i].id) implies exists|
            m: int,
        | 0 <= m < k.len() && k[m] == ss[i] by {
            if i < last {
                assert(pre[i] == ss[i]);
                let m = choose|m: int| 0 <= m < rest.len() && rest[m] == pre[i];
                assert(k[m] == ss[i]);
            } else {
                assert(k[rest.len() as int] == ss[i]);
            }
        }
    }
}

/// Every kept son is a son of `ss`.
proof fn lemma_kept_in(ss: Seq<FamilyNode>, ids: Seq<u128>, m: int) -> (i: int)
    requires
        0 <= m < kept_sons(ss, ids).len(),
    ensures
        0 <= i < ss.len(),
        kept_sons(ss, ids)[m] == ss[i],
        !ids.contains(ss[i].id),
{
    lemma_kept_from(ss, ids);
    choose|i: int| 0 <= i < ss.len() && #[trigger] kept_sons(ss, ids)[m] == ss[i] && !ids.contains(ss[i].id)
}

proof fn lemma_gone_one(os: Seq<FamilyNode>, cs: Seq<FamilyNode>, j: int, m: int)
    requires
        0 <= j < os.len(),
        0 <= m <= os.len(),
        first_index(cs, os[j].id) is None,
        forall|i: int| 0 <= i < os.len() && i != j ==> #[trigger] first_index(cs, os[i].id) is Some,
    ensures
        gone_sons(os.subrange(0, m), cs) == if m > j {
            seq![os[j].id]
        } else {
            Seq::<u128>::empty()
        },
    decreases m,
{
    if m > 0 {
        lemma_gone_one(os, cs, j, m - 1);
        let p = os.subrange(0, m);
        assert(p.subrange(0, m - 1) =~= os.subrange(0, m - 1));
        assert(p[m - 1] == os[m - 1]);
        if m - 1 != j {
            assert(first_index(cs, os[m - 1].id) is Some);
        }
        assert(gone_sons(p, cs) =~= if m > j {
            seq![os[j].id]
        } else {
            Seq::<u128>::empty()
        });
    } else {
        assert(os.subrange(0, 0) =~= Seq::<FamilyNode>::empty());
    }
}

proof fn lemma_single_contains(x: u128, y: u128)
    ensures
        seq![x].contains(y) <==> y == x,
{
    if y == x {
        assert(seq![x][0] == y);
    }
}

proof fn lemma_kept_matched(os: Seq<FamilyNode>, k: int)
    requires
        0 <= k < os.len(),
        forall|a: int, b: int| 0 <= a < b < os.len() ==> #[trigger] os[a].id != #[trigger] os[b].id,
    ensures
        matched_same(os, kept_sons(os, seq![os[k].id])),
{
    let ids = seq![os[k].id];
    let cs = kept_sons(os, ids);
    assert forall|i: int| 0 <= i < os.len() implies (#[trigger] first_index(cs, os[i].id) matches Some(
        jj,
    ) ==> cs[jj] == os[i]) by {
        lemma_first_index(cs, os[i].id);
        if let Some(jj) = first_index(cs, os[i].id) {
            let i2 = lemma_kept_in(os, ids, jj);
            if i2 < i {
                assert(os[i2].id != os[i].id);
            } else if i2 > i {
                assert(os[i].id != os[i2].id);
            }
        }
    }
}

proof fn lemma_kept_known(os: Seq<FamilyNode>, k: int)
    requires
        0 <= k < os.len(),
        forall|a: int, b: int| 0 <= a < b < os.len() ==> #[trigger] os[a].id != #[trigger] os[b].id,
    ensures
        all_known(os, kept_sons(os, seq![os[k].id])),
{
    let ids = seq![os[k].id];
    let cs = kept_sons(os, ids);
    assert forall|m: int| 0 <= m < cs.len() implies #[trigger] first_index(os, cs[m].id) is Some by {
        let i = lemma_kept_in(os, ids, m);
        lemma_first_index_distinct(os, i);
    }
}

proof fn lemma_kept_gone(os: Seq<FamilyNode>, k: int)
    requires
        0 <= k < os.len(),
        forall|a: int, b: int| 0 <= a < b < os.len() ==> #[trigger] os[a].id != #[trigger] os[b].id,
    ensures
        first_index(kept_sons(os, seq![os[k].id]), os[k].id) is None,
        forall|i: int|
            0 <= i < os.len() && i != k ==> #[trigger] first_index(
                kept_sons(os, seq![os[k].id]),
                os[i].id,
            ) is Some,
{
    let x = os[k].id;
    let ids = seq![x];
    let cs = kept_sons(os, ids);
    lemma_kept_has(os, ids);
    assert forall|i: int| 0 <= i < os.len() && i != k implies #[trigger] first_index(cs, os[i].id) is Some by {
        if i < k {
            assert(os[i].id != os[k].id);
        } else {
            assert(os[k].id != os[i].id);
        }
        lemma_single_contains(x, os[i].id);
        let m = choose|m: int| 0 <= m < cs.len() && cs[m] == os[i];
        lemma_first_index(cs, os[i].id);
        assert(cs[m].id == os[i].id);
    }
    lemma_first_index(cs, x);
    if let Some(jj) = first_index(cs, x) {
        let i2 = lemma_kept_in(os, ids, jj);
        lemma_single_contains(x, os[i2].id);
    }
}

proof fn lemma_remove_local(n: FamilyNode, k: int)
    requires
        wf(n),
        0 <= k < n.sons.len(),
    ensures
        deleted_of(n, edit_node(n, EditModel::RemoveSons(seq![n.sons[k].id]))) == seq![n.sons[k].id],
        created_of(n, edit_node(n, EditModel::RemoveSons(seq![n.sons[k].id]))) == Seq::<
            (u128, FamilyNode),
        >::empty(),
        updated_of(n, edit_node(n, EditModel::RemoveSons(seq![n.sons[k].id]))) == Seq::<
            MemberAttrs,
        >::empty(),
{
    let os = n.sons;
    let x = os[k].id;
    let n2 = edit_node(n, EditModel::RemoveSons(seq![x]));
    let cs = kept_sons(os, seq![x]);
    assert(n2.sons == cs);
    lemma_kept_matched(os, k);
    lemma_kept_known(os, k);
    lemma_kept_gone(os, k);
    assert forall|i: int| 0 <= i < os.len() implies wf(#[trigger] os[i]) by {}
    lemma_sons_same(os, cs);
    lemma_new_sons_none(os, cs, n.id);
    lemma_gone_one(os, cs, k, os.len() as int);
    assert(os.subrange(0, os.len() as int) =~= os);
    assert(deleted_of(n, n2) =~= seq![x]);
    assert(created_of(n, n2) =~= Seq::<(u128, FamilyNode)>::empty());
    assert(updated_of(n, n2) =~= Seq::<MemberAttrs>::empty());
}

/// Removing from the one node of id `id` in an unchanged working copy its
/// `k`-th son yields exactly one deletion, for that son's id alone, however
/// many descendants it has; and no creation or update.
pub proof fn law_remove_son_gives_one_deletion(t: FamilyNode, id: u128, k: int)
    requires
        wf(t),
        count_id(t, id) == 1,
        0 <= k < find_node(t, id).sons.len(),
    ensures
        deleted_of(t, edit_at(t, id, EditModel::RemoveSons(seq![find_node(t, id).sons[k].id])))
            == seq![find_node(t, id).sons[k].id],
        created_of(t, edit_at(t, id, EditModel::RemoveSons(seq![find_node(t, id).sons[k].id])))
            == Seq::<(u128, FamilyNode)>::empty(),
        updated_of(t, edit_at(t, id, EditModel::RemoveSons(seq![find_node(t, id).sons[k].id])))
            == Seq::<MemberAttrs>::empty(),
{
    let n = find_node(t, id);
    lemma_edit_local(t, id, EditModel::RemoveSons(seq![n.sons[k].id]));
    lemma_remove_local(n, k);
}

/// The parent named by a creation.
pub open spec fn parent_of(op: OpModel) -> Option<u128> {
    match op {
        OpModel::Create(p, _) => p,
        _ => None,
    }
}

/// The id of the node that a creation stores.
pub open spec fn created_id(op: OpModel) -> u128 {
    match op {
        OpModel::Create(_, a) => a.id,
        _ => 0,
    }
}

/// Every operation of `ops` is a creation whose parent is `root` or a node
/// created earlier in `ops`.
pub open spec fn parents_first(ops: Seq<OpModel>, root: Option<u128>) -> bool {
    forall|i: int|
        0 <= i < ops.len() ==> (#[trigger] ops[i] is Create) && (parent_of(ops[i]) == root
            || exists|k: int| 0 <= k < i && parent_of(ops[i]) == Some(#[trigger] created_id(ops[k])))
}

/// The creations that store a subtree put every node after its parent: the
/// first stores the subtree's top under `parent`, and each later one hangs
/// from a node stored before it.
pub proof fn law_creates_parents_first(parent: Option<u128>, t: FamilyNode)
    ensures
        parents_first(creates_of(parent, t), parent),
        creates_of(parent, t)[0] == OpModel::Create(parent, t.attrs()),
    decreases t,
{
    let ops = creates_of(parent, t);
    let tail = creates_in(t.id, t.sons);
    lemma_creates_in_first(t.id, t.sons);
    assert(ops == seq![OpModel::Create(parent, t.attrs())] + tail);
    assert forall|i: int| 0 <= i < ops.len() implies (#[trigger] ops[i] is Create) && (parent_of(ops[i])
        == parent || exists|k: int|
        0 <= k < i && parent_of(ops[i]) == Some(#[trigger] created_id(ops[k]))) by {
        if i > 0 {
            assert(ops[i] == tail[i - 1]);
            if parent_of(tail[i - 1]) == Some(t.id) {
                assert(created_id(ops[0]) == t.id);
            } else {
                let k = choose|k: int|
                    0 <= k < i - 1 && parent_of(tail[i - 1]) == Some(#[trigger] created_id(tail[k]));
                assert(ops[k + 1] == tail[k]);
                assert(created_id(ops[k + 1]) == created_id(tail[k]));
            }
        }
    }
}

proof fn lemma_creates_in_first(pid: u128, ss: Seq<FamilyNode>)
    ensures
        parents_first(creates_in(pid, ss), Some(pid)),
    decreases ss,
{
    if ss.len() > 0 {
        let pre = creates_in(pid, ss.subrange(0, ss.len() - 1));
        let last = creates_of(Some(pid), ss[ss.len() - 1]);
        lemma_creates_in_first(pid, ss.subrange(0, ss.len() - 1));
        law_creates_parents_first(Some(pid), ss[ss.len() - 1]);
        let ops = creates_in(pid, ss);
        assert(ops == pre + last);
        assert forall|i: int| 0 <= i < ops.len() implies (#[trigger] ops[i] is Create) && (parent_of(
            ops[i],
        ) == Some(pid) || exists|k: int|
            0 <= k < i && parent_of(ops[i]) == Some(#[trigger] created_id(ops[k]))) by {
            if i < pre.len() {
                assert(ops[i] == pre[i]);
                if parent_of(pre[i]) != Some(pid) {
                    let k = choose|k: int|
                        0 <= k < i && parent_of(pre[i]) == Some(#[trigger] created_id(pre[k]));
                    assert(ops[k] == pre[k]);
                    assert(created_id(ops[k]) == created_id(pre[k]));
                }
            } else {
                let j = i - pre.len();
                assert(ops[i] == last[j]);
                if parent_of(last[j]) != Some(pid) {
                    let k = choose|k: int|
                        0 <= k < j && parent_of(last[j]) == Some(#[trigger] created_id(last[k]));
                    assert(ops[k + pre.len()] == last[k]);
                    assert(created_id(ops[k + pre.len()]) == created_id(last[k]));
                }
            }
        }
    } else {
        assert(creates_in(pid, ss) == Seq::<OpModel>::empty());
    }
}

} // verus!
