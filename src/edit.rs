//! Edits of the working copy, addressed by node id.
use vstd::prelude::*;
use crate::member::{FamilyNode, Member};
use crate::builder::merge_son;

verus! {

/// The model of an edit of one node.
pub enum EditModel {
    Rename(Seq<char>, bool),
    AddSon(FamilyNode),
    RemoveSons(Seq<u128>),
}

/// An edit of one node of the working copy.
#[derive(Debug)]
pub enum Edit {
    /// Give the node a new name and flag.
    Rename { name: String, is_male: bool },
    /// Add a son, merging by name.
    AddSon { son: Member },
    /// Remove the sons with these ids, with their subtrees.
    RemoveSons { ids: Vec<u128> },
}

impl Edit {
    pub open spec fn view(&self) -> EditModel {
        match self {
            Edit::Rename { name, is_male } => EditModel::Rename(name@, *is_male),
            Edit::AddSon { son } => EditModel::AddSon(son@),
            Edit::RemoveSons { ids } => EditModel::RemoveSons(ids@),
        }
    }
}

/// The sons of `ss` whose ids are not in `ids`, in order.
pub open spec fn kept_sons(ss: Seq<FamilyNode>, ids: Seq<u128>) -> Seq<FamilyNode>
    decreases ss.len(),
{
    if ss.len() == 0 {
        ss
    } else {
        let rest = kept_sons(ss.subrange(0, ss.len() - 1), ids);
        if ids.contains(ss[ss.len() - 1].id) {
            rest
        } else {
            rest.push(ss[ss.len() - 1])
        }
    }
}

/// `n` after the edit `e` of the node itself.
pub open spec fn edit_node(n: FamilyNode, e: EditModel) -> FamilyNode {
    match e {
        EditModel::Rename(name, is_male) => FamilyNode { name, is_male, ..n },
        EditModel::AddSon(s) => merge_son(n, s),
        EditModel::RemoveSons(ids) => FamilyNode { sons: kept_sons(n.sons, ids), ..n },
    }
}

/// `t` after the edit `e` of every node whose id is `id`; below an edited
/// node nothing else is edited.
pub open spec fn edit_at(t: FamilyNode, id: u128, e: EditModel) -> FamilyNode
    decreases t,
{
    if t.id == id {
        edit_node(t, e)
    } else {
        FamilyNode {
            sons: Seq::new(
                t.sons.len(),
                |i: int|
                    if 0 <= i < t.sons.len() {
                        edit_at(t.sons[i], id, e)
                    } else {
                        arbitrary()
                    },
            ),
            ..t
        }
    }
}

fn contains_id(ids: &Vec<u128>, id: u128) -> (r: bool)
    ensures
        r == ids@.contains(id),
{
    let mut i: usize = 0;
    while i < ids.len()
        invariant
            i <= ids@.len(),
            forall|k: int| 0 <= k < i ==> ids@[k] != id,
        decreases ids@.len() - i,
    {
        if ids[i] == id {
            assert(ids@[i as int] == id);
            return true;
        }
        i += 1;
    }
    false
}

impl Member {
    /// Removes the sons whose ids are in `ids`, with their subtrees.
    pub fn remove_sons(&mut self, ids: &Vec<u128>)
        ensures
            final(self)@ == (FamilyNode { sons: kept_sons(old(self)@.sons, ids@), ..old(self)@ }),
    {
        let ghost n0 = self@;
        let ghost ss = n0.sons;
        let mut kept: Vec<Member> = Vec::new();
        let mut i: usize = 0;
        assert(ss.subrange(0, 0) =~= Seq::<FamilyNode>::empty());
        while i < self.sons.len()
            invariant
                i <= self.sons@.len(),
                self@ == n0,
                ss == n0.sons,
                ss.len() == self.sons@.len(),
                kept@.len() == kept_sons(ss.subrange(0, i as int), ids@).len(),
                forall|k: int|
                    0 <= k < kept@.len() ==> #[trigger] kept@[k]@ == kept_sons(
                        ss.subrange(0, i as int),
                        ids@,
                    )[k],
            decreases self.sons@.len() - i,
        {
            let ghost before = kept_sons(ss.subrange(0, i as int), ids@);
            assert(ss.subrange(0, i + 1).subrange(0, i as int) =~= ss.subrange(0, i as int));
            assert(self.sons@[i as int]@ == ss[i as int]);
            if !contains_id(ids, self.sons[i].id) {
                let c = self.sons[i].deep_clone();
                kept.push(c);
                assert forall|k: int| 0 <= k < kept@.len() implies #[trigger] kept@[k]@
                    == before.push(ss[i as int])[k] by {}
            }
            i += 1;
        }
        assert(ss.subrange(0, ss.len() as int) =~= ss);
        self.sons = kept;
        assert forall|k: int| 0 <= k < self@.sons.len() implies self@.sons[k] == kept_sons(
            ss,
            ids@,
        )[k] by {
            assert(self@.sons[k] == self.sons@[k]@);
        }
        assert(self@.sons =~= kept_sons(ss, ids@));
    }

    /// Applies `e` to every node of this subtree whose id is `id`, not
    /// looking below an edited node.
    pub fn apply_edit(&mut self, id: u128, e: &Edit)
        ensures
            final(self)@ == edit_at(old(self)@, id, e@),
        decreases old(self)@,
    {
        let ghost n0 = self@;
        if self.id == id {
            match e {
                Edit::Rename { name, is_male } => {
                    self.name = name.clone();
                    self.is_male = *is_male;
                    assert(self@.sons =~= n0.sons);
                },
                Edit::AddSon { son } => {
                    let s = son.deep_clone();
                    self.add_son(s);
                },
                Edit::RemoveSons { ids } => {
                    self.remove_sons(ids);
                },
            }
        } else {
            let ghost ss = n0.sons;
            let mut i: usize = 0;
            while i < self.sons.len()
                invariant
                    i <= self.sons@.len(),
                    ss == n0.sons,
                    n0 == old(self)@,
                    n0.id != id,
                    ss.len() == self.sons@.len(),
                    self@ == (FamilyNode { sons: self@.sons, ..n0 }),
                    forall|k: int|
                        0 <= k < ss.len() ==> #[trigger] self@.sons[k] == if k < i {
                            edit_at(ss[k], id, e@)
                        } else {
                            ss[k]
                        },
                decreases self.sons@.len() - i,
            {
                let ghost prev = self@;
                let ghost before = self.sons@;
                assert(before[i as int]@ == prev.sons[i as int]);
                assert(before[i as int]@ == ss[i as int]);
                self.sons[i].apply_edit(id, e);
                assert forall|k: int| 0 <= k < ss.len() implies #[trigger] self@.sons[k] == if k
                    < i + 1 {
                    edit_at(ss[k], id, e@)
                } else {
                    ss[k]
                } by {
                    if k != i {
                        assert(self.sons@[k] == before[k]);
                        assert(prev.sons[k] == before[k]@);
                    }
                }
                i += 1;
            }
            assert(self@.sons =~= edit_at(n0, id, e@).sons);
        }
    }
}

} // verus!
