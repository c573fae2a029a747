//! The commit coordinator: the ordered operations that apply a difference
//! to the store, and the state machine that runs them in one transaction.
use vstd::prelude::*;
use crate::member::{FamilyNode, MemberAttrs, RawMember, SonlessRawMember};
use crate::diff::{attrs_view, created_view};

verus! {

/// The model of one operation against the store.
pub enum OpModel {
    Create(Option<u128>, MemberAttrs),
    Delete(u128),
    UpdateBatch(Seq<MemberAttrs>),
}

/// One operation against the store, issued inside the commit's transaction.
#[derive(Debug)]
pub enum PersistOp {
    /// Store one new node under `parent_id` (no parent for a root).
    Create { parent_id: Option<u128>, member: SonlessRawMember },
    /// Remove a node; the store removes its descendants with it.
    Delete { id: u128 },
    /// Apply attribute-only changes.
    UpdateBatch { members: Vec<SonlessRawMember> },
}

impl PersistOp {
    pub open spec fn view(&self) -> OpModel {
        match self {
            PersistOp::Create { parent_id, member } => OpModel::Create(*parent_id, member@),
            PersistOp::Delete { id } => OpModel::Delete(*id),
            PersistOp::UpdateBatch { members } => OpModel::UpdateBatch(attrs_view(members@)),
        }
    }
}

pub open spec fn ops_view(v: Seq<PersistOp>) -> Seq<OpModel> {
    v.map_values(|o: PersistOp| o@)
}

/// The difference between a baseline and its working copy.
#[derive(Debug)]
pub struct ServerUpdates {
    pub created_members: Vec<(u128, RawMember)>,
    pub deleted_members: Vec<u128>,
    pub updated_members: Vec<SonlessRawMember>,
}

/// The creations that store the subtree `t` under `parent`, each node
/// before its sons.
pub open spec fn creates_of(parent: Option<u128>, t: FamilyNode) -> Seq<OpModel>
    decreases t,
{
    seq![OpModel::Create(parent, t.attrs())] + creates_in(t.id, t.sons)
}

pub open spec fn creates_in(parent: u128, ss: Seq<FamilyNode>) -> Seq<OpModel>
    decreases ss,
{
    if ss.len() == 0 {
        Seq::empty()
    } else {
        creates_in(parent, ss.subrange(0, ss.len() - 1)) + creates_of(
            Some(parent),
            ss[ss.len() - 1],
        )
    }
}

/// The creations for every created entry, entry by entry.
pub open spec fn creates_all(entries: Seq<(u128, FamilyNode)>) -> Seq<OpModel>
    decreases entries.len(),
{
    if entries.len() == 0 {
        Seq::empty()
    } else {
        creates_all(entries.subrange(0, entries.len() - 1)) + creates_of(
            Some(entries[entries.len() - 1].0),
            entries[entries.len() - 1].1,
        )
    }
}

/// The whole commit: all creations, then all deletions, then one update batch.
pub open spec fn commit_ops(
    created: Seq<(u128, FamilyNode)>,
    deleted: Seq<u128>,
    updated: Seq<MemberAttrs>,
) -> Seq<OpModel> {
    creates_all(created) + deleted.map_values(|id: u128| OpModel::Delete(id)) + seq![
        OpModel::UpdateBatch(updated),
    ]
}

fn push_creates(parent: Option<u128>, t: &RawMember, out: &mut Vec<PersistOp>)
    ensures
        ops_view(final(out)@) == ops_view(old(out)@) + creates_of(parent, t@),
    decreases t@,
{
    let ghost start = ops_view(out@);
    out.push(PersistOp::Create { parent_id: parent, member: t.sonless() });
    assert(ops_view(out@) =~= start + seq![OpModel::Create(parent, t@.attrs())]);
    let ghost base = ops_view(out@);
    let ghost ss = t@.sons;
    let mut i: usize = 0;
    assert(ss.subrange(0, 0) =~= Seq::<FamilyNode>::empty());
    assert(ops_view(out@) =~= base + Seq::empty());
    while i < t.sons.len()
        invariant
            i <= t.sons@.len(),
            ss == t@.sons,
            ss.len() == t.sons@.len(),
            ops_view(out@) == base + creates_in(t.id, ss.subrange(0, i as int)),
        decreases t.sons@.len() - i,
    {
        let son = &t.sons[i];
        assert(son@ == ss[i as int]);
        assert(ss.subrange(0, i + 1).subrange(0, i as int) =~= ss.subrange(0, i as int));
        push_creates(Some(t.id), son, out);
        i += 1;
    }
    assert(ss.subrange(0, ss.len() as int) =~= ss);
}

/// The operations that store the subtree `t` under `parent`, parents first.
pub fn subtree_creates(parent: Option<u128>, t: &RawMember) -> (r: Vec<PersistOp>)
    ensures
        ops_view(r@) == creates_of(parent, t@),
{
    let mut out: Vec<PersistOp> = Vec::new();
    push_creates(parent, t, &mut out);
    assert(ops_view(out@) =~= creates_of(parent, t@));
    out
}

/// The operations of a commit, in the order they are issued.
pub fn plan_commit(updates: &ServerUpdates) -> (r: Vec<PersistOp>)
    ensures
        ops_view(r@) == commit_ops(
            created_view(updates.created_members@),
            updates.deleted_members@,
            attrs_view(updates.updated_members@),
        ),
{
    let ghost created = created_view(updates.created_members@);
    let ghost deleted = updates.deleted_members@;
    let mut out: Vec<PersistOp> = Vec::new();
    let mut i: usize = 0;
    assert(created.subrange(0, 0) =~= Seq::<(u128, FamilyNode)>::empty());
    assert(ops_view(out@) =~= Seq::empty());
    while i < updates.created_members.len()
        invariant
            i <= updates.created_members@.len(),
            created == created_view(updates.created_members@),
            ops_view(out@) == creates_all(created.subrange(0, i as int)),
        decreases updates.created_members@.len() - i,
    {
        let entry = &updates.created_members[i];
        assert(created[i as int] == (entry.0, entry.1@));
        assert(created.subrange(0, i + 1).subrange(0, i as int) =~= created.subrange(0, i as int));
        push_creates(Some(entry.0), &entry.1, &mut out);
        i += 1;
    }
    assert(created.subrange(0, created.len() as int) =~= created);
    let ghost creates = ops_view(out@);
    let mut k: usize = 0;
    while k < updates.deleted_members.len()
        invariant
            k <= deleted.len(),
            deleted == updates.deleted_members@,
            ops_view(out@) == creates + deleted.subrange(0, k as int).map_values(
                |id: u128| OpModel::Delete(id),
            ),
        decreases deleted.len() - k,
    {
        let ghost before = ops_view(out@);
        out.push(PersistOp::Delete { id: updates.deleted_members[k] });
        assert(deleted.subrange(0, k + 1).map_values(|id: u128| OpModel::Delete(id)) =~= deleted.subrange(
            0,
            k as int,
        ).map_values(|id: u128| OpModel::Delete(id)).push(OpModel::Delete(deleted[k as int])));
        assert(ops_view(out@) =~= before.push(OpModel::Delete(deleted[k as int])));
        k += 1;
    }
    assert(deleted.subrange(0, deleted.len() as int) =~= deleted);
    let ghost before = ops_view(out@);
    let mut batch: Vec<SonlessRawMember> = Vec::new();
    let mut j: usize = 0;
    while j < updates.updated_members.len()
        invariant
            j <= updates.updated_members@.len(),
            batch@.len() == j,
            forall|m: int| 0 <= m < j ==> #[trigger] batch@[m]@ == updates.updated_members@[m]@,
        decreases updates.updated_members@.len() - j,
    {
        let m = &updates.updated_members[j];
        batch.push(SonlessRawMember { id: m.id, name: m.name.clone(), is_male: m.is_male });
        j += 1;
    }
    assert(attrs_view(batch@) =~= attrs_view(updates.updated_members@));
    out.push(PersistOp::UpdateBatch { members: batch });
    assert(ops_view(out@) =~= before.push(OpModel::UpdateBatch(attrs_view(batch@))));
    out
}

/// Where a commit run stands.
#[derive(Clone, Copy, PartialEq, Eq, Structural, Debug)]
pub enum CommitState {
    /// Operations before `next` have succeeded; `next` is the one to issue,
    /// or the transaction's own commit once every operation is done.
    Running { next: usize },
    /// Every operation and the transaction's commit succeeded.
    Committed,
    /// Something failed; the transaction is to be rolled back.
    Aborted,
}

/// What the caller is to do next for a commit run.
#[derive(Clone, Copy, PartialEq, Eq, Structural, Debug)]
pub enum CommitStep {
    /// Issue the operation at this position of the plan.
    Issue(usize),
    /// Commit the transaction.
    CommitTransaction,
    /// Roll the transaction back: the run has failed.
    Rollback,
    /// Nothing is left to do: the run has succeeded.
    Done,
}

/// The step for a run in `state` over a plan of `n` operations.
pub open spec fn next_step(state: CommitState, n: nat) -> CommitStep {
    match state {
        CommitState::Running { next } => if next < n {
            CommitStep::Issue(next)
        } else {
            CommitStep::CommitTransaction
        },
        CommitState::Committed => CommitStep::Done,
        CommitState::Aborted => CommitStep::Rollback,
    }
}

/// The state after the outcome `ok` of the step that `state` asked for.
pub open spec fn after_report(state: CommitState, n: nat, ok: bool) -> CommitState {
    match state {
        CommitState::Running { next } => if !ok {
            CommitState::Aborted
        } else if next < n {
            CommitState::Running { next: (next + 1) as usize }
        } else {
            CommitState::Committed
        },
        _ => state,
    }
}

/// The state of a fresh run over `n` operations after the given outcomes.
pub open spec fn run_state(n: nat, outcomes: Seq<bool>) -> CommitState
    decreases outcomes.len(),
{
    if outcomes.len() == 0 {
        CommitState::Running { next: 0 }
    } else {
        after_report(
            run_state(n, outcomes.subrange(0, outcomes.len() - 1)),
            n,
            outcomes[outcomes.len() - 1],
        )
    }
}

/// One commit in progress: its plan and how far it got.
pub struct CommitRun {
    ops: Vec<PersistOp>,
    state: CommitState,
}

impl CommitRun {
    pub closed spec fn plan(&self) -> Seq<OpModel> {
        ops_view(self.ops@)
    }

    pub closed spec fn status(&self) -> CommitState {
        self.state
    }

    /// A run that has issued nothing yet.
    pub fn new(ops: Vec<PersistOp>) -> (r: CommitRun)
        requires
            ops@.len() < usize::MAX,
        ensures
            r.plan() == ops_view(ops@),
            r.status() == (CommitState::Running { next: 0 }),
    {
        CommitRun { ops, state: CommitState::Running { next: 0 } }
    }

    /// What to do next.
    pub fn step(&self) -> (r: CommitStep)
        ensures
            r == next_step(self.status(), self.plan().len()),
    {
        match self.state {
            CommitState::Running { next } => if next < self.ops.len() {
                CommitStep::Issue(next)
            } else {
                CommitStep::CommitTransaction
            },
            CommitState::Committed => CommitStep::Done,
            CommitState::Aborted => CommitStep::Rollback,
        }
    }

    /// The operation at position `i` of the plan.
    pub fn op(&self, i: usize) -> (r: &PersistOp)
        requires
            i < self.plan().len(),
        ensures
            r@ == self.plan()[i as int],
    {
        &self.ops[i]
    }

    /// Records whether the step asked for succeeded.
    pub fn report(&mut self, ok: bool)
        requires
            old(self).plan().len() < usize::MAX,
        ensures
            final(self).plan() == old(self).plan(),
            final(self).status() == after_report(old(self).status(), old(self).plan().len(), ok),
    {
        match self.state {
            CommitState::Running { next } => {
                if !ok {
                    self.state = CommitState::Aborted;
                } else if next < self.ops.len() {
                    self.state = CommitState::Running { next: next + 1 };
                } else {
                    self.state = CommitState::Committed;
                }
            },
            _ => {},
        }
    }

    pub fn is_committed(&self) -> (r: bool)
        ensures
            r == (self.status() == CommitState::Committed),
    {
        match self.state {
            CommitState::Committed => true,
            _ => false,
        }
    }
}

} // verus!
