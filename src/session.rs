//! The edit session: an immutable baseline paired with a working copy.
use vstd::prelude::*;
use crate::member::{FamilyNode, Member, RawMember, SonlessRawMember, TreeError};
use crate::diff::{
    attrs_view, created_members, created_of, created_view, deleted_members, deleted_of,
    updated_members, updated_of,
};
use crate::commit::{plan_commit, commit_ops, CommitRun, CommitState, OpModel, PersistOp, ServerUpdates, ops_view};
use crate::edit::{edit_at, Edit, EditModel};

verus! {

/// The model of a session: its baseline and its working copy.
pub struct SessionView {
    pub baseline: FamilyNode,
    pub working: FamilyNode,
}

/// The plan of a commit of the session `s`.
pub open spec fn session_plan(s: SessionView) -> Seq<OpModel> {
    commit_ops(
        created_of(s.baseline, s.working),
        deleted_of(s.baseline, s.working),
        updated_of(s.baseline, s.working),
    )
}

/// The session after a commit run that ended in `state`: re-based on the
/// working copy when the run committed, unchanged otherwise.
pub open spec fn after_commit(s: SessionView, state: CommitState) -> SessionView {
    if state == CommitState::Committed {
        SessionView { baseline: s.working, working: s.working }
    } else {
        s
    }
}

/// The session after its working copy is thrown away.
pub open spec fn after_discard(s: SessionView) -> SessionView {
    SessionView { baseline: s.baseline, working: s.baseline }
}

/// The session after the edit `e` of the node `id` of the working copy.
pub open spec fn after_edit(s: SessionView, id: u128, e: EditModel) -> SessionView {
    SessionView { baseline: s.baseline, working: edit_at(s.working, id, e) }
}

/// One tree under edit: the baseline last known to the store and the copy
/// the user changes.
pub struct Updates {
    origin: RawMember,
    pub copy: Member,
}

impl Updates {
    pub closed spec fn baseline(&self) -> FamilyNode {
        self.origin@
    }

    pub closed spec fn view(&self) -> SessionView {
        SessionView { baseline: self.baseline(), working: self.copy@ }
    }

    /// A session whose baseline and working copy both hold `member`.
    pub fn init(member: Member) -> (r: Updates)
        ensures
            r@ == (SessionView { baseline: member@, working: member@ }),
    {
        let origin = member.raw();
        Updates { origin, copy: member }
    }

    /// The baseline.
    pub fn origin(&self) -> (r: &RawMember)
        ensures
            r@ == self@.baseline,
    {
        &self.origin
    }

    /// The attribute-only changes of the working copy.
    pub fn updates(&self) -> (r: Vec<SonlessRawMember>)
        ensures
            attrs_view(r@) == updated_of(self@.baseline, self@.working),
    {
        let copy = self.copy.raw();
        updated_members(&self.origin, &copy)
    }

    /// The subtrees new in the working copy, with their parents' ids.
    pub fn created(&self) -> (r: Vec<(u128, RawMember)>)
        ensures
            created_view(r@) == created_of(self@.baseline, self@.working),
    {
        let copy = self.copy.raw();
        created_members(&self.origin, &copy)
    }

    /// The ids of the topmost nodes removed from the working copy.
    pub fn deleted(&self) -> (r: Vec<u128>)
        ensures
            r@ == deleted_of(self@.baseline, self@.working),
    {
        let copy = self.copy.raw();
        deleted_members(&self.origin, &copy)
    }

    /// The whole difference of the working copy from the baseline.
    pub fn server_updates(&self) -> (r: ServerUpdates)
        ensures
            created_view(r.created_members@) == created_of(self@.baseline, self@.working),
            r.deleted_members@ == deleted_of(self@.baseline, self@.working),
            attrs_view(r.updated_members@) == updated_of(self@.baseline, self@.working),
    {
        let copy = self.copy.raw();
        ServerUpdates {
            created_members: created_members(&self.origin, &copy),
            deleted_members: deleted_members(&self.origin, &copy),
            updated_members: updated_members(&self.origin, &copy),
        }
    }

    /// The operations that a commit of this session issues, in order.
    pub fn commit_plan(&self) -> (r: Vec<PersistOp>)
        ensures
            ops_view(r@) == session_plan(self@),
    {
        let updates = self.server_updates();
        plan_commit(&updates)
    }

    /// Ends a commit: re-bases the session on its working copy when `run`
    /// committed, and otherwise leaves it as it was and reports the failure.
    pub fn commit(&mut self, run: &CommitRun) -> (r: Result<(), TreeError>)
        ensures
            final(self)@ == after_commit(old(self)@, run.status()),
            r is Ok <==> run.status() == CommitState::Committed,
            r matches Err(e) ==> e == TreeError::Persistence,
    {
        if run.is_committed() {
            self.origin = self.copy.raw();
            Ok(())
        } else {
            Err(TreeError::Persistence)
        }
    }

    /// Throws the working copy away and starts again from the baseline.
    pub fn discard(&mut self)
        ensures
            final(self)@ == after_discard(old(self)@),
    {
        self.copy = Member::from_raw(self.origin.deep_clone());
    }

    /// Applies `e` to the node `id` of the working copy.
    pub fn edit(&mut self, id: u128, e: &Edit)
        ensures
            final(self)@ == after_edit(old(self)@, id, e@),
    {
        self.copy.apply_edit(id, e);
    }
}

} // verus!
