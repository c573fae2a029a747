use ensab::commit::{plan_commit, subtree_creates, CommitRun, CommitStep, PersistOp};
use ensab::diff::{created_members, deleted_members, updated_members};
use ensab::edit::Edit;
use ensab::member::{Member, RawMember, TreeError};
use ensab::session::Updates;

fn node(id: u128, name: &str, sons: Vec<RawMember>) -> RawMember {
    RawMember { id, name: name.to_string(), is_male: true, sons }
}

fn leaf(id: u128, name: &str) -> RawMember {
    node(id, name, Vec::new())
}

fn family() -> RawMember {
    node(
        1,
        "Root",
        vec![
            node(2, "Ali", vec![leaf(4, "Omar"), leaf(5, "Zaid")]),
            leaf(3, "Hasan"),
        ],
    )
}

fn session(t: RawMember) -> Updates {
    Updates::init(Member::from_raw(t))
}

fn run_all(run: &mut CommitRun, fail_at: Option<usize>) -> Vec<usize> {
    let mut issued = Vec::new();
    loop {
        match run.step() {
            CommitStep::Issue(i) => {
                issued.push(i);
                run.report(Some(i) != fail_at);
            }
            CommitStep::CommitTransaction => run.report(true),
            CommitStep::Rollback | CommitStep::Done => return issued,
        }
    }
}

fn describe(op: &PersistOp) -> String {
    match op {
        PersistOp::Create { parent_id, member } => format!("create {:?} {} {}", parent_id, member.id, member.name),
        PersistOp::Delete { id } => format!("delete {}", id),
        PersistOp::UpdateBatch { members } => {
            let parts: Vec<String> = members.iter().map(|m| format!("{}={}/{}", m.id, m.name, m.is_male)).collect();
            format!("update [{}]", parts.join(","))
        }
    }
}

#[test]
fn example_root_with_two_new_sons() {
    let mut s = session(leaf(10, "A"));
    let b = Member::new("B".to_string());
    let c = Member::new("C".to_string());
    let (bid, cid) = (b.id, c.id);
    s.edit(10, &Edit::AddSon { son: b });
    s.edit(10, &Edit::AddSon { son: c });
    let created = s.created();
    assert_eq!(created.len(), 2);
    assert_eq!((created[0].0, created[0].1.id, created[0].1.name.as_str()), (10, bid, "B"));
    assert_eq!((created[1].0, created[1].1.id, created[1].1.name.as_str()), (10, cid, "C"));
    assert!(s.updates().is_empty());
    assert!(s.deleted().is_empty());

    let plan = s.commit_plan();
    let text: Vec<String> = plan.iter().map(describe).collect();
    assert_eq!(
        text,
        vec![
            format!("create Some(10) {} B", bid),
            format!("create Some(10) {} C", cid),
            "update []".to_string(),
        ]
    );
    let mut run = CommitRun::new(plan);
    assert_eq!(run_all(&mut run, None), vec![0, 1, 2]);
    assert!(run.is_committed());
    assert_eq!(s.commit(&run), Ok(()));
    assert!(s.created().is_empty());
    assert!(s.updates().is_empty());
    assert!(s.deleted().is_empty());
    assert_eq!(s.origin().sons.len(), 2);
}

#[test]
fn discard_leaves_empty_difference() {
    let mut s = session(family());
    s.edit(2, &Edit::Rename { name: "Aly".to_string(), is_male: false });
    s.edit(1, &Edit::RemoveSons { ids: vec![3] });
    s.edit(4, &Edit::AddSon { son: Member::new("New".to_string()) });
    assert!(!s.updates().is_empty());
    s.discard();
    assert!(s.updates().is_empty());
    assert!(s.created().is_empty());
    assert!(s.deleted().is_empty());
    assert_eq!(s.copy.sons.len(), 2);
    assert_eq!(s.copy.sons[0].name, "Ali");
}

#[test]
fn rename_yields_one_update_each_time() {
    let mut s = session(family());
    s.edit(4, &Edit::Rename { name: "Umar".to_string(), is_male: true });
    for _ in 0..2 {
        let u = s.updates();
        assert_eq!(u.len(), 1);
        assert_eq!((u[0].id, u[0].name.as_str(), u[0].is_male), (4, "Umar", true));
        assert!(s.created().is_empty());
        assert!(s.deleted().is_empty());
    }
}

#[test]
fn flag_change_alone_is_an_update() {
    let origin = family();
    let mut copy = family();
    copy.sons[1].is_male = false;
    let u = updated_members(&origin, &copy);
    assert_eq!(u.len(), 1);
    assert_eq!((u[0].id, u[0].name.as_str(), u[0].is_male), (3, "Hasan", false));
}

#[test]
fn new_subtree_is_one_creation() {
    let mut s = session(family());
    let sub = Member::from_raw(node(20, "X", vec![node(21, "Y", vec![leaf(22, "Z")])]));
    s.edit(3, &Edit::AddSon { son: sub });
    let created = s.created();
    assert_eq!(created.len(), 1);
    assert_eq!(created[0].0, 3);
    let t = &created[0].1;
    assert_eq!((t.id, t.sons[0].id, t.sons[0].sons[0].id), (20, 21, 22));
    assert!(t.sons[0].sons[0].sons.is_empty());
    assert!(s.updates().is_empty());
    assert!(s.deleted().is_empty());
}

#[test]
fn removed_subtree_is_one_deletion() {
    let mut s = session(family());
    s.edit(1, &Edit::RemoveSons { ids: vec![2] });
    assert_eq!(s.deleted(), vec![2]);
    assert!(s.created().is_empty());
    assert!(s.updates().is_empty());
}

#[test]
fn moved_node_shows_as_deleted_and_created() {
    let origin = family();
    let copy = node(1, "Root", vec![node(2, "Ali", vec![leaf(4, "Omar")]), node(3, "Hasan", vec![leaf(5, "Zaid")])]);
    assert_eq!(deleted_members(&origin, &copy), vec![5]);
    let created = created_members(&origin, &copy);
    assert_eq!(created.len(), 1);
    assert_eq!((created[0].0, created[0].1.id), (3, 5));
}

#[test]
fn failed_update_batch_keeps_session_and_replans_the_same() {
    let mut s = session(family());
    s.edit(3, &Edit::AddSon { son: Member::from_raw(node(30, "K", vec![leaf(31, "L")])) });
    s.edit(2, &Edit::RemoveSons { ids: vec![5] });
    s.edit(4, &Edit::Rename { name: "Umar".to_string(), is_male: true });
    let first: Vec<String> = s.commit_plan().iter().map(describe).collect();
    assert_eq!(
        first,
        vec![
            "create Some(3) 30 K".to_string(),
            "create Some(30) 31 L".to_string(),
            "delete 5".to_string(),
            "update [4=Umar/true]".to_string(),
        ]
    );
    let mut run = CommitRun::new(s.commit_plan());
    assert_eq!(run_all(&mut run, Some(3)), vec![0, 1, 2, 3]);
    assert_eq!(run.step(), CommitStep::Rollback);
    assert_eq!(s.commit(&run), Err(TreeError::Persistence));
    assert_eq!(s.origin().sons[0].sons.len(), 2);
    let second: Vec<String> = s.commit_plan().iter().map(describe).collect();
    assert_eq!(second, first);
    let mut again = CommitRun::new(s.commit_plan());
    assert_eq!(run_all(&mut again, None), vec![0, 1, 2, 3]);
    assert_eq!(s.commit(&again), Ok(()));
    assert!(s.commit_plan().len() == 1);
}

#[test]
fn failed_transaction_commit_aborts() {
    let mut s = session(family());
    s.edit(3, &Edit::Rename { name: "Hussein".to_string(), is_male: true });
    let mut run = CommitRun::new(s.commit_plan());
    assert_eq!(run.step(), CommitStep::Issue(0));
    run.report(true);
    assert_eq!(run.step(), CommitStep::CommitTransaction);
    run.report(false);
    assert_eq!(run.step(), CommitStep::Rollback);
    assert_eq!(s.commit(&run), Err(TreeError::Persistence));
    assert_eq!(s.updates().len(), 1);
}

#[test]
fn subtree_creates_parents_first() {
    let t = node(1, "A", vec![node(2, "B", vec![leaf(4, "D")]), leaf(3, "C")]);
    let text: Vec<String> = subtree_creates(None, &t).iter().map(describe).collect();
    assert_eq!(
        text,
        vec![
            "create None 1 A".to_string(),
            "create Some(1) 2 B".to_string(),
            "create Some(2) 4 D".to_string(),
            "create Some(1) 3 C".to_string(),
        ]
    );
}

#[test]
fn plan_orders_creates_deletes_updates() {
    let origin = family();
    let mut copy = family();
    copy.sons.remove(1);
    copy.sons[0].name = "Aly".to_string();
    copy.sons[0].sons.push(leaf(9, "N"));
    let updates = ensab::commit::ServerUpdates {
        created_members: created_members(&origin, &copy),
        deleted_members: deleted_members(&origin, &copy),
        updated_members: updated_members(&origin, &copy),
    };
    let text: Vec<String> = plan_commit(&updates).iter().map(describe).collect();
    assert_eq!(
        text,
        vec!["create Some(2) 9 N".to_string(), "delete 3".to_string(), "update [2=Aly/true]".to_string()]
    );
}

#[test]
fn deep_clone_and_conversions_keep_the_tree() {
    let t = family();
    let c = t.deep_clone();
    let m = Member::from_raw(c);
    let back = m.raw();
    assert_eq!(back.sons[0].sons[1].name, "Zaid");
    assert_eq!(back.sons[0].sons[1].id, 5);
    assert_eq!(m.deep_clone().sons.len(), 2);
    let sl = t.sons[0].sonless();
    assert_eq!((sl.id, sl.name.as_str(), sl.is_male), (2, "Ali", true));
}

#[test]
fn find_son_is_pre_order() {
    let t = family();
    assert_eq!(t.find_son(5).map(|m| m.name.clone()), Some("Zaid".to_string()));
    assert_eq!(t.find_son(1).map(|m| m.id), Some(1));
    assert!(t.find_son(99).is_none());
}
