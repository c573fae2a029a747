use ensab::builder::split_path;
use ensab::input::{classify_param, id_or_name, IdName};
use ensab::member::{Action, Member, RawMember, TreeError};
use ensab::session::Updates;
use ensab::waitlist::ActionsWaitlist;

fn names(m: &Member) -> Vec<String> {
    let mut out = vec![m.name.clone()];
    let mut cur = m;
    while let Some(s) = cur.sons.first() {
        assert_eq!(cur.sons.len(), 1);
        out.push(s.name.clone());
        cur = s;
    }
    out
}

fn shape(m: &Member) -> String {
    let sons: Vec<String> = m.sons.iter().map(shape).collect();
    if sons.is_empty() {
        m.name.clone()
    } else {
        format!("{}({})", m.name, sons.join(","))
    }
}

#[test]
fn new_member_defaults() {
    let m = Member::new("Ahmed".to_string());
    assert_eq!(m.name, "Ahmed");
    assert!(m.is_male);
    assert!(m.sons.is_empty());
    assert_eq!(m.action, Action::Preview);
    assert_eq!((m.id >> 76) & 0xf, 4);
    assert_ne!(Member::new("x".to_string()).id, Member::new("x".to_string()).id);
}

#[test]
fn build_chain_first_name_on_top() {
    let m = Member::build_chain("a/b/c", "/").unwrap();
    assert_eq!(names(&m), vec!["a", "b", "c"]);
    assert!(m.is_male && m.sons[0].is_male && m.sons[0].sons[0].is_male);
    assert_ne!(m.id, m.sons[0].id);
}

#[test]
fn create_from_name_splits_on_arrow_and_skips_empty() {
    let m = Member::create_from_name("Omar->->Ali->").unwrap();
    assert_eq!(names(&m), vec!["Omar", "Ali"]);
    let single = Member::create_from_name("Zaid").unwrap();
    assert_eq!(names(&single), vec!["Zaid"]);
}

#[test]
fn empty_path_is_an_error() {
    assert_eq!(Member::create_from_name("").err(), Some(TreeError::EmptyPath));
    assert_eq!(Member::build_chain("->->", "->").err(), Some(TreeError::EmptyPath));
}

#[test]
fn split_path_pieces() {
    assert_eq!(split_path("a->b->->c", "->"), vec!["a", "b", "", "c"]);
    assert_eq!(split_path("a-->b", "->"), vec!["a-", "b"]);
    assert_eq!(split_path("whole", ""), vec!["whole"]);
    assert_eq!(split_path("", ","), vec![""]);
}

#[test]
fn add_son_appends_new_name() {
    let mut root = Member::new("R".to_string());
    root.add_son(Member::new("A".to_string()));
    root.add_son(Member::new("B".to_string()));
    assert_eq!(shape(&root), "R(A,B)");
}

#[test]
fn add_son_merges_by_name() {
    let mut root = Member::new("R".to_string());
    root.add_son(Member::create_from_name("A->B").unwrap());
    let a_id = root.sons[0].id;
    root.add_son(Member::create_from_name("A->C").unwrap());
    assert_eq!(shape(&root), "R(A(B,C))");
    assert_eq!(root.sons[0].id, a_id);
}

#[test]
fn merging_a_present_path_changes_nothing() {
    let mut root = Member::new("R".to_string());
    root.add_son(Member::create_from_name("A->B->C").unwrap());
    let before = root.raw();
    root.add_son(Member::create_from_name("A->B->C").unwrap());
    let after = root.raw();
    assert_eq!(shape(&root), "R(A(B(C)))");
    assert_eq!(after.sons[0].sons[0].sons[0].id, before.sons[0].sons[0].sons[0].id);
}

#[test]
fn add_sons_from_text_builds_each_piece() {
    let root = RawMember { id: 1, name: "R".to_string(), is_male: true, sons: vec![] };
    let mut s = Updates::init(Member::from_raw(root));
    s.add_sons_from_text(1, "Sara,Ali->Hasan,,", false);
    assert_eq!(shape(&s.copy), "R(Sara,Ali(Hasan))");
    assert!(!s.copy.sons[0].is_male);
    assert!(!s.copy.sons[1].is_male);
    assert!(s.copy.sons[1].sons[0].is_male);
    assert_eq!(s.created().len(), 2);
}

#[test]
fn rename_from_input_trims_and_ignores_blank() {
    let root = RawMember { id: 1, name: "R".to_string(), is_male: true, sons: vec![] };
    let mut s = Updates::init(Member::from_raw(root));
    s.rename_from_input(1, "   ", false);
    assert_eq!((s.copy.name.as_str(), s.copy.is_male), ("R", true));
    s.rename_from_input(1, "  Yusuf \n", false);
    assert_eq!((s.copy.name.as_str(), s.copy.is_male), ("Yusuf", false));
    s.rename_with(1, String::new(), true);
    assert_eq!(s.copy.name, "Yusuf");
}

#[test]
fn route_parameter_is_id_or_name() {
    match id_or_name("67e55044-10b1-426f-9247-bb680e5fe0c8") {
        IdName::Id(id) => assert_eq!(id, 0x67e5504410b1426f9247bb680e5fe0c8),
        IdName::Name(_) => panic!("expected an id"),
    }
    match id_or_name("Ahmed") {
        IdName::Name(n) => assert_eq!(n, "Ahmed"),
        IdName::Id(_) => panic!("expected a name"),
    }
    assert!(matches!(classify_param("x", Some(7)), IdName::Id(7)));
    assert!(matches!(classify_param("x", None), IdName::Name(ref n) if n == "x"));
}

#[test]
fn waitlist_stack_of_ids() {
    let mut w = ActionsWaitlist::new();
    assert!(!w.check(1));
    w.take(1);
    w.take(2);
    w.take(1);
    assert!(w.check(1));
    w.redraw(1);
    assert!(w.check(2));
    w.redraw(2);
    assert!(!w.check(2));
}
