//! The tree node types and their mathematical model.
use vstd::prelude::*;

verus! {

/// The model of one node of a family tree, with its whole subtree.
pub struct FamilyNode {
    pub id: u128,
    pub name: Seq<char>,
    pub is_male: bool,
    pub sons: Seq<FamilyNode>,
}

/// The model of a node's own attributes, without its sons.
pub struct MemberAttrs {
    pub id: u128,
    pub name: Seq<char>,
    pub is_male: bool,
}

impl FamilyNode {
    pub open spec fn attrs(self) -> MemberAttrs {
        MemberAttrs { id: self.id, name: self.name, is_male: self.is_male }
    }
}

/// What a node of the tree is currently doing in the editor.
#[derive(Clone, Copy, PartialEq, Eq, Structural, Debug, Default)]
pub enum Action {
    #[default]
    Preview,
    Add,
    Remove,
    Update,
}

/// The failures of the library's operations.
#[derive(Clone, Copy, PartialEq, Eq, Structural, Debug)]
pub enum TreeError {
    /// A path of names held no usable name.
    EmptyPath,
    /// A requested tree could not be resolved.
    NotFound,
    /// An operation against the store failed during a commit.
    Persistence,
}

/// A plain tree node, as loaded from and sent to the store.
#[derive(Debug)]
pub struct RawMember {
    pub id: u128,
    pub name: String,
    pub is_male: bool,
    pub sons: Vec<RawMember>,
}

/// A node's attributes without its sons.
#[derive(Debug)]
pub struct SonlessRawMember {
    pub id: u128,
    pub name: String,
    pub is_male: bool,
}

/// A node of the working copy: the plain node plus its editor state.
#[derive(Debug)]
pub struct Member {
    pub id: u128,
    pub name: String,
    pub is_male: bool,
    pub sons: Vec<Member>,
    pub action: Action,
}

impl SonlessRawMember {
    pub open spec fn view(&self) -> MemberAttrs {
        MemberAttrs { id: self.id, name: self.name@, is_male: self.is_male }
    }
}

impl RawMember {
    pub open spec fn view(&self) -> FamilyNode
        decreases self,
    {
        FamilyNode {
            id: self.id,
            name: self.name@,
            is_male: self.is_male,
            sons: Seq::new(
                self.sons@.len(),
                |i: int|
                    if 0 <= i < self.sons@.len() {
                        self.sons@[i].view()
                    } else {
                        arbitrary()
                    },
            ),
        }
    }

    /// A copy of the whole subtree.
    pub fn deep_clone(&self) -> (r: RawMember)
        ensures
            r@ == self@,
        decreases self@,
    {
        let mut sons: Vec<RawMember> = Vec::new();
        let mut i: usize = 0;
        while i < self.sons.len()
            invariant
                i <= self.sons@.len(),
                sons@.len() == i,
                forall|k: int| 0 <= k < i ==> #[trigger] sons@[k]@ == self.sons@[k]@,
            decreases self.sons@.len() - i,
        {
            assert(self@.sons[i as int] == self.sons@[i as int]@);
            let son = self.sons[i].deep_clone();
            sons.push(son);
            i += 1;
        }
        let r = RawMember { id: self.id, name: self.name.clone(), is_male: self.is_male, sons };
        assert forall|k: int| 0 <= k < r.sons@.len() implies r@.sons[k] == self@.sons[k] by {
            assert(sons@[k]@ == self.sons@[k]@);
        }
        assert(r@.sons =~= self@.sons);
        r
    }

    /// The first node of this subtree, in pre-order, whose id is `id`.
    pub fn find_son(&self, id: u128) -> (r: Option<&RawMember>)
        ensures
            match r {
                Some(m) => find_first(self@, id) == Some(m@),
                None => find_first(self@, id) is None,
            },
        decreases self@,
    {
        if self.id == id {
            return Some(self);
        }
        let ghost ss = self@.sons;
        let mut i: usize = 0;
        assert(ss.subrange(0, 0) =~= Seq::<FamilyNode>::empty());
        while i < self.sons.len()
            invariant
                i <= self.sons@.len(),
                ss == self@.sons,
                ss.len() == self.sons@.len(),
                self.id != id,
                find_first_in(ss.subrange(0, i as int), id) is None,
            decreases self.sons@.len() - i,
        {
            assert(ss.subrange(0, i + 1).subrange(0, i as int) =~= ss.subrange(0, i as int));
            assert(self.sons@[i as int]@ == ss[i as int]);
            let found = self.sons[i].find_son(id);
            if let Some(m) = found {
                proof {
                    let p = ss.subrange(0, i + 1);
                    assert(p[i as int] == ss[i as int]);
                    lemma_find_first_prefix(ss, id, i + 1);
                }
                return Some(m);
            }
            i += 1;
        }
        assert(ss.subrange(0, ss.len() as int) =~= ss);
        None
    }

    /// The node's attributes without its sons.
    pub fn sonless(&self) -> (r: SonlessRawMember)
        ensures
            r@ == self@.attrs(),
    {
        SonlessRawMember { id: self.id, name: self.name.clone(), is_male: self.is_male }
    }
}

/// The first node of `t` in pre-order whose id is `id`.
pub open spec fn find_first(t: FamilyNode, id: u128) -> Option<FamilyNode>
    decreases t,
{
    if t.id == id {
        Some(t)
    } else {
        find_first_in(t.sons, id)
    }
}

pub open spec fn find_first_in(ss: Seq<FamilyNode>, id: u128) -> Option<FamilyNode>
    decreases ss,
{
    if ss.len() == 0 {
        None
    } else {
        match find_first_in(ss.subrange(0, ss.len() - 1), id) {
            Some(f) => Some(f),
            None => find_first(ss[ss.len() - 1], id),
        }
    }
}

/// A match found in a prefix of the sons is the first match of them all.
pub proof fn lemma_find_first_prefix(ss: Seq<FamilyNode>, id: u128, m: int)
    requires
        0 <= m <= ss.len(),
        find_first_in(ss.subrange(0, m), id) is Some,
    ensures
        find_first_in(ss, id) == find_first_in(ss.subrange(0, m), id),
    decreases ss.len() - m,
{
    if m < ss.len() {
        let p = ss.subrange(0, m + 1);
        assert(p.subrange(0, m) =~= ss.subrange(0, m));
        lemma_find_first_prefix(ss, id, m + 1);
    } else {
        assert(ss.subrange(0, m) =~= ss);
    }
}

/// Relies on uuid::Uuid::new_v4 (read back with Uuid::as_u128): a random
/// identifier whose version field is 4.
#[verifier::external_body]
pub(crate) fn fresh_id() -> (r: u128)
    ensures
        (r >> 76u128) & 0xfu128 == 4u128,
{
    uuid::Uuid::new_v4().as_u128()
}

impl Member {
    pub open spec fn view(&self) -> FamilyNode
        decreases self,
    {
        FamilyNode {
            id: self.id,
            name: self.name@,
            is_male: self.is_male,
            sons: Seq::new(
                self.sons@.len(),
                |i: int|
                    if 0 <= i < self.sons@.len() {
                        self.sons@[i].view()
                    } else {
                        arbitrary()
                    },
            ),
        }
    }

    /// A new male member with a fresh id and no sons.
    pub fn new(name: String) -> (r: Member)
        ensures
            r@.name == name@,
            r@.is_male,
            r@.sons.len() == 0,
            r.action == Action::Preview,
    {
        let id = fresh_id();
        let r = Member { id, name, is_male: true, sons: Vec::new(), action: Action::Preview };
        assert(r@.sons.len() == 0);
        r
    }

    /// A copy of the whole subtree, editor state included.
    pub fn deep_clone(&self) -> (r: Member)
        ensures
            r@ == self@,
        decreases self@,
    {
        let mut sons: Vec<Member> = Vec::new();
        let mut i: usize = 0;
        while i < self.sons.len()
            invariant
                i <= self.sons@.len(),
                sons@.len() == i,
                forall|k: int| 0 <= k < i ==> #[trigger] sons@[k]@ == self.sons@[k]@,
            decreases self.sons@.len() - i,
        {
            assert(self@.sons[i as int] == self.sons@[i as int]@);
            let son = self.sons[i].deep_clone();
            sons.push(son);
            i += 1;
        }
        let r = Member {
            id: self.id,
            name: self.name.clone(),
            is_male: self.is_male,
            sons,
            action: self.action,
        };
        assert forall|k: int| 0 <= k < r.sons@.len() implies r@.sons[k] == self@.sons[k] by {
            assert(sons@[k]@ == self.sons@[k]@);
        }
        assert(r@.sons =~= self@.sons);
        r
    }

    /// The plain tree that this working-copy subtree holds.
    pub fn raw(&self) -> (r: RawMember)
        ensures
            r@ == self@,
        decreases self@,
    {
        let mut sons: Vec<RawMember> = Vec::new();
        let mut i: usize = 0;
        while i < self.sons.len()
            invariant
                i <= self.sons@.len(),
                sons@.len() == i,
                forall|k: int| 0 <= k < i ==> #[trigger] sons@[k]@ == self.sons@[k]@,
            decreases self.sons@.len() - i,
        {
            assert(self@.sons[i as int] == self.sons@[i as int]@);
            let son = self.sons[i].raw();
            sons.push(son);
            i += 1;
        }
        let r = RawMember { id: self.id, name: self.name.clone(), is_male: self.is_male, sons };
        assert forall|k: int| 0 <= k < r.sons@.len() implies r@.sons[k] == self@.sons[k] by {
            assert(sons@[k]@ == self.sons@[k]@);
        }
        assert(r@.sons =~= self@.sons);
        r
    }

    fn from_raw_ref(raw: &RawMember) -> (r: Member)
        ensures
            r@ == raw@,
        decreases raw@,
    {
        let mut sons: Vec<Member> = Vec::new();
        let mut i: usize = 0;
        while i < raw.sons.len()
            invariant
                i <= raw.sons@.len(),
                sons@.len() == i,
                forall|k: int| 0 <= k < i ==> #[trigger] sons@[k]@ == raw.sons@[k]@,
            decreases raw.sons@.len() - i,
        {
            assert(raw@.sons[i as int] == raw.sons@[i as int]@);
            let son = Member::from_raw_ref(&raw.sons[i]);
            sons.push(son);
            i += 1;
        }
        let r = Member {
            id: raw.id,
            name: raw.name.clone(),
            is_male: raw.is_male,
            sons,
            action: Action::Preview,
        };
        assert forall|k: int| 0 <= k < r.sons@.len() implies r@.sons[k] == raw@.sons[k] by {
            assert(sons@[k]@ == raw.sons@[k]@);
        }
        assert(r@.sons =~= raw@.sons);
        r
    }

    /// A working-copy subtree holding the plain tree `raw`.
    pub fn from_raw(raw: RawMember) -> (r: Member)
        ensures
            r@ == raw@,
    {
        Member::from_raw_ref(&raw)
    }
}

} // verus!
