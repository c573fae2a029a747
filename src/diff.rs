//! The difference between a baseline tree and its working copy, matched by id.
use vstd::prelude::*;
use crate::member::{FamilyNode, MemberAttrs, RawMember, SonlessRawMember};

verus! {

/// The position of the first son in `cs` whose id is `id`.
pub open spec fn first_index(cs: Seq<FamilyNode>, id: u128) -> Option<int>
    decreases cs.len(),
{
    if cs.len() == 0 {
        None
    } else {
        match first_index(cs.subrange(0, cs.len() - 1), id) {
            Some(j) => Some(j),
            None => if cs[cs.len() - 1].id == id {
                Some(cs.len() - 1)
            } else {
                None
            },
        }
    }
}

pub open spec fn attrs_changed(o: FamilyNode, c: FamilyNode) -> bool {
    o.name != c.name || o.is_male != c.is_male
}

/// Attribute updates: the copy's attributes for every matched node whose
/// name or flag changed, the node itself first, then its sons in baseline order.
pub open spec fn updated_of(o: FamilyNode, c: FamilyNode) -> Seq<MemberAttrs>
    decreases o,
{
    (if attrs_changed(o, c) {
        seq![c.attrs()]
    } else {
        Seq::empty()
    }) + updated_in(o.sons, c.sons)
}

pub open spec fn updated_in(os: Seq<FamilyNode>, cs: Seq<FamilyNode>) -> Seq<MemberAttrs>
    decreases os,
{
    if os.len() == 0 {
        Seq::empty()
    } else {
        updated_in(os.subrange(0, os.len() - 1), cs) + match first_index(cs, os[os.len() - 1].id) {
            Some(j) => updated_of(os[os.len() - 1], cs[j]),
            None => Seq::empty(),
        }
    }
}

/// The sons of `cs` that have no counterpart by id in `os`, each with `parent`.
pub open spec fn new_sons(os: Seq<FamilyNode>, cs: Seq<FamilyNode>, parent: u128) -> Seq<(u128, FamilyNode)>
    decreases cs.len(),
{
    if cs.len() == 0 {
        Seq::empty()
    } else {
        new_sons(os, cs.subrange(0, cs.len() - 1), parent) + if first_index(os, cs[cs.len() - 1].id) is None {
            seq![(parent, cs[cs.len() - 1])]
        } else {
            Seq::empty()
        }
    }
}

/// Created subtrees, each whole and with its parent's id: the new sons of a
/// matched node first, then those found below its matched sons.
pub open spec fn created_of(o: FamilyNode, c: FamilyNode) -> Seq<(u128, FamilyNode)>
    decreases o,
{
    new_sons(o.sons, c.sons, c.id) + created_in(o.sons, c.sons)
}

pub open spec fn created_in(os: Seq<FamilyNode>, cs: Seq<FamilyNode>) -> Seq<(u128, FamilyNode)>
    decreases os,
{
    if os.len() == 0 {
        Seq::empty()
    } else {
        created_in(os.subrange(0, os.len() - 1), cs) + match first_index(cs, os[os.len() - 1].id) {
            Some(j) => created_of(os[os.len() - 1], cs[j]),
            None => Seq::empty(),
        }
    }
}

/// The ids of the sons of `os` that have no counterpart by id in `cs`.
pub open spec fn gone_sons(os: Seq<FamilyNode>, cs: Seq<FamilyNode>) -> Seq<u128>
    decreases os.len(),
{
    if os.len() == 0 {
        Seq::empty()
    } else {
        gone_sons(os.subrange(0, os.len() - 1), cs) + if first_index(cs, os[os.len() - 1].id) is None {
            seq![os[os.len() - 1].id]
        } else {
            Seq::empty()
        }
    }
}

/// Deleted ids: only the topmost node of each removed subtree.
pub open spec fn deleted_of(o: FamilyNode, c: FamilyNode) -> Seq<u128>
    decreases o,
{
    gone_sons(o.sons, c.sons) + deleted_in(o.sons, c.sons)
}

pub open spec fn deleted_in(os: Seq<FamilyNode>, cs: Seq<FamilyNode>) -> Seq<u128>
    decreases os,
{
    if os.len() == 0 {
        Seq::empty()
    } else {
        deleted_in(os.subrange(0, os.len() - 1), cs) + match first_index(cs, os[os.len() - 1].id) {
            Some(j) => deleted_of(os[os.len() - 1], cs[j]),
            None => Seq::empty(),
        }
    }
}

pub open spec fn attrs_view(v: Seq<SonlessRawMember>) -> Seq<MemberAttrs> {
    v.map_values(|m: SonlessRawMember| m@)
}

pub open spec fn created_view(v: Seq<(u128, RawMember)>) -> Seq<(u128, FamilyNode)> {
    v.map_values(|e: (u128, RawMember)| (e.0, e.1@))
}

pub proof fn lemma_first_index(cs: Seq<FamilyNode>, id: u128)
    ensures
        match first_index(cs, id) {
            Some(j) => 0 <= j < cs.len() && cs[j].id == id && forall|k: int|
                0 <= k < j ==> #[trigger] cs[k].id != id,
            None => forall|k: int| 0 <= k < cs.len() ==> #[trigger] cs[k].id != id,
        },
    decreases cs.len(),
{
    if cs.len() > 0 {
        let pre = cs.subrange(0, cs.len() - 1);
        lemma_first_index(pre, id);
        assert forall|k: int| 0 <= k < pre.len() implies pre[k] == cs[k] by {}
    }
}

/// The position of the first son of `parent` whose id is `id`.
pub fn son_position(parent: &RawMember, id: u128) -> (r: Option<usize>)
    ensures
        match r {
            Some(j) => j < parent.sons@.len() && first_index(parent@.sons, id) == Some(j as int),
            None => first_index(parent@.sons, id) is None,
        },
{
    let mut j: usize = 0;
    while j < parent.sons.len()
        invariant
            j <= parent.sons@.len(),
            parent@.sons.len() == parent.sons@.len(),
            forall|k: int| 0 <= k < j ==> #[trigger] parent@.sons[k].id != id,
        decreases parent.sons@.len() - j,
    {
        assert(parent@.sons[j as int] == parent.sons@[j as int]@);
        if parent.sons[j].id == id {
            proof {
                let cs = parent@.sons;
                lemma_first_index(cs, id);
                assert(cs[j as int].id == id);
                match first_index(cs, id) {
                    Some(f) => {
                        if f < j {
                            assert(cs[f].id != id);
                        }
                    },
                    None => {},
                }
            }
            return Some(j);
        }
        j += 1;
    }
    proof {
        lemma_first_index(parent@.sons, id);
    }
    None
}

fn collect_updated(origin: &RawMember, copy: &RawMember, out: &mut Vec<SonlessRawMember>)
    ensures
        attrs_view(final(out)@) == attrs_view(old(out)@) + updated_of(origin@, copy@),
    decreases origin@,
{
    let ghost start = attrs_view(out@);
    if !(origin.name == copy.name) || origin.is_male != copy.is_male {
        let m = copy.sonless();
        out.push(m);
        assert(attrs_view(out@) =~= start + seq![copy@.attrs()]);
    } else {
        assert(attrs_view(out@) =~= start + Seq::empty());
    }
    let ghost base = attrs_view(out@);
    let ghost os = origin@.sons;
    let ghost cs = copy@.sons;
    let mut i: usize = 0;
    assert(os.subrange(0, 0) =~= Seq::<FamilyNode>::empty());
    while i < origin.sons.len()
        invariant
            i <= origin.sons@.len(),
            os == origin@.sons,
            cs == copy@.sons,
            os.len() == origin.sons@.len(),
            attrs_view(out@) == base + updated_in(os.subrange(0, i as int), cs),
        decreases origin.sons@.len() - i,
    {
        let ghost before = attrs_view(out@);
        let son = &origin.sons[i];
        assert(son@ == os[i as int]);
        assert(os.subrange(0, i + 1).subrange(0, i as int) =~= os.subrange(0, i as int));
        match son_position(copy, son.id) {
            Some(j) => {
                assert(copy.sons@[j as int]@ == cs[j as int]);
                collect_updated(son, &copy.sons[j], out);
            },
            None => {
                assert(attrs_view(out@) =~= before + Seq::empty());
            },
        }
        i += 1;
    }
    assert(os.subrange(0, os.len() as int) =~= os);
}

/// Every attribute-only change from `origin` to `copy`.
pub fn updated_members(origin: &RawMember, copy: &RawMember) -> (r: Vec<SonlessRawMember>)
    ensures
        attrs_view(r@) == updated_of(origin@, copy@),
{
    let mut out: Vec<SonlessRawMember> = Vec::new();
    assert(attrs_view(out@) =~= Seq::empty());
    collect_updated(origin, copy, &mut out);
    assert(Seq::<MemberAttrs>::empty() + updated_of(origin@, copy@) =~= updated_of(origin@, copy@));
    out
}

fn collect_created(origin: &RawMember, copy: &RawMember, out: &mut Vec<(u128, RawMember)>)
    ensures
        created_view(final(out)@) == created_view(old(out)@) + created_of(origin@, copy@),
    decreases origin@,
{
    let ghost start = created_view(out@);
    let ghost os = origin@.sons;
    let ghost cs = copy@.sons;
    let mut i: usize = 0;
    assert(cs.subrange(0, 0) =~= Seq::<FamilyNode>::empty());
    assert(created_view(out@) =~= start + Seq::empty());
    while i < copy.sons.len()
        invariant
            i <= copy.sons@.len(),
            os == origin@.sons,
            cs == copy@.sons,
            cs.len() == copy.sons@.len(),
            created_view(out@) == start + new_sons(os, cs.subrange(0, i as int), copy.id),
        decreases copy.sons@.len() - i,
    {
        let ghost before = created_view(out@);
        let son = &copy.sons[i];
        assert(son@ == cs[i as int]);
        assert(cs.subrange(0, i + 1).subrange(0, i as int) =~= cs.subrange(0, i as int));
        if son_position(origin, son.id).is_none() {
            let c = son.deep_clone();
            out.push((copy.id, c));
            assert(created_view(out@) =~= before + seq![(copy.id, cs[i as int])]);
        } else {
            assert(created_view(out@) =~= before + Seq::empty());
        }
        i += 1;
    }
    assert(cs.subrange(0, cs.len() as int) =~= cs);
    let ghost base = created_view(out@);
    let mut i: usize = 0;
    assert(os.subrange(0, 0) =~= Seq::<FamilyNode>::empty());
    while i < origin.sons.len()
        invariant
            i <= origin.sons@.len(),
            os == origin@.sons,
            cs == copy@.sons,
            os.len() == origin.sons@.len(),
            created_view(out@) == base + created_in(os.subrange(0, i as int), cs),
        decreases origin.sons@.len() - i,
    {
        let ghost before = created_view(out@);
        let son = &origin.sons[i];
        assert(son@ == os[i as int]);
        assert(os.subrange(0, i + 1).subrange(0, i as int) =~= os.subrange(0, i as int));
        match son_position(copy, son.id) {
            Some(j) => {
                assert(copy.sons@[j as int]@ == cs[j as int]);
                collect_created(son, &copy.sons[j], out);
            },
            None => {
                assert(created_view(out@) =~= before + Seq::empty());
            },
        }
        i += 1;
    }
    assert(os.subrange(0, os.len() as int) =~= os);
}

/// Every subtree of `copy` that is new with respect to `origin`, with the id
/// of the node it hangs from.
pub fn created_members(origin: &RawMember, copy: &RawMember) -> (r: Vec<(u128, RawMember)>)
    ensures
        created_view(r@) == created_of(origin@, copy@),
{
    let mut out: Vec<(u128, RawMember)> = Vec::new();
    assert(created_view(out@) =~= Seq::empty());
    collect_created(origin, copy, &mut out);
    assert(Seq::<(u128, FamilyNode)>::empty() + created_of(origin@, copy@) =~= created_of(
        origin@,
        copy@,
    ));
    out
}

fn collect_deleted(origin: &RawMember, copy: &RawMember, out: &mut Vec<u128>)
    ensures
        final(out)@ == old(out)@ + deleted_of(origin@, copy@),
    decreases origin@,
{
    let ghost start = out@;
    let ghost os = origin@.sons;
    let ghost cs = copy@.sons;
    let mut i: usize = 0;
    assert(os.subrange(0, 0) =~= Seq::<FamilyNode>::empty());
    assert(out@ =~= start + Seq::empty());
    while i < origin.sons.len()
        invariant
            i <= origin.sons@.len(),
            os == origin@.sons,
            cs == copy@.sons,
            os.len() == origin.sons@.len(),
            out@ == start + gone_sons(os.subrange(0, i as int), cs),
        decreases origin.sons@.len() - i,
    {
        let ghost before = out@;
        let son = &origin.sons[i];
        assert(son@ == os[i as int]);
        assert(os.subrange(0, i + 1).subrange(0, i as int) =~= os.subrange(0, i as int));
        if son_position(copy, son.id).is_none() {
            out.push(son.id);
            assert(out@ =~= before + seq![os[i as int].id]);
        } else {
            assert(out@ =~= before + Seq::empty());
        }
        i += 1;
    }
    assert(os.subrange(0, os.len() as int) =~= os);
    let ghost base = out@;
    let mut i: usize = 0;
    while i < origin.sons.len()
        invariant
            i <= origin.sons@.len(),
            os == origin@.sons,
            cs == copy@.sons,
            os.len() == origin.sons@.len(),
            out@ == base + deleted_in(os.subrange(0, i as int), cs),
        decreases origin.sons@.len() - i,
    {
        let ghost before = out@;
        let son = &origin.sons[i];
        assert(son@ == os[i as int]);
        assert(os.subrange(0, i + 1).subrange(0, i as int) =~= os.subrange(0, i as int));
        match son_position(copy, son.id) {
            Some(j) => {
                assert(copy.sons@[j as int]@ == cs[j as int]);
                collect_deleted(son, &copy.sons[j], out);
            },
            None => {
                assert(out@ =~= before + Seq::empty());
            },
        }
        i += 1;
    }
    assert(os.subrange(0, os.len() as int) =~= os);
}

/// The ids of the topmost nodes of every subtree of `origin` that `copy` no
/// longer holds.
pub fn deleted_members(origin: &RawMember, copy: &RawMember) -> (r: Vec<u128>)
    ensures
        r@ == deleted_of(origin@, copy@),
{
    let mut out: Vec<u128> = Vec::new();
    collect_deleted(origin, copy, &mut out);
    assert(Seq::<u128>::empty() + deleted_of(origin@, copy@) =~= deleted_of(origin@, copy@));
    out
}

} // verus!
