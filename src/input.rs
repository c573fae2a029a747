//! Turning what a user typed into lookups and edits of the working copy.
use vstd::prelude::*;
use crate::member::{FamilyNode, Member};
use crate::builder::{is_chain_of, split_path, split_pieces, usable_names};
use crate::edit::{Edit, EditModel};
use crate::session::{after_edit, SessionView, Updates};

verus! {

/// A tree named in a route: the id of a stored tree, or the name of a new one.
#[derive(Debug)]
pub enum IdName {
    Id(u128),
    Name(String),
}

/// The identifier that `s` spells, if it spells one.
pub uninterp spec fn uuid_of(s: Seq<char>) -> Option<u128>;

/// The text `s` without its leading and trailing white space.
pub uninterp spec fn trimmed_of(s: Seq<char>) -> Seq<char>;

/// Relies on uuid::Uuid::parse_str (read back with Uuid::as_u128): the
/// identifier that the text spells in one of the formats the crate reads,
/// or none; the result depends on the text alone.
#[verifier::external_body]
fn parse_uuid(s: &str) -> (r: Option<u128>)
    ensures
        r == uuid_of(s@),
{
    uuid::Uuid::parse_str(s).ok().map(|u| u.as_u128())
}

/// Relies on str::trim: the text without leading and trailing white space.
#[verifier::external_body]
fn trim_text(s: &str) -> (r: String)
    ensures
        r@ == trimmed_of(s@),
{
    s.trim().to_string()
}

/// A route parameter read as an id where `parsed` holds one, as a name
/// otherwise.
pub fn classify_param(param: &str, parsed: Option<u128>) -> (r: IdName)
    ensures
        match parsed {
            Some(id) => r matches IdName::Id(x) && x == id,
            None => r matches IdName::Name(n) && n@ == param@,
        },
{
    match parsed {
        Some(id) => IdName::Id(id),
        None => IdName::Name(param.to_owned()),
    }
}

/// A route parameter read as the id it spells, or else as a name.
pub fn id_or_name(param: &str) -> (r: IdName)
    ensures
        match uuid_of(param@) {
            Some(id) => r matches IdName::Id(x) && x == id,
            None => r matches IdName::Name(n) && n@ == param@,
        },
{
    let parsed = parse_uuid(param);
    classify_param(param, parsed)
}

/// The name lists of the pieces that hold at least one usable name, each
/// piece split on `->`.
pub open spec fn piece_chains(pieces: Seq<Seq<char>>) -> Seq<Seq<Seq<char>>>
    decreases pieces.len(),
{
    if pieces.len() == 0 {
        Seq::empty()
    } else {
        let rest = piece_chains(pieces.subrange(0, pieces.len() - 1));
        let names = usable_names(split_pieces(pieces[pieces.len() - 1], seq!['-', '>']));
        if names.len() > 0 {
            rest.push(names)
        } else {
            rest
        }
    }
}

/// Each of `sons` has the flag `is_male` on top and is, flags aside, the
/// chain of the names at the same position of `chains`.
pub open spec fn sons_follow(sons: Seq<FamilyNode>, chains: Seq<Seq<Seq<char>>>, is_male: bool) -> bool {
    &&& sons.len() == chains.len()
    &&& forall|k: int|
        0 <= k < sons.len() ==> #[trigger] sons[k].is_male == is_male && is_chain_of(
            FamilyNode { is_male: true, ..sons[k] },
            chains[k],
        )
}

proof fn lemma_follow_push(
    sons: Seq<FamilyNode>,
    chains: Seq<Seq<Seq<char>>>,
    son: FamilyNode,
    names: Seq<Seq<char>>,
    is_male: bool,
)
    requires
        sons_follow(sons, chains, is_male),
        son.is_male == is_male,
        is_chain_of(FamilyNode { is_male: true, ..son }, names),
    ensures
        sons_follow(sons.push(son), chains.push(names), is_male),
{
    let s2 = sons.push(son);
    let c2 = chains.push(names);
    assert forall|k: int| 0 <= k < s2.len() implies #[trigger] s2[k].is_male == is_male && is_chain_of(
        FamilyNode { is_male: true, ..s2[k] },
        c2[k],
    ) by {
        if k < sons.len() {
            assert(s2[k] == sons[k]);
            assert(c2[k] == chains[k]);
        }
    }
}

/// The session after each of `sons` is added to the node `id`, in order.
pub open spec fn after_add_all(s: SessionView, id: u128, sons: Seq<FamilyNode>) -> SessionView
    decreases sons.len(),
{
    if sons.len() == 0 {
        s
    } else {
        after_edit(
            after_add_all(s, id, sons.subrange(0, sons.len() - 1)),
            id,
            EditModel::AddSon(sons[sons.len() - 1]),
        )
    }
}

impl Updates {
    /// Renames the node `id` of the working copy to `name`, unless `name`
    /// is empty.
    pub fn rename_with(&mut self, id: u128, name: String, is_male: bool)
        ensures
            final(self)@ == if name@.len() == 0 {
                old(self)@
            } else {
                after_edit(old(self)@, id, EditModel::Rename(name@, is_male))
            },
    {
        if !name.as_str().is_empty() {
            let e = Edit::Rename { name, is_male };
            self.edit(id, &e);
        }
    }

    /// Renames the node `id` to the typed text without its surrounding white
    /// space, unless nothing is left of it.
    pub fn rename_from_input(&mut self, id: u128, input: &str, is_male: bool)
        ensures
            final(self)@ == if trimmed_of(input@).len() == 0 {
                old(self)@
            } else {
                after_edit(old(self)@, id, EditModel::Rename(trimmed_of(input@), is_male))
            },
    {
        let name = trim_text(input);
        self.rename_with(id, name, is_male);
    }

    /// Adds to the node `id` one chain of new members for each
    /// comma-separated piece of `text` that holds a usable name (each piece
    /// written `a->b->c`, the first on top), the top of each with the flag
    /// `is_male`, merging by name.
    pub fn add_sons_from_text(&mut self, id: u128, text: &str, is_male: bool)
        ensures
            exists|sons: Seq<FamilyNode>|
                sons_follow(sons, piece_chains(split_pieces(text@, seq![','])), is_male)
                    && final(self)@ == #[trigger] after_add_all(old(self)@, id, sons),
    {
        proof {
            reveal_strlit(",");
        }
        let pieces = split_path(text, ",");
        assert(","@ =~= seq![',']);
        let ghost pv = pieces@.map_values(|p: String| p@);
        let ghost s0 = self@;
        let ghost mut sons: Seq<FamilyNode> = Seq::empty();
        let mut i: usize = 0;
        assert(pv.subrange(0, 0) =~= Seq::<Seq<char>>::empty());
        while i < pieces.len()
            invariant
                i <= pieces@.len(),
                pv == pieces@.map_values(|p: String| p@),
                sons_follow(sons, piece_chains(pv.subrange(0, i as int)), is_male),
                self@ == after_add_all(s0, id, sons),
            decreases pieces@.len() - i,
        {
            let ghost before = piece_chains(pv.subrange(0, i as int));
            assert(pv.subrange(0, i + 1).subrange(0, i as int) =~= pv.subrange(0, i as int));
            assert(pv[i as int] == pieces@[i as int]@);
            let ghost names = usable_names(split_pieces(pv[i as int], seq!['-', '>']));
            match Member::create_from_name(pieces[i].as_str()) {
                Ok(m) => {
                    let ghost top = m@;
                    assert(names.len() > 0);
                    assert(piece_chains(pv.subrange(0, i + 1)) == before.push(names));
                    let mut son = m;
                    son.is_male = is_male;
                    assert(son@.sons =~= top.sons);
                    assert((FamilyNode { is_male: true, ..son@ }) == top);
                    let ghost sv = son@;
                    let e = Edit::AddSon { son };
                    self.edit(id, &e);
                    proof {
                        assert(is_chain_of(FamilyNode { is_male: true, ..sv }, names));
                        lemma_follow_push(sons, before, sv, names, is_male);
                        let old_sons = sons;
                        sons = sons.push(sv);
                        assert(sons.subrange(0, sons.len() - 1) =~= old_sons);
                        assert(sons[sons.len() - 1] == sv);
                    }
                },
                Err(_) => {
                    assert(piece_chains(pv.subrange(0, i + 1)) == before);
                },
            }
            i += 1;
        }
        assert(pv.subrange(0, pv.len() as int) =~= pv);
        assert(pv == split_pieces(text@, seq![',']));
        assert(self@ == after_add_all(s0, id, sons));
        assert(sons.len() == piece_chains(split_pieces(text@, seq![','])).len());
    }
}

} // verus!
