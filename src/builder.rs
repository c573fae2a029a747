//! Building members and merging new material into a tree by name.
use vstd::prelude::*;
use crate::member::{FamilyNode, Member, TreeError};

verus! {

/// The position of the first son in `cs` whose name is `name`.
pub open spec fn first_name_index(cs: Seq<FamilyNode>, name: Seq<char>) -> Option<int>
    decreases cs.len(),
{
    if cs.len() == 0 {
        None
    } else {
        match first_name_index(cs.subrange(0, cs.len() - 1), name) {
            Some(j) => Some(j),
            None => if cs[cs.len() - 1].name == name {
                Some(cs.len() - 1)
            } else {
                None
            },
        }
    }
}

/// `n` after `s` is added as a son: where `n` already has a son of the same
/// name, the sons of `s` are merged into that son one by one; otherwise `s`
/// is appended unchanged.
pub open spec fn merge_son(n: FamilyNode, s: FamilyNode) -> FamilyNode
    decreases s,
{
    match first_name_index(n.sons, s.name) {
        Some(j) => FamilyNode { sons: n.sons.update(j, merge_all(n.sons[j], s.sons)), ..n },
        None => FamilyNode { sons: n.sons.push(s), ..n },
    }
}

/// `n` after each of `ss` is merged into it, in order.
pub open spec fn merge_all(n: FamilyNode, ss: Seq<FamilyNode>) -> FamilyNode
    decreases ss,
{
    if ss.len() == 0 {
        n
    } else {
        merge_son(merge_all(n, ss.subrange(0, ss.len() - 1)), ss[ss.len() - 1])
    }
}

pub proof fn lemma_first_name_index(cs: Seq<FamilyNode>, name: Seq<char>)
    ensures
        match first_name_index(cs, name) {
            Some(j) => 0 <= j < cs.len() && cs[j].name == name && forall|k: int|
                0 <= k < j ==> #[trigger] cs[k].name != name,
            None => forall|k: int| 0 <= k < cs.len() ==> #[trigger] cs[k].name != name,
        },
    decreases cs.len(),
{
    if cs.len() > 0 {
        let pre = cs.subrange(0, cs.len() - 1);
        lemma_first_name_index(pre, name);
        assert forall|k: int| 0 <= k < pre.len() implies pre[k] == cs[k] by {}
    }
}

impl Member {
    /// The position of the first son whose name is `name`.
    pub fn name_position(&self, name: &String) -> (r: Option<usize>)
        ensures
            match r {
                Some(j) => j < self.sons@.len() && first_name_index(self@.sons, name@) == Some(
                    j as int,
                ),
                None => first_name_index(self@.sons, name@) is None,
            },
    {
        let mut j: usize = 0;
        while j < self.sons.len()
            invariant
                j <= self.sons@.len(),
                self@.sons.len() == self.sons@.len(),
                forall|k: int| 0 <= k < j ==> #[trigger] self@.sons[k].name != name@,
            decreases self.sons@.len() - j,
        {
            assert(self@.sons[j as int] == self.sons@[j as int]@);
            if self.sons[j].name == *name {
                proof {
                    let cs = self@.sons;
                    lemma_first_name_index(cs, name@);
                    assert(cs[j as int].name == name@);
                    match first_name_index(cs, name@) {
                        Some(f) => {
                            if f < j {
                                assert(cs[f].name != name@);
                            }
                        },
                        None => {},
                    }
                }
                return Some(j);
            }
            j += 1;
        }
        proof {
            lemma_first_name_index(self@.sons, name@);
        }
        None
    }

    /// Adds `member` as a son, merging by name: if a son of the same name
    /// exists, the sons of `member` are added to that son instead, by the
    /// same rule.
    pub fn add_son(&mut self, member: Member)
        ensures
            final(self)@ == merge_son(old(self)@, member@),
        decreases member@,
    {
        let ghost n0 = self@;
        match self.name_position(&member.name) {
            Some(j) => {
                let ghost ms = member@.sons;
                let ghost target = n0.sons[j as int];
                let mut i: usize = 0;
                assert(ms.subrange(0, 0) =~= Seq::<FamilyNode>::empty());
                assert(n0.sons.update(j as int, target) =~= n0.sons);
                while i < member.sons.len()
                    invariant
                        i <= member.sons@.len(),
                        j < self.sons@.len(),
                        ms == member@.sons,
                        ms.len() == member.sons@.len(),
                        j < n0.sons.len(),
                        target == n0.sons[j as int],
                        self@ == (FamilyNode {
                            sons: n0.sons.update(
                                j as int,
                                merge_all(target, ms.subrange(0, i as int)),
                            ),
                            ..n0
                        }),
                    decreases member.sons@.len() - i,
                {
                    let ghost prev = self@;
                    let ghost before = self.sons@;
                    let p = member.sons[i].deep_clone();
                    assert(p@ == ms[i as int]);
                    assert(ms.subrange(0, i + 1).subrange(0, i as int) =~= ms.subrange(
                        0,
                        i as int,
                    ));
                    assert(before[j as int]@ == prev.sons[j as int]);
                    self.sons[j].add_son(p);
                    assert forall|k: int| 0 <= k < self.sons@.len() implies #[trigger] self@.sons[k]
                        == (if k == j {
                        merge_son(prev.sons[j as int], ms[i as int])
                    } else {
                        prev.sons[k]
                    }) by {
                        if k != j {
                            assert(self.sons@[k] == before[k]);
                        }
                    }
                    let ghost sub = ms.subrange(0, i + 1);
                    assert(sub[i as int] == ms[i as int]);
                    assert(merge_all(target, sub) == merge_son(
                        merge_all(target, sub.subrange(0, i as int)),
                        sub[i as int],
                    ));
                    assert(prev.sons[j as int] == merge_all(target, ms.subrange(0, i as int)));
                    let ghost want = n0.sons.update(j as int, merge_all(target, sub));
                    assert(self.sons@.len() == before.len());
                    assert(prev.sons.len() == n0.sons.len());
                    assert(before.len() == prev.sons.len());
                    assert(self@.sons.len() == self.sons@.len());
                    assert(self@.sons.len() == want.len());
                    assert forall|k: int| 0 <= k < want.len() implies self@.sons[k] == want[k] by {
                        if k != j {
                            assert(prev.sons[k] == n0.sons[k]);
                        }
                    }
                    assert(self@.sons =~= want);
                    i += 1;
                }
                assert(ms.subrange(0, ms.len() as int) =~= ms);
            },
            None => {
                let ghost old_sons = self.sons@;
                self.sons.push(member);
                assert forall|k: int| 0 <= k < self.sons@.len() implies #[trigger] self@.sons[k]
                    == n0.sons.push(member@)[k] by {
                    if k < old_sons.len() {
                        assert(self.sons@[k] == old_sons[k]);
                    }
                }
                assert(self@.sons =~= n0.sons.push(member@));
            },
        }
    }
}

/// `sep` occurs in `s` starting at position `i`.
pub open spec fn occurs_at(s: Seq<char>, sep: Seq<char>, i: int) -> bool {
    0 <= i && i + sep.len() <= s.len() && s.subrange(i, i + sep.len()) == sep
}

/// `i` is the leftmost position at which a non-empty `sep` occurs in `s`.
pub open spec fn leftmost_at(s: Seq<char>, sep: Seq<char>, i: int) -> bool {
    sep.len() > 0 && occurs_at(s, sep, i) && forall|k: int| 0 <= k < i ==> !occurs_at(s, sep, k)
}

/// The pieces of `s` between the leftmost non-overlapping occurrences of a
/// non-empty `sep`, in order; `s` itself when `sep` is empty.
pub open spec fn split_pieces(s: Seq<char>, sep: Seq<char>) -> Seq<Seq<char>>
    decreases s.len(),
{
    if exists|i: int| leftmost_at(s, sep, i) {
        let i = choose|i: int| leftmost_at(s, sep, i);
        seq![s.subrange(0, i)] + split_pieces(s.subrange(i + sep.len(), s.len() as int), sep)
    } else {
        seq![s]
    }
}

/// The non-empty names of `segs`, in order.
pub open spec fn usable_names(segs: Seq<Seq<char>>) -> Seq<Seq<char>>
    decreases segs.len(),
{
    if segs.len() == 0 {
        segs
    } else {
        let rest = usable_names(segs.subrange(0, segs.len() - 1));
        if segs[segs.len() - 1].len() > 0 {
            rest.push(segs[segs.len() - 1])
        } else {
            rest
        }
    }
}

/// `t` is a chain of male members, one son per level, whose names from the
/// top down are `names`.
pub open spec fn is_chain_of(t: FamilyNode, names: Seq<Seq<char>>) -> bool
    decreases names.len(),
{
    names.len() >= 1 && t.name == names[0] && t.is_male && if names.len() == 1 {
        t.sons.len() == 0
    } else {
        t.sons.len() == 1 && is_chain_of(t.sons[0], names.subrange(1, names.len() as int))
    }
}

/// Relies on str::split with a string pattern: the pieces of `s` between the
/// leftmost non-overlapping occurrences of `sep`, in order.
#[verifier::external_body]
fn split_text(s: &str, sep: &str) -> (r: Vec<String>)
    requires
        sep@.len() > 0,
    ensures
        r@.map_values(|p: String| p@) == split_pieces(s@, sep@),
{
    s.split(sep).map(|p| p.to_string()).collect()
}

/// The segments of `path` between the occurrences of `separator`.
pub fn split_path(path: &str, separator: &str) -> (r: Vec<String>)
    ensures
        r@.map_values(|p: String| p@) == split_pieces(path@, separator@),
{
    if separator.is_empty() {
        let whole = path.to_owned();
        let mut r: Vec<String> = Vec::new();
        r.push(whole);
        assert(!exists|i: int| leftmost_at(path@, separator@, i));
        assert(r@.map_values(|p: String| p@) =~= seq![path@]);
        r
    } else {
        split_text(path, separator)
    }
}

/// A chain of new male members with fresh ids named by the non-empty
/// `segments`, the first on top; `EmptyPath` when there is none.
pub fn chain_from_segments(segments: &Vec<String>) -> (r: Result<Member, TreeError>)
    ensures
        match r {
            Ok(m) => is_chain_of(m@, usable_names(segments@.map_values(|p: String| p@))),
            Err(e) => e == TreeError::EmptyPath && usable_names(
                segments@.map_values(|p: String| p@),
            ).len() == 0,
        },
{
    let ghost segs = segments@.map_values(|p: String| p@);
    let mut names: Vec<String> = Vec::new();
    let mut i: usize = 0;
    assert(segs.subrange(0, 0) =~= Seq::<Seq<char>>::empty());
    while i < segments.len()
        invariant
            i <= segments@.len(),
            segs == segments@.map_values(|p: String| p@),
            names@.map_values(|p: String| p@) == usable_names(segs.subrange(0, i as int)),
        decreases segments@.len() - i,
    {
        let ghost before = names@.map_values(|p: String| p@);
        assert(segs.subrange(0, i + 1).subrange(0, i as int) =~= segs.subrange(0, i as int));
        assert(segs[i as int] == segments@[i as int]@);
        if !segments[i].as_str().is_empty() {
            names.push(segments[i].clone());
            assert(names@.map_values(|p: String| p@) =~= before.push(segs[i as int]));
        }
        i += 1;
    }
    assert(segs.subrange(0, segs.len() as int) =~= segs);
    let ghost ns = names@.map_values(|p: String| p@);
    if names.len() == 0 {
        return Err(TreeError::EmptyPath);
    }
    let mut k: usize = names.len() - 1;
    let mut node = Member::new(names[k].clone());
    assert(ns.subrange(k as int, ns.len() as int) =~= seq![ns[k as int]]);
    while k > 0
        invariant
            k < names@.len(),
            ns == names@.map_values(|p: String| p@),
            is_chain_of(node@, ns.subrange(k as int, ns.len() as int)),
        decreases k,
    {
        k -= 1;
        let mut parent = Member::new(names[k].clone());
        let ghost below = node@;
        parent.sons.push(node);
        let ghost tail = ns.subrange(k as int, ns.len() as int);
        assert(tail.subrange(1, tail.len() as int) =~= ns.subrange(k + 1, ns.len() as int));
        assert(parent@.sons[0] == below);
        node = parent;
    }
    assert(ns.subrange(0, ns.len() as int) =~= ns);
    Ok(node)
}

impl Member {
    /// Builds a chain of new members from a path of names split on
    /// `separator`, the first name on top; empty names are skipped.
    pub fn build_chain(path: &str, separator: &str) -> (r: Result<Member, TreeError>)
        ensures
            match r {
                Ok(m) => is_chain_of(m@, usable_names(split_pieces(path@, separator@))),
                Err(e) => e == TreeError::EmptyPath && usable_names(
                    split_pieces(path@, separator@),
                ).len() == 0,
            },
    {
        let segments = split_path(path, separator);
        chain_from_segments(&segments)
    }

    /// Builds a chain of new members from names written `a->b->c`.
    pub fn create_from_name(name: &str) -> (r: Result<Member, TreeError>)
        ensures
            match r {
                Ok(m) => is_chain_of(m@, usable_names(split_pieces(name@, seq!['-', '>']))),
                Err(e) => e == TreeError::EmptyPath && usable_names(
                    split_pieces(name@, seq!['-', '>']),
                ).len() == 0,
            },
    {
        proof {
            reveal_strlit("->");
        }
        let r = Member::build_chain(name, "->");
        assert("->"@ =~= seq!['-', '>']);
        r
    }
}

} // verus!
