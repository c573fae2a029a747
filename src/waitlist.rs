//! Which node is being acted on: a stack of ids, the last one active.
use vstd::prelude::*;

verus! {

/// `s` without any occurrence of `id`, in order.
pub open spec fn without_id(s: Seq<u128>, id: u128) -> Seq<u128>
    decreases s.len(),
{
    if s.len() == 0 {
        s
    } else {
        let rest = without_id(s.subrange(0, s.len() - 1), id);
        if s[s.len() - 1] == id {
            rest
        } else {
            rest.push(s[s.len() - 1])
        }
    }
}

/// The nodes waiting to be acted on, most recent last.
pub struct ActionsWaitlist {
    ids: Vec<u128>,
}

impl ActionsWaitlist {
    pub closed spec fn view(&self) -> Seq<u128> {
        self.ids@
    }

    /// An empty waitlist.
    pub fn new() -> (r: ActionsWaitlist)
        ensures
            r@ == Seq::<u128>::empty(),
    {
        ActionsWaitlist { ids: Vec::new() }
    }

    /// Puts `id` on top.
    pub fn take(&mut self, id: u128)
        ensures
            final(self)@ == old(self)@.push(id),
    {
        self.ids.push(id);
    }

    /// Whether `id` is the one on top.
    pub fn check(&self, id: u128) -> (r: bool)
        ensures
            r == (self@.len() > 0 && self@[self@.len() - 1] == id),
    {
        let n = self.ids.len();
        n > 0 && self.ids[n - 1] == id
    }

    /// Takes every occurrence of `id` off the list.
    pub fn redraw(&mut self, id: u128)
        ensures
            final(self)@ == without_id(old(self)@, id),
    {
        let ghost s = self.ids@;
        let mut kept: Vec<u128> = Vec::new();
        let mut i: usize = 0;
        assert(s.subrange(0, 0) =~= Seq::<u128>::empty());
        while i < self.ids.len()
            invariant
                i <= s.len(),
                s == self.ids@,
                kept@ == without_id(s.subrange(0, i as int), id),
            decreases s.len() - i,
        {
            assert(s.subrange(0, i + 1).subrange(0, i as int) =~= s.subrange(0, i as int));
            if self.ids[i] != id {
                kept.push(self.ids[i]);
            }
            i += 1;
        }
        assert(s.subrange(0, s.len() as int) =~= s);
        self.ids = kept;
    }
}

} // verus!
