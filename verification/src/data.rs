//! Shared bot data: the vote tally that the text commands read and
//! write.  The adapter wraps one `Data` value in its runtime's lock and
//! hands each command a guarded reference.

use vstd::prelude::*;

verus! {

/// A recorded tally for one voter name.
pub struct TallyV {
    pub name: Seq<char>,
    pub count: u32,
}

/// Custom user data passed to all command functions.
pub struct Data {
    votes: Vec<(String, u32)>,
}

impl View for Data {
    type V = Seq<TallyV>;

    closed spec fn view(&self) -> Seq<TallyV> {
        self.votes@.map_values(|p: (String, u32)| TallyV { name: p.0@, count: p.1 })
    }
}

/// Whether any tally carries `name`.
pub open spec fn has_name(s: Seq<TallyV>, name: Seq<char>) -> bool {
    exists|i: int| 0 <= i < s.len() && s[i].name == name
}

/// The index of the tally carrying `name` (unique under [`names_unique`]).
pub open spec fn name_idx(s: Seq<TallyV>, name: Seq<char>) -> int {
    choose|i: int| 0 <= i < s.len() && s[i].name == name
}

/// No two tallies carry the same name.
pub open spec fn names_unique(s: Seq<TallyV>) -> bool {
    forall|i: int, j: int| 0 <= i < j < s.len() ==> (#[trigger] s[i]).name != (#[trigger] s[j]).name
}

impl Data {
    /// One tally per name.
    pub closed spec fn wf(&self) -> bool {
        names_unique(self@)
    }

    /// Fresh data with no recorded votes.
    pub fn new() -> (r: Data)
        ensures
            r@ =~= Seq::<TallyV>::empty(),
            r.wf(),
    {
        let r = Data { votes: Vec::new() };
        proof {
            assert(r@ =~= Seq::<TallyV>::empty());
        }
        r
    }

    fn find(&self, name: &String) -> (r: Option<usize>)
        requires
            self.wf(),
        ensures
            r matches Some(i) ==> i < self@.len() && self@[i as int].name == name@
                && i as int == name_idx(self@, name@),
            r is None ==> !has_name(self@, name@),
    {
        let mut i: usize = 0;
        let n = self.votes.len();
        while i < n
            invariant
                i <= n == self@.len(),
                self.wf(),
                forall|j: int| 0 <= j < i ==> (#[trigger] self@[j]).name != name@,
            decreases n - i,
        {
            if self.votes[i].0.eq(name) {
                proof {
                    let v = self@;
                    assert(v[i as int].name == name@);
                    let w = name_idx(v, name@);
                    assert(v[w].name == name@);
                    if w != i as int {
                        assert(v[w].name != v[i as int].name);
                    }
                }
                return Some(i);
            }
            i += 1;
        }
        None
    }

    /// The tally recorded for `name`, zero when none is.
    pub fn get_votes(&self, name: &String) -> (r: u32)
        requires
            self.wf(),
        ensures
            has_name(self@, name@) ==> r == self@[name_idx(self@, name@)].count,
            !has_name(self@, name@) ==> r == 0,
    {
        match self.find(name) {
            Some(i) => self.votes[i].1,
            None => 0,
        }
    }

    /// Record one more vote for `name` and return the new tally.  A
    /// first vote creates the tally; a tally already at the maximum
    /// stays there.
    pub fn add_vote(&mut self, name: &String) -> (r: u32)
        requires
            old(self).wf(),
        ensures
            final(self).wf(),
            !has_name(old(self)@, name@) ==> r == 1 && final(self)@ == old(self)@.push(
                TallyV { name: name@, count: 1 },
            ),
            has_name(old(self)@, name@) ==> ({
                let i = name_idx(old(self)@, name@);
                let c = old(self)@[i].count;
                let c2 = if c < u32::MAX { (c + 1) as u32 } else { c };
                r == c2 && final(self)@ == old(self)@.update(i, TallyV { name: name@, count: c2 })
            }),
    {
        let ghost v0 = self@;
        match self.find(name) {
            Some(i) => {
                let ghost gi = i as int;
                let c = self.votes[i].1;
                let c2 = if c < u32::MAX {
                    c + 1
                } else {
                    c
                };
                self.votes.remove(i);
                self.votes.insert(i, (name.clone(), c2));
                proof {
                    assert(self@ =~= v0.update(gi, TallyV { name: name@, count: c2 }));
                    assert forall|a: int, b: int| 0 <= a < b < self@.len()
                        implies (#[trigger] self@[a]).name != (#[trigger] self@[b]).name by {
                        assert(self@[a].name == v0[a].name);
                        assert(self@[b].name == v0[b].name);
                    }
                }
                c2
            },
            None => {
                self.votes.push((name.clone(), 1));
                proof {
                    assert(self@ =~= v0.push(TallyV { name: name@, count: 1 }));
                    assert forall|a: int, b: int| 0 <= a < b < self@.len()
                        implies (#[trigger] self@[a]).name != (#[trigger] self@[b]).name by {
                        if b == self@.len() - 1 {
                            assert(self@[a] == v0[a]);
                        } else {
                            assert(self@[a] == v0[a] && self@[b] == v0[b]);
                        }
                    }
                }
                1
            },
        }
    }
}

} // verus!
