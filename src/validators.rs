use vstd::prelude::*;
use vstd::string::StringExecFns;

verus! {

/// The registry of validators and their stakes.
pub struct Validators {
    entries: Vec<(String, u32)>,
    stakes: Ghost<Map<Seq<char>, u32>>,
}

impl View for Validators {
    type V = Map<Seq<char>, u32>;

    closed spec fn view(&self) -> Map<Seq<char>, u32> {
        self.stakes@
    }
}

impl Validators {
    closed spec fn ids(&self) -> Seq<Seq<char>> {
        self.entries@.map_values(|e: (String, u32)| e.0@)
    }

    /// The entries hold each identifier once, and exactly the stakes of the model.
    pub closed spec fn wf(&self) -> bool {
        &&& self.ids().no_duplicates()
        &&& self.stakes@.dom() == self.ids().to_set()
        &&& forall|i: int| 0 <= i < self.entries@.len()
            ==> self.stakes@[#[trigger] self.entries@[i].0@] == self.entries@[i].1
    }

    /// An empty registry.
    pub fn new() -> (r: Validators)
        ensures
            r.wf(),
            r@ == Map::<Seq<char>, u32>::empty(),
    {
        let r = Validators { entries: Vec::new(), stakes: Ghost(Map::empty()) };
        assert(r.ids().to_set() =~= Set::empty());
        r
    }

    fn position(&self, key: &String) -> (r: Option<usize>)
        requires
            self.wf(),
        ensures
            r matches Some(i) ==> i < self.entries@.len() && self.entries@[i as int].0@ == key@,
            r is None ==> !self.ids().contains(key@),
    {
        let mut i: usize = 0;
        while i < self.entries.len()
            invariant
                i <= self.entries@.len(),
                forall|j: int| 0 <= j < i ==> self.entries@[j].0@ != key@,
            decreases self.entries@.len() - i,
        {
            if self.entries[i].0 == *key {
                return Some(i);
            }
            i = i + 1;
        }
        assert(!self.ids().contains(key@)) by {
            if self.ids().contains(key@) {
                let j = choose|j: int| 0 <= j < self.ids().len() && self.ids()[j] == key@;
                assert(self.entries@[j].0@ == key@);
            }
        }
        None
    }

    /// Registers `key` with stake `value`, replacing any earlier stake.
    pub fn insert(&mut self, key: &str, value: u32)
        requires
            old(self).wf(),
        ensures
            final(self).wf(),
            final(self)@ == old(self)@.insert(key@, value),
    {
        let k = String::from_str(key);
        match self.position(&k) {
            Some(i) => {
                self.entries.set(i, (k, value));
                self.stakes = Ghost(self.stakes@.insert(key@, value));
                assert(self.ids() =~= old(self).ids());
                assert forall|j: int| 0 <= j < self.entries@.len()
                    implies self.stakes@[#[trigger] self.entries@[j].0@] == self.entries@[j].1 by {
                    if j != i {
                        assert(old(self).ids()[j] != old(self).ids()[i as int]);
                        assert(old(self).stakes@[old(self).entries@[j].0@] == old(self).entries@[j].1);
                    }
                }
                assert(self.stakes@.dom() =~= self.ids().to_set()) by {
                    assert(old(self).ids()[i as int] == key@);
                }
            },
            None => {
                self.entries.push((k, value));
                self.stakes = Ghost(self.stakes@.insert(key@, value));
                assert(self.ids() =~= old(self).ids().push(key@));
                assert forall|j: int| 0 <= j < self.entries@.len()
                    implies self.stakes@[#[trigger] self.entries@[j].0@] == self.entries@[j].1 by {
                    if j < old(self).entries@.len() {
                        assert(old(self).ids()[j] == old(self).entries@[j].0@);
                        assert(old(self).stakes@[old(self).entries@[j].0@] == old(self).entries@[j].1);
                    }
                }
                assert(self.stakes@.dom() =~= self.ids().to_set()) by {
                    assert forall|x: Seq<char>| self.ids().to_set().contains(x)
                        implies #[trigger] self.stakes@.dom().contains(x) by {
                        let j = choose|j: int| 0 <= j < self.ids().len() && self.ids()[j] == x;
                        if j < old(self).ids().len() {
                            assert(old(self).ids()[j] == x);
                        }
                    }
                    assert forall|x: Seq<char>| #[trigger] self.stakes@.dom().contains(x)
                        implies self.ids().to_set().contains(x) by {
                        if x != key@ {
                            assert(old(self).ids().to_set().contains(x));
                            let j = choose|j: int| 0 <= j < old(self).ids().len() && old(self).ids()[j] == x;
                            assert(self.ids()[j] == x);
                        } else {
                            assert(self.ids()[self.ids().len() - 1] == x);
                        }
                    }
                }
            },
        }
    }

    /// The number of registered validators.
    pub fn len(&self) -> (r: usize)
        requires
            self.wf(),
        ensures
            r == self@.len(),
    {
        proof {
            self.ids().unique_seq_to_set();
        }
        self.entries.len()
    }

    /// The stake registered for `key`, if any.
    pub fn stake(&self, key: &str) -> (r: Option<u32>)
        requires
            self.wf(),
        ensures
            r == (if self@.contains_key(key@) { Some(self@[key@]) } else { None::<u32> }),
    {
        let k = String::from_str(key);
        match self.position(&k) {
            Some(i) => {
                proof {
                    assert(self.ids()[i as int] == key@);
                }
                Some(self.entries[i].1)
            },
            None => None,
        }
    }
}

} // verus!
