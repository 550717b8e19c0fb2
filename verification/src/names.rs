use vstd::prelude::*;

verus! {

/// The names that the siblings walked so far have taken.
#[derive(Debug)]
pub struct NameSet {
    pub names: Vec<String>,
}

impl View for NameSet {
    type V = Set<Seq<char>>;

    open spec fn view(&self) -> Set<Seq<char>> {
        Set::new(|name: Seq<char>| exists|i: int| 0 <= i < self.names.len() && self.names[i]@ == name)
    }
}

impl NameSet {
    /// A set that holds no name.
    pub fn new() -> (set: NameSet)
        ensures
            set@ == Set::<Seq<char>>::empty(),
    {
        let set = NameSet { names: Vec::new() };
        assert(set@ =~= Set::<Seq<char>>::empty());
        set
    }

    /// Whether `name` is in the set.
    pub fn contains(&self, name: &String) -> (found: bool)
        ensures
            found == self@.contains(name@),
    {
        let mut i: usize = 0;
        while i < self.names.len()
            invariant
                i <= self.names.len(),
                forall|j: int| 0 <= j < i ==> self.names[j]@ != name@,
            decreases self.names.len() - i,
        {
            if self.names[i] == *name {
                return true;
            }
            i = i + 1;
        }
        false
    }

    /// Puts `name` into the set.
    pub fn insert(&mut self, name: &String)
        ensures
            final(self)@ == old(self)@.insert(name@),
    {
        self.names.push(name.clone());
        assert forall|text: Seq<char>| self@.contains(text) <==> old(self)@.insert(name@).contains(
            text,
        ) by {
            if self@.contains(text) {
                let i = choose|i: int| 0 <= i < self.names.len() && self.names[i]@ == text;
                if i < old(self).names.len() {
                    assert(old(self).names[i]@ == text);
                }
            }
            if old(self)@.contains(text) {
                let i = choose|i: int| 0 <= i < old(self).names.len() && old(self).names[i]@ == text;
                assert(self.names[i]@ == text);
            }
            if text == name@ {
                assert(self.names[self.names.len() - 1]@ == text);
            }
        }
        assert(self@ =~= old(self)@.insert(name@));
    }
}

} // verus!
