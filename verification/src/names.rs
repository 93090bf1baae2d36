use vstd::prelude::*;

use crate::text::is_same_text;

verus! {

/// Does some text of `names` read `name`?
pub open spec fn lists_name(names: Seq<String>, name: Seq<char>) -> bool {
    exists|i: int| 0 <= i < names.len() && (#[trigger] names[i])@ == name
}

/// A set of names, kept in the order they were first added.
pub struct NameSet {
    names: Vec<String>,
}

impl View for NameSet {
    type V = Set<Seq<char>>;

    closed spec fn view(&self) -> Set<Seq<char>> {
        Set::new(|name: Seq<char>| lists_name(self.names@, name))
    }
}

impl NameSet {
    /// No name is held twice.
    pub closed spec fn wf(&self) -> bool {
        forall|i: int, j: int|
            0 <= i < j < self.names@.len() ==> (#[trigger] self.names@[i])@ != (
            #[trigger] self.names@[j])@
    }

    /// The names in the order they were added.
    pub closed spec fn listed(&self) -> Seq<String> {
        self.names@
    }

    pub fn new() -> (set: NameSet)
        ensures
            set.wf(),
            set@ == Set::<Seq<char>>::empty(),
            set.listed() == Seq::<String>::empty(),
    {
        let set: NameSet = NameSet { names: Vec::new() };
        assert(set@ =~= Set::<Seq<char>>::empty());
        set
    }

    /// Is this name in the set?
    pub fn contains(&self, name: &str) -> (held: bool)
        ensures
            held == self@.contains(name@),
    {
        let mut i: usize = 0;
        while i < self.names.len()
            invariant
                i <= self.names@.len(),
                forall|k: int| 0 <= k < i ==> (#[trigger] self.names@[k])@ != name@,
            decreases self.names@.len() - i,
        {
            if is_same_text(self.names[i].as_str(), name) {
                assert(self.names@[i as int]@ == name@);
                assert(lists_name(self.names@, name@));
                return true;
            }
            i = i + 1;
        }
        assert(!lists_name(self.names@, name@));
        false
    }

    /// Adds a name; answers whether it was new.
    pub fn insert(&mut self, name: String) -> (is_new: bool)
        requires
            old(self).wf(),
        ensures
            final(self).wf(),
            is_new == !old(self)@.contains(name@),
            final(self)@ == old(self)@.insert(name@),
            is_new ==> final(self).listed() == old(self).listed().push(name),
            !is_new ==> *final(self) == *old(self),
    {
        let ghost before: Seq<String> = self.names@;
        if self.contains(name.as_str()) {
            assert(self@ =~= old(self)@.insert(name@));
            return false;
        }
        assert(!lists_name(before, name@));
        self.names.push(name);
        proof {
            assert forall|other: Seq<char>| #[trigger] lists_name(self.names@, other) <==> (
            lists_name(before, other) || other == name@) by {
                if lists_name(before, other) {
                    let i: int = choose|i: int|
                        0 <= i < before.len() && (#[trigger] before[i])@ == other;
                    assert(self.names@[i]@ == other);
                }
                if other == name@ {
                    assert(self.names@[before.len() as int]@ == other);
                }
                if lists_name(self.names@, other) && other != name@ {
                    let i: int = choose|i: int|
                        0 <= i < self.names@.len() && (#[trigger] self.names@[i])@ == other;
                    assert(before[i]@ == other);
                }
            }
            assert(self@ =~= old(self)@.insert(name@));
        }
        true
    }

    /// Drops a name; answers whether it was held.
    pub fn remove(&mut self, name: &str) -> (was_held: bool)
        requires
            old(self).wf(),
        ensures
            final(self).wf(),
            was_held == old(self)@.contains(name@),
            final(self)@ == old(self)@.remove(name@),
            was_held ==> exists|i: int|
                0 <= i < old(self).listed().len() && (#[trigger] old(self).listed()[i])@ == name@
                    && final(self).listed() == old(self).listed().remove(i),
            !was_held ==> *final(self) == *old(self),
    {
        let ghost before: Seq<String> = self.names@;
        let mut i: usize = 0;
        while i < self.names.len()
            invariant
                self.names@ == before,
                *self == *old(self),
                self.wf(),
                old(self).wf(),
                old(self).names@ == before,
                i <= self.names@.len(),
                forall|k: int| 0 <= k < i ==> (#[trigger] self.names@[k])@ != name@,
            decreases self.names@.len() - i,
        {
            if is_same_text(self.names[i].as_str(), name) {
                self.names.remove(i);
                proof {
                    let after: Seq<String> = self.names@;
                    assert(before[i as int]@ == name@);
                    assert(lists_name(before, name@));
                    assert forall|a: int, b: int| 0 <= a < b < after.len() implies (
                    #[trigger] after[a])@ != (#[trigger] after[b])@ by {
                        let x: int = if a < i { a } else { a + 1 };
                        let y: int = if b < i { b } else { b + 1 };
                        assert(after[a] == before[x]);
                        assert(after[b] == before[y]);
                    }
                    assert forall|other: Seq<char>| #[trigger] lists_name(after, other) <==> (
                    lists_name(before, other) && other != name@) by {
                        if lists_name(after, other) {
                            let a: int = choose|a: int|
                                0 <= a < after.len() && (#[trigger] after[a])@ == other;
                            let x: int = if a < i { a } else { a + 1 };
                            assert(before[x]@ == other);
                        }
                        if lists_name(before, other) && other != name@ {
                            let x: int = choose|x: int|
                                0 <= x < before.len() && (#[trigger] before[x])@ == other;
                            let a: int = if x < i { x } else { x - 1 };
                            assert(after[a]@ == other);
                        }
                    }
                    assert(self@ =~= old(self)@.remove(name@));
                    assert(old(self).listed()[i as int]@ == name@);
                    assert(self.listed() =~= old(self).listed().remove(i as int));
                }
                return true;
            }
            i = i + 1;
        }
        proof {
            assert(!lists_name(before, name@));
            assert(self@ =~= old(self)@.remove(name@));
        }
        false
    }

    /// How many names the set holds.
    pub fn len(&self) -> (count: usize)
        ensures
            count == self.listed().len(),
    {
        self.names.len()
    }

    /// The name added as the `index`th.
    pub fn at(&self, index: usize) -> (name: &String)
        requires
            index < self.listed().len(),
        ensures
            *name == self.listed()[index as int],
    {
        &self.names[index]
    }

    /// A copy that holds the same names.
    pub fn copied(&self) -> (copy: NameSet)
        ensures
            copy@ == self@,
            copy.listed() == self.listed(),
            copy.wf() == self.wf(),
    {
        let mut names: Vec<String> = Vec::new();
        let mut i: usize = 0;
        while i < self.names.len()
            invariant
                i <= self.names@.len(),
                names@ == self.names@.take(i as int),
            decreases self.names@.len() - i,
        {
            names.push(self.names[i].clone());
            assert(self.names@.take(i + 1) =~= self.names@.take(i as int).push(
                self.names@[i as int],
            ));
            i = i + 1;
        }
        assert(names@ =~= self.names@);
        NameSet { names }
    }
}

} // verus!
