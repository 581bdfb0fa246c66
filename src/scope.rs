use vstd::prelude::*;

verus! {

/// The names declared so far in a program.
#[derive(Debug)]
pub struct Scope {
    vars: Vec<String>,
}

impl View for Scope {
    type V = Set<Seq<char>>;

    closed spec fn view(&self) -> Set<Seq<char>> {
        Set::new(|n: Seq<char>| exists|i: int| 0 <= i < self.vars@.len() && #[trigger] self.vars@[i]@ == n)
    }
}

impl Scope {
    /// A scope with no names.
    pub fn new() -> (r: Scope)
        ensures
            r@ == Set::<Seq<char>>::empty(),
    {
        let r = Scope { vars: Vec::new() };
        assert(r@ =~= Set::<Seq<char>>::empty());
        r
    }

    /// Whether `name` has been declared.
    pub fn has_var(&self, name: &String) -> (r: bool)
        ensures
            r == self@.contains(name@),
    {
        let mut i: usize = 0;
        while i < self.vars.len()
            invariant
                i <= self.vars@.len(),
                forall|j: int| 0 <= j < i ==> self.vars@[j]@ != name@,
            decreases self.vars@.len() - i,
        {
            if self.vars[i] == *name {
                assert(self@.contains(name@));
                return true;
            }
            i = i + 1;
        }
        false
    }

    /// Declares `name`.
    pub fn add_var(&mut self, name: String)
        ensures
            final(self)@ == old(self)@.insert(name@),
    {
        let ghost before = self.vars@;
        self.vars.push(name);
        proof {
            assert forall|n: Seq<char>| final(self)@.contains(n) == (old(self)@.insert(name@).contains(n)) by {
                if n == name@ {
                    assert(self.vars@[before.len() as int]@ == n);
                }
                if old(self)@.contains(n) {
                    let i = choose|i: int| 0 <= i < before.len() && #[trigger] before[i]@ == n;
                    assert(self.vars@[i]@ == n);
                }
            }
            assert(self@ =~= old(self)@.insert(name@));
        }
    }

    /// A copy of this scope, apart from the one it was taken from.
    pub fn snapshot(&self) -> (r: Scope)
        ensures
            r@ == self@,
    {
        let mut vars: Vec<String> = Vec::new();
        let mut i: usize = 0;
        while i < self.vars.len()
            invariant
                i <= self.vars@.len(),
                vars@.len() == i,
                forall|j: int| 0 <= j < i ==> #[trigger] vars@[j]@ == self.vars@[j]@,
            decreases self.vars@.len() - i,
        {
            vars.push(self.vars[i].clone());
            i = i + 1;
        }
        let r = Scope { vars };
        assert forall|n: Seq<char>| r@.contains(n) == self@.contains(n) by {
            if r@.contains(n) {
                let i = choose|i: int| 0 <= i < r.vars@.len() && #[trigger] r.vars@[i]@ == n;
                assert(self.vars@[i]@ == n);
            }
            if self@.contains(n) {
                let i = choose|i: int| 0 <= i < self.vars@.len() && #[trigger] self.vars@[i]@ == n;
                assert(r.vars@[i]@ == n);
            }
        }
        assert(r@ =~= self@);
        r
    }
}

} // verus!
