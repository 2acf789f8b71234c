//! A set of names, held as a vector of strings.
use vstd::prelude::*;
use crate::text::same_text;

verus! {

/// Whether one of `s[0..k]` holds the characters `n`.
pub open spec fn has_name(s: Seq<String>, n: Seq<char>, k: int) -> bool {
    exists|i: int| 0 <= i < k && #[trigger] s[i]@ == n
}

proof fn lemma_has_name_step(s: Seq<String>, n: Seq<char>, k: int)
    requires
        0 <= k < s.len(),
    ensures
        has_name(s, n, k + 1) <==> (has_name(s, n, k) || s[k]@ == n),
{
    if has_name(s, n, k + 1) {
        let i = choose|i: int| 0 <= i < k + 1 && #[trigger] s[i]@ == n;
        if i < k {
            assert(has_name(s, n, k));
        }
    }
    if s[k]@ == n {
        assert(s[k]@ == n);
    }
}

proof fn lemma_has_name_push(s: Seq<String>, x: String, n: Seq<char>)
    ensures
        has_name(s.push(x), n, s.len() + 1 as int) <==> (has_name(s, n, s.len() as int) || x@ == n),
{
    let t = s.push(x);
    lemma_has_name_step(t, n, s.len() as int);
    if has_name(s, n, s.len() as int) {
        let i = choose|i: int| 0 <= i < s.len() && #[trigger] s[i]@ == n;
        assert(t[i]@ == n);
    }
    if has_name(t, n, s.len() as int) {
        let i = choose|i: int| 0 <= i < s.len() && #[trigger] t[i]@ == n;
        assert(s[i]@ == n);
    }
}

pub struct NameSet {
    pub names: Vec<String>,
}

impl View for NameSet {
    type V = Set<Seq<char>>;

    open spec fn view(&self) -> Set<Seq<char>> {
        Set::new(|n: Seq<char>| has_name(self.names@, n, self.names@.len() as int))
    }
}

impl NameSet {
    pub fn new() -> (r: NameSet)
        ensures
            r@ == Set::<Seq<char>>::empty(),
    {
        let r = NameSet { names: Vec::new() };
        assert(r@ =~= Set::<Seq<char>>::empty());
        r
    }

    pub fn contains(&self, name: &String) -> (r: bool)
        ensures
            r == self@.contains(name@),
    {
        let mut i: usize = 0;
        while i < self.names.len()
            invariant
                i <= self.names@.len(),
                !has_name(self.names@, name@, i as int),
            decreases self.names@.len() - i,
        {
            proof {
                lemma_has_name_step(self.names@, name@, i as int);
            }
            if same_text(&self.names[i], name) {
                return true;
            }
            i = i + 1;
        }
        false
    }

    pub fn insert(&mut self, name: String)
        ensures
            final(self)@ == old(self)@.insert(name@),
    {
        let ghost nm = name@;
        let ghost x = name;
        self.names.push(name);
        assert forall|n: Seq<char>| self@.contains(n) <==> old(self)@.insert(nm).contains(n) by {
            lemma_has_name_push(old(self).names@, x, n);
        }
        assert(self@ =~= old(self)@.insert(nm));
    }

    pub fn remove(&mut self, name: &String)
        ensures
            final(self)@ == old(self)@.remove(name@),
    {
        let mut kept: Vec<String> = Vec::new();
        let mut i: usize = 0;
        while i < self.names.len()
            invariant
                i <= self.names@.len(),
                forall|n: Seq<char>|
                    #[trigger] has_name(kept@, n, kept@.len() as int) <==> (has_name(self.names@, n, i as int)
                        && n != name@),
            decreases self.names@.len() - i,
        {
            let ghost old_kept = kept@;
            let keep = !same_text(&self.names[i], name);
            if keep {
                kept.push(self.names[i].clone());
            }
            assert forall|n: Seq<char>|
                #[trigger] has_name(kept@, n, kept@.len() as int) <==> (has_name(self.names@, n, i + 1)
                    && n != name@) by {
                lemma_has_name_step(self.names@, n, i as int);
                if keep {
                    lemma_has_name_push(old_kept, self.names@[i as int], n);
                }
            }
            i = i + 1;
        }
        self.names = kept;
        assert(self@ =~= old(self)@.remove(name@));
    }

    pub fn copy(&self) -> (r: NameSet)
        ensures
            r@ == self@,
    {
        let names = self.names.clone();
        assert(names@ =~= self.names@);
        NameSet { names }
    }

    pub fn extend(&mut self, other: &NameSet)
        ensures
            final(self)@ == old(self)@.union(other@),
    {
        let mut i: usize = 0;
        while i < other.names.len()
            invariant
                i <= other.names@.len(),
                forall|n: Seq<char>|
                    #[trigger] self@.contains(n) <==> (old(self)@.contains(n) || has_name(other.names@, n, i as int)),
            decreases other.names@.len() - i,
        {
            self.insert(other.names[i].clone());
            assert forall|n: Seq<char>|
                #[trigger] self@.contains(n) <==> (old(self)@.contains(n) || has_name(other.names@, n, i + 1)) by {
                lemma_has_name_step(other.names@, n, i as int);
            }
            i = i + 1;
        }
        assert(self@ =~= old(self)@.union(other@));
    }
}

} // verus!
