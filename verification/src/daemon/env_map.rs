//! Environment variables that a session sets for its command.

use vstd::prelude::*;

use crate::text::same_text;

verus! {

/// The variables that a list of pairs sets; of two pairs with one name the
/// later counts.
pub open spec fn pairs_map(pairs: Seq<(String, String)>) -> Map<Seq<char>, Seq<char>>
    decreases pairs.len(),
{
    if pairs.len() == 0 {
        Map::empty()
    } else {
        pairs_map(pairs.drop_last()).insert(pairs.last().0@, pairs.last().1@)
    }
}

/// Whether no name stands twice in a list of pairs.
pub open spec fn names_unique(pairs: Seq<(String, String)>) -> bool {
    forall|i: int, j: int|
        0 <= i < j < pairs.len() ==> (#[trigger] pairs[i]).0@ != (#[trigger] pairs[j]).0@
}

/// Variables by name, each name once.
#[derive(Debug)]
pub struct EnvMap {
    pairs: Vec<(String, String)>,
}

impl View for EnvMap {
    type V = Map<Seq<char>, Seq<char>>;

    closed spec fn view(&self) -> Map<Seq<char>, Seq<char>> {
        pairs_map(self.pairs@)
    }
}

impl EnvMap {
    #[verifier::type_invariant]
    spec fn each_name_once(self) -> bool {
        names_unique(self.pairs@)
    }

    /// No variable.
    pub fn new() -> (r: Self)
        ensures
            r@ == Map::<Seq<char>, Seq<char>>::empty(),
    {
        EnvMap { pairs: Vec::new() }
    }

    /// The place of a name in the list, if it is there.
    fn position(pairs: &Vec<(String, String)>, name: &str) -> (r: Option<usize>)
        ensures
            match r {
                Some(i) => i < pairs.len() && pairs@[i as int].0@ == name@,
                None => forall|i: int| 0 <= i < pairs.len() ==> (#[trigger] pairs@[i]).0@ != name@,
            },
    {
        let mut i: usize = 0;
        while i < pairs.len()
            invariant
                i <= pairs.len(),
                forall|j: int| 0 <= j < i ==> (#[trigger] pairs@[j]).0@ != name@,
            decreases pairs.len() - i,
        {
            if same_text(pairs[i].0.as_str(), name) {
                return Some(i);
            }
            i = i + 1;
        }
        None
    }

    /// Sets a variable; the value it had before is gone.
    pub fn insert(&mut self, name: String, value: String)
        ensures
            final(self)@ == old(self)@.insert(name@, value@),
    {
        proof {
            use_type_invariant(&*self);
        }
        let mut pairs: Vec<(String, String)> = Vec::new();
        std::mem::swap(&mut pairs, &mut self.pairs);
        let ghost before = pairs@;
        match Self::position(&pairs, name.as_str()) {
            Some(i) => {
                proof {
                    lemma_replace(before, i as int, (name, value));
                }
                pairs.set(i, (name, value));
            },
            None => {
                pairs.push((name, value));
                assert(pairs@.drop_last() =~= before);
            },
        }
        self.pairs = pairs;
    }

    /// The value of a variable, if it is set.
    pub fn get(&self, name: &str) -> (r: Option<&str>)
        ensures
            match r {
                Some(v) => self@.contains_key(name@) && v@ == self@[name@],
                None => !self@.contains_key(name@),
            },
    {
        proof {
            use_type_invariant(self);
            lemma_lookup(self.pairs@, name@);
        }
        match Self::position(&self.pairs, name) {
            Some(i) => Some(self.pairs[i].1.as_str()),
            None => None,
        }
    }

    /// The variables as a list in which each name stands once.
    pub fn pairs(&self) -> (r: &Vec<(String, String)>)
        ensures
            pairs_map(r@) == self@,
            names_unique(r@),
    {
        proof {
            use_type_invariant(self);
        }
        &self.pairs
    }
}

impl Clone for EnvMap {
    fn clone(&self) -> (r: Self)
        ensures
            r@ == self@,
    {
        proof {
            use_type_invariant(self);
        }
        let mut pairs: Vec<(String, String)> = Vec::new();
        let mut i: usize = 0;
        while i < self.pairs.len()
            invariant
                i <= self.pairs.len(),
                pairs@ == self.pairs@.take(i as int),
            decreases self.pairs.len() - i,
        {
            pairs.push((self.pairs[i].0.clone(), self.pairs[i].1.clone()));
            i = i + 1;
        }
        assert(pairs@ =~= self.pairs@);
        EnvMap { pairs }
    }
}

/// Giving a name that is there a new value sets it to that value.
proof fn lemma_replace(pairs: Seq<(String, String)>, i: int, pair: (String, String))
    requires
        0 <= i < pairs.len(),
        names_unique(pairs),
        pairs[i].0@ == pair.0@,
    ensures
        pairs_map(pairs.update(i, pair)) == pairs_map(pairs).insert(pair.0@, pair.1@),
    decreases pairs.len(),
{
    let changed = pairs.update(i, pair);
    let last = pairs.len() - 1;
    if i == last {
        assert(changed.drop_last() =~= pairs.drop_last());
        assert(pairs_map(changed) =~= pairs_map(pairs).insert(pair.0@, pair.1@));
    } else {
        lemma_replace(pairs.drop_last(), i, pair);
        assert(changed.drop_last() =~= pairs.drop_last().update(i, pair));
        assert(pairs[last].0@ != pairs[i].0@);
        assert(pairs_map(changed) =~= pairs_map(pairs).insert(pair.0@, pair.1@));
    }
}

/// What a list without a repeated name says of one name.
proof fn lemma_lookup(pairs: Seq<(String, String)>, name: Seq<char>)
    requires
        names_unique(pairs),
    ensures
        pairs_map(pairs).contains_key(name) <==> exists|i: int|
            0 <= i < pairs.len() && (#[trigger] pairs[i]).0@ == name,
        forall|i: int|
            0 <= i < pairs.len() && (#[trigger] pairs[i]).0@ == name ==> pairs_map(pairs)[name]
                == pairs[i].1@,
    decreases pairs.len(),
{
    if pairs.len() > 0 {
        let init = pairs.drop_last();
        lemma_lookup(init, name);
        assert(forall|i: int| 0 <= i < init.len() ==> init[i] == #[trigger] pairs[i]);
        if pairs.last().0@ == name {
            assert(pairs[pairs.len() - 1].0@ == name);
        } else if pairs_map(init).contains_key(name) {
            let i = choose|i: int| 0 <= i < init.len() && (#[trigger] init[i]).0@ == name;
            assert(pairs[i].0@ == name);
        }
    }
}

/// A list in which each name stands once sets exactly the names in it, each to
/// the value beside it.
pub proof fn law_list_sets_its_names(pairs: Seq<(String, String)>, name: Seq<char>)
    requires
        forall|i: int, j: int|
            0 <= i < j < pairs.len() ==> (#[trigger] pairs[i]).0@ != (#[trigger] pairs[j]).0@,
    ensures
        pairs_map(pairs).contains_key(name) <==> exists|i: int|
            0 <= i < pairs.len() && (#[trigger] pairs[i]).0@ == name,
        forall|i: int|
            0 <= i < pairs.len() && (#[trigger] pairs[i]).0@ == name ==> pairs_map(pairs)[name]
                == pairs[i].1@,
{
    lemma_lookup(pairs, name);
}

} // verus!
