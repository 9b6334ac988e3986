//! The variables of a template and their values.

use vstd::prelude::*;

verus! {

/// One variable with its value.
pub struct Variable {
    pub name: String,
    pub value: String,
}

impl View for Variable {
    type V = (Seq<char>, Seq<char>);

    open spec fn view(&self) -> (Seq<char>, Seq<char>) {
        (self.name@, self.value@)
    }
}

/// The views of variables, in their order.
pub open spec fn variable_models(items: Seq<Variable>) -> Seq<(Seq<char>, Seq<char>)> {
    items.map_values(|v: Variable| v@)
}

/// No name occurs twice among `pairs`.
pub open spec fn distinct_keys(pairs: Seq<(Seq<char>, Seq<char>)>) -> bool {
    forall|i: int, j: int| 0 <= i < j < pairs.len() ==> (#[trigger] pairs[i]).0 != (#[trigger] pairs[j]).0
}

/// The mapping that `pairs` spell out; of two pairs with one name the later
/// counts.
pub open spec fn pairs_map(pairs: Seq<(Seq<char>, Seq<char>)>) -> Map<Seq<char>, Seq<char>>
    decreases pairs.len(),
{
    if pairs.len() == 0 {
        Map::empty()
    } else {
        pairs_map(pairs.drop_last()).insert(pairs.last().0, pairs.last().1)
    }
}

/// The names of `pairs_map(pairs)` are the names among `pairs`, and where
/// these are distinct each name maps to the value that stands beside it.
pub proof fn lemma_pairs_map(pairs: Seq<(Seq<char>, Seq<char>)>)
    ensures
        forall|k: Seq<char>| #[trigger]
            pairs_map(pairs).contains_key(k) <==> exists|i: int|
                0 <= i < pairs.len() && (#[trigger] pairs[i]).0 == k,
        distinct_keys(pairs) ==> forall|i: int|
            0 <= i < pairs.len() ==> pairs_map(pairs)[(#[trigger] pairs[i]).0] == pairs[i].1,
    decreases pairs.len(),
{
    if pairs.len() > 0 {
        let rest = pairs.drop_last();
        let last = pairs.last();
        lemma_pairs_map(rest);
        assert forall|k: Seq<char>| #[trigger]
            pairs_map(pairs).contains_key(k) <==> exists|i: int|
                0 <= i < pairs.len() && (#[trigger] pairs[i]).0 == k by {
            if pairs_map(pairs).contains_key(k) {
                if k == last.0 {
                    assert(pairs[pairs.len() - 1].0 == k);
                } else {
                    assert(pairs_map(rest).contains_key(k));
                    let i = choose|i: int| 0 <= i < rest.len() && (#[trigger] rest[i]).0 == k;
                    assert(pairs[i].0 == k);
                }
            }
            if exists|i: int| 0 <= i < pairs.len() && (#[trigger] pairs[i]).0 == k {
                let i = choose|i: int| 0 <= i < pairs.len() && (#[trigger] pairs[i]).0 == k;
                if i < rest.len() {
                    assert(rest[i].0 == k);
                    assert(pairs_map(rest).contains_key(k));
                } else {
                    assert(k == last.0);
                }
                assert(pairs_map(pairs).contains_key(k));
            }
        }
        if distinct_keys(pairs) {
            assert(distinct_keys(rest)) by {
                assert forall|i: int, j: int| 0 <= i < j < rest.len() implies (#[trigger] rest[i]).0
                    != (#[trigger] rest[j]).0 by {
                    assert(rest[i] == pairs[i]);
                    assert(rest[j] == pairs[j]);
                }
            }
            assert forall|i: int| 0 <= i < pairs.len() implies pairs_map(pairs)[(
            #[trigger] pairs[i]).0] == pairs[i].1 by {
                if i < rest.len() {
                    assert(rest[i] == pairs[i]);
                    assert(pairs[i].0 != pairs[pairs.len() - 1].0);
                }
            }
        }
    }
}

/// The variables of a template, each with its value. No name occurs twice.
pub struct Variables {
    pub(crate) items: Vec<Variable>,
}

impl View for Variables {
    type V = Map<Seq<char>, Seq<char>>;

    closed spec fn view(&self) -> Map<Seq<char>, Seq<char>> {
        pairs_map(variable_models(self.items@))
    }
}

impl Variables {
    /// No name occurs twice among the variables.
    #[verifier::type_invariant]
    spec fn distinct(&self) -> bool {
        distinct_keys(variable_models(self.items@))
    }

    /// No variables.
    pub fn new() -> (vars: Self)
        ensures
            vars@ == Map::<Seq<char>, Seq<char>>::empty(),
    {
        Variables { items: Vec::new() }
    }

    /// The variables that `pairs` spell out; of two pairs with one name the
    /// later counts.
    pub fn from_pairs(pairs: Vec<Variable>) -> (vars: Self)
        ensures
            vars@ == pairs_map(variable_models(pairs@)),
    {
        let ghost models = variable_models(pairs@);
        let mut vars = Variables::new();
        let mut i: usize = 0;
        assert(models.take(0) =~= Seq::<(Seq<char>, Seq<char>)>::empty());
        while i < pairs.len()
            invariant
                i <= pairs.len(),
                models == variable_models(pairs@),
                vars@ == pairs_map(models.take(i as int)),
            decreases pairs.len() - i,
        {
            assert(models.take(i as int + 1).drop_last() =~= models.take(i as int));
            assert(models.take(i as int + 1).last() == pairs@[i as int]@);
            vars.insert(pairs[i].name.clone(), pairs[i].value.clone());
            i += 1;
        }
        assert(models.take(i as int) =~= models);
        vars
    }

    /// Where `name` stands among the variables, or their number where it
    /// does not.
    fn position(&self, name: &String) -> (i: usize)
        ensures
            i <= self.items@.len(),
            i < self.items@.len() ==> self.items@[i as int].name@ == name@,
            i == self.items@.len() ==> !self@.contains_key(name@),
            i < self.items@.len() ==> self@.contains_key(name@) && self@[name@]
                == self.items@[i as int].value@,
    {
        let mut i: usize = 0;
        while i < self.items.len()
            invariant
                i <= self.items.len(),
                forall|j: int| 0 <= j < i ==> (#[trigger] variable_models(self.items@)[j]).0 != name@,
            decreases self.items.len() - i,
        {
            if self.items[i].name == *name {
                proof {
                    use_type_invariant(self);
                    lemma_pairs_map(variable_models(self.items@));
                    assert(variable_models(self.items@)[i as int] == (name@, self.items@[i as int].value@));
                }
                return i;
            }
            i += 1;
        }
        proof {
            use_type_invariant(self);
            lemma_pairs_map(variable_models(self.items@));
        }
        i
    }

    /// Whether a variable named `name` is among them.
    pub fn contains_key(&self, name: &String) -> (known: bool)
        ensures
            known == self@.contains_key(name@),
    {
        self.position(name) < self.items.len()
    }

    /// The value of the variable named `name`.
    pub fn get(&self, name: &String) -> (value: Option<String>)
        ensures
            match value {
                Some(v) => self@.contains_key(name@) && self@[name@] == v@,
                None => !self@.contains_key(name@),
            },
    {
        let i = self.position(name);
        if i < self.items.len() {
            Some(self.items[i].value.clone())
        } else {
            None
        }
    }

    /// The variables with their values, each once.
    pub fn pairs(&self) -> (pairs: Vec<Variable>)
        ensures
            distinct_keys(variable_models(pairs@)),
            pairs_map(variable_models(pairs@)) == self@,
    {
        proof {
            use_type_invariant(self);
        }
        let mut pairs: Vec<Variable> = Vec::new();
        let mut i: usize = 0;
        while i < self.items.len()
            invariant
                i <= self.items.len(),
                variable_models(pairs@) =~= variable_models(self.items@).take(i as int),
            decreases self.items.len() - i,
        {
            let ghost before = pairs@;
            let pair = Variable {
                name: self.items[i].name.clone(),
                value: self.items[i].value.clone(),
            };
            pairs.push(pair);
            assert(variable_models(pairs@) =~= variable_models(before).push(pair@));
            i += 1;
        }
        assert(variable_models(self.items@).take(i as int) =~= variable_models(self.items@));
        pairs
    }

    /// Gives the variable named `name` the value `value`, whether or not it
    /// was among them before.
    pub fn insert(&mut self, name: String, value: String)
        ensures
            final(self)@ == old(self)@.insert(name@, value@),
    {
        let i = self.position(&name);
        let ghost before = variable_models(self.items@);
        proof {
            use_type_invariant(&*self);
            lemma_pairs_map(before);
        }
        let mut taken = Variables::new();
        std::mem::swap(self, &mut taken);
        let mut items = taken.items;
        if i < items.len() {
            items[i].value = value;
        } else {
            items.push(Variable { name, value });
        }
        proof {
            let after = variable_models(items@);
            if i < before.len() {
                assert(after =~= before.update(i as int, (name@, value@)));
            } else {
                assert(after =~= before.push((name@, value@)));
            }
            assert forall|a: int, b: int| 0 <= a < b < after.len() implies (#[trigger] after[a]).0 != (
            #[trigger] after[b]).0 by {
                if b < before.len() {
                    assert(after[a].0 == before[a].0);
                    assert(after[b].0 == before[b].0);
                } else {
                    assert(after[a].0 == before[a].0);
                    assert(!pairs_map(before).contains_key(name@));
                }
            }
            assert(distinct_keys(after));
            lemma_pairs_map(after);
            assert(pairs_map(after) =~= pairs_map(before).insert(name@, value@)) by {
                assert forall|k: Seq<char>| #[trigger]
                    pairs_map(after).contains_key(k) <==> pairs_map(before).insert(
                        name@,
                        value@,
                    ).contains_key(k) by {
                    if pairs_map(after).contains_key(k) {
                        let j = choose|j: int| 0 <= j < after.len() && (#[trigger] after[j]).0 == k;
                        if j < before.len() {
                            assert(before[j].0 == k);
                        }
                    }
                    if pairs_map(before).contains_key(k) {
                        let j = choose|j: int|
                            0 <= j < before.len() && (#[trigger] before[j]).0 == k;
                        assert(after[j].0 == k);
                    }
                    if k == name@ {
                        if i < before.len() {
                            assert(after[i as int].0 == k);
                        } else {
                            assert(after[after.len() - 1].0 == k);
                        }
                    }
                }
                assert forall|k: Seq<char>| #[trigger]
                    pairs_map(after).contains_key(k) implies pairs_map(after)[k] == pairs_map(
                    before,
                ).insert(name@, value@)[k] by {
                    let j = choose|j: int| 0 <= j < after.len() && (#[trigger] after[j]).0 == k;
                    assert(pairs_map(after)[after[j].0] == after[j].1);
                    if k != name@ {
                        assert(before[j] == after[j]);
                        assert(pairs_map(before)[before[j].0] == before[j].1);
                    } else {
                        if i < before.len() {
                            if j != i {
                                assert(after[i as int].0 == after[j].0);
                            }
                        } else {
                            if j != after.len() - 1 {
                                assert(after[after.len() - 1].0 == after[j].0);
                            }
                        }
                    }
                }
            }
        }
        *self = Variables { items };
    }
}

} // verus!
