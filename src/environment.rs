use crate::expr::{undeclared_message, LiteralValue, Val};
use crate::text::{append_str, chars_of, text_of};
use vstd::prelude::*;

verus! {

/// The mapping that a list of bindings describes; a later binding of a name
/// overrides an earlier one.
pub open spec fn bindings_map(e: Seq<(String, LiteralValue)>) -> Map<Seq<char>, Val>
    decreases e.len(),
{
    if e.len() == 0 {
        Map::empty()
    } else {
        bindings_map(e.drop_last()).insert(e.last().0@, e.last().1@)
    }
}

/// No two bindings have the same name.
pub open spec fn names_distinct(e: Seq<(String, LiteralValue)>) -> bool {
    forall|i: int, j: int| 0 <= i < j < e.len() ==> e[i].0@ != e[j].0@
}

/// With distinct names, a name is bound exactly when some binding has it,
/// to that binding's value.
pub proof fn lemma_bindings_lookup(e: Seq<(String, LiteralValue)>, k: Seq<char>)
    requires
        names_distinct(e),
    ensures
        bindings_map(e).contains_key(k) <==> exists|j: int| 0 <= j < e.len() && e[j].0@ == k,
        forall|j: int| 0 <= j < e.len() && e[j].0@ == k ==> bindings_map(e)[k] == e[j].1@,
    decreases e.len(),
{
    if e.len() > 0 {
        let p = e.drop_last();
        lemma_bindings_lookup(p, k);
        assert forall|j: int| 0 <= j < p.len() implies p[j] == e[j] by {}
        if exists|j: int| 0 <= j < e.len() && e[j].0@ == k {
            let j = choose|j: int| 0 <= j < e.len() && e[j].0@ == k;
            if j < p.len() {
                assert(p[j].0@ == k);
            }
        }
    }
}

/// The variables of a session: one flat scope.
pub struct Environment {
    values: Vec<(String, LiteralValue)>,
}

impl View for Environment {
    type V = Map<Seq<char>, Val>;

    closed spec fn view(&self) -> Map<Seq<char>, Val> {
        bindings_map(self.values@)
    }
}

impl Environment {
    pub closed spec fn wf(&self) -> bool {
        names_distinct(self.values@)
    }

    pub fn new() -> (r: Self)
        ensures
            r.wf(),
            r@ == Map::<Seq<char>, Val>::empty(),
    {
        Self { values: Vec::new() }
    }

    /// Binds `name` to `value`, replacing any earlier binding.
    pub fn define(&mut self, name: String, value: LiteralValue)
        requires
            old(self).wf(),
        ensures
            final(self).wf(),
            final(self)@ == old(self)@.insert(name@, value@),
    {
        let ghost k = name@;
        let ghost v = value@;
        let ghost before = self.values@;
        let mut i: usize = 0;
        while i < self.values.len()
            invariant
                i <= self.values.len(),
                self.values@ == before,
                old(self).values@ == before,
                names_distinct(before),
                name@ == k,
                value@ == v,
                forall|j: int| 0 <= j < i ==> self.values@[j].0@ != k,
            decreases self.values.len() - i,
        {
            let same = self.values[i].0.eq(&name);
            if same {
                self.values.set(i, (name, value));
                proof {
                    let after = self.values@;
                    assert(names_distinct(after));
                    lemma_bindings_lookup(before, k);
                    assert forall|q: Seq<char>| #[trigger] bindings_map(after).contains_key(q)
                        == bindings_map(before).insert(k, v).contains_key(q) && (
                    bindings_map(after).contains_key(q) ==> bindings_map(after)[q]
                        == bindings_map(before).insert(k, v)[q]) by {
                        lemma_bindings_lookup(after, q);
                        lemma_bindings_lookup(before, q);
                        if q != k && bindings_map(before).contains_key(q) {
                            let j = choose|j: int| 0 <= j < before.len() && before[j].0@ == q;
                            assert(after[j].0@ == q);
                        }
                        if q != k && bindings_map(after).contains_key(q) {
                            let j = choose|j: int| 0 <= j < after.len() && after[j].0@ == q;
                            assert(before[j].0@ == q);
                        }
                        if q == k {
                            assert(after[i as int].0@ == q);
                            assert(after[i as int].1@ == v);
                        } else if bindings_map(after).contains_key(q) {
                            let j = choose|j: int| 0 <= j < after.len() && after[j].0@ == q;
                            assert(j != i);
                            assert(before[j] == after[j]);
                        }
                    }
                    assert(bindings_map(after) =~= bindings_map(before).insert(k, v));
                }
                return;
            }
            i = i + 1;
        }
        self.values.push((name, value));
        assert(self.values@.drop_last() == before);
    }

    /// The value bound to `name`; an error naming it when it is unbound.
    pub fn get(&self, name: &String) -> (r: Result<LiteralValue, String>)
        requires
            self.wf(),
        ensures
            match r {
                Ok(v) => self@.contains_key(name@) && v@ == self@[name@],
                Err(m) => !self@.contains_key(name@) && m@ == undeclared_message(name@),
            },
    {
        let mut i: usize = 0;
        while i < self.values.len()
            invariant
                i <= self.values.len(),
                self.wf(),
                forall|j: int| 0 <= j < i ==> self.values@[j].0@ != name@,
            decreases self.values.len() - i,
        {
            let same = self.values[i].0.eq(name);
            if same {
                proof {
                    lemma_bindings_lookup(self.values@, name@);
                }
                return Ok(self.values[i].1.duplicate());
            }
            i = i + 1;
        }
        proof {
            lemma_bindings_lookup(self.values@, name@);
        }
        let mut m = chars_of("Variable ");
        append_str(&mut m, name.as_str());
        append_str(&mut m, " not declared yet!");
        Err(text_of(&m))
    }
}

} // verus!
