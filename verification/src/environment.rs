//! Environment variables as plain values.

use crate::text::{opt_text, same_text, trim, trimmed};
use vstd::prelude::*;

verus! {

/// Environment variables: names with their values. Of several with one name the first counts.
#[derive(Debug, Clone)]
pub struct Environment {
    pub variables: Vec<(String, String)>,
}

impl View for Environment {
    type V = Seq<(Seq<char>, Seq<char>)>;

    open spec fn view(&self) -> Seq<(Seq<char>, Seq<char>)> {
        Seq::new(
            self.variables@.len(),
            |i: int| (self.variables@[i].0@, self.variables@[i].1@),
        )
    }
}

/// The value of the first variable called `name`.
pub open spec fn lookup(variables: Seq<(Seq<char>, Seq<char>)>, name: Seq<char>) -> Option<
    Seq<char>,
>
    decreases variables.len(),
{
    if variables.len() == 0 {
        None
    } else if variables[0].0 == name {
        Some(variables[0].1)
    } else {
        lookup(variables.skip(1), name)
    }
}

/// The value trimmed; `None` where nothing is left of it.
pub open spec fn trimmed_value(value: Option<Seq<char>>) -> Option<Seq<char>> {
    match value {
        Some(value) => if trimmed(value).len() > 0 {
            Some(trimmed(value))
        } else {
            None
        },
        None => None,
    }
}

/// The first of two values that there is.
pub open spec fn first_value(a: Option<Seq<char>>, b: Option<Seq<char>>) -> Option<Seq<char>> {
    match a {
        Some(_) => a,
        None => b,
    }
}

/// The first variable with a name decides a lookup.
proof fn lemma_lookup_at(variables: Seq<(Seq<char>, Seq<char>)>, name: Seq<char>, at: int)
    requires
        0 <= at <= variables.len(),
        forall|i: int| 0 <= i < at ==> (#[trigger] variables[i]).0 != name,
        at < variables.len() ==> variables[at].0 == name,
    ensures
        lookup(variables, name) == (if at < variables.len() {
            Some(variables[at].1)
        } else {
            None
        }),
    decreases variables.len(),
{
    if variables.len() > 0 && at > 0 {
        let rest = variables.skip(1);
        assert forall|i: int| 0 <= i < at - 1 implies (#[trigger] rest[i]).0 != name by {
            assert(rest[i] == variables[i + 1]);
        }
        lemma_lookup_at(rest, name, at - 1);
    }
}

/// Where a name occurs, its lookup finds a value.
proof fn lemma_lookup_push(
    variables: Seq<(Seq<char>, Seq<char>)>,
    added: (Seq<char>, Seq<char>),
    name: Seq<char>,
)
    ensures
        lookup(variables.push(added), name) == (if lookup(variables, name) is Some {
            lookup(variables, name)
        } else if added.0 == name {
            Some(added.1)
        } else {
            None
        }),
    decreases variables.len(),
{
    if variables.len() == 0 {
        assert(variables.push(added).skip(1) =~= variables);
    } else {
        lemma_lookup_push(variables.skip(1), added, name);
        assert(variables.push(added).skip(1) =~= variables.skip(1).push(added));
    }
}

impl Environment {
    /// Variables given as pairs of name and value.
    pub fn new(variables: Vec<(String, String)>) -> (environment: Environment)
        ensures
            environment.variables == variables,
    {
        Environment { variables }
    }

    /// The value of a variable.
    pub fn get(&self, name: &str) -> (value: Option<String>)
        ensures
            opt_text(value) == lookup(self@, name@),
    {
        let mut i: usize = 0;
        while i < self.variables.len()
            invariant
                i <= self.variables.len(),
                forall|j: int| 0 <= j < i ==> (#[trigger] self@[j]).0 != name@,
            decreases self.variables.len() - i,
        {
            if same_text(self.variables[i].0.as_str(), name) {
                proof {
                    lemma_lookup_at(self@, name@, i as int);
                }
                return Some(self.variables[i].1.clone());
            }
            i = i + 1;
        }
        proof {
            lemma_lookup_at(self@, name@, i as int);
        }
        None
    }

    /// The value of a variable, trimmed; `None` where nothing is left of it.
    pub fn get_trimmed(&self, name: &str) -> (value: Option<String>)
        ensures
            opt_text(value) == trimmed_value(lookup(self@, name@)),
    {
        match self.get(name) {
            Some(value) => {
                let inner: &str = trim(value.as_str());
                if inner.is_empty() {
                    None
                } else {
                    Some(inner.to_owned())
                }
            },
            None => None,
        }
    }

    /// The value of the first of two variables that is set.
    pub fn get_either(&self, first: &str, second: &str) -> (value: Option<String>)
        ensures
            opt_text(value) == first_value(lookup(self@, first@), lookup(self@, second@)),
    {
        match self.get(first) {
            Some(value) => Some(value),
            None => self.get(second),
        }
    }

    /// The same variables with their values trimmed, without those of which nothing is left.
    pub fn trimmed(&self) -> (result: Environment)
        ensures
            forall|name: Seq<char>|
                lookup(result@, name) == trimmed_value(#[trigger] lookup(self@, name)),
    {
        let mut result = Environment { variables: Vec::new() };
        let mut seen = Environment { variables: Vec::new() };
        let mut i: usize = 0;
        proof {
            assert(self@.take(0) =~= seen@);
        }
        while i < self.variables.len()
            invariant
                i <= self.variables.len(),
                seen@ == self@.take(i as int),
                forall|name: Seq<char>|
                    lookup(result@, name) == trimmed_value(#[trigger] lookup(seen@, name)),
            decreases self.variables.len() - i,
        {
            let name: String = self.variables[i].0.clone();
            let value: String = self.variables[i].1.clone();
            let known: bool = seen.get(name.as_str()).is_some();
            let inner: String = trim(value.as_str()).to_owned();
            let ghost seen_before = seen@;
            let ghost result_before = result@;
            let keep: bool = !known && !inner.as_str().is_empty();
            if keep {
                result.variables.push((name.clone(), inner.clone()));
                proof {
                    assert(result@ =~= result_before.push((name@, inner@)));
                }
            }
            seen.variables.push((name, value));
            proof {
                assert(seen@ =~= seen_before.push((name@, value@)));
                assert(self@.take(i + 1) =~= self@.take(i as int).push((name@, value@)));
                assert forall|other: Seq<char>|
                    lookup(result@, other) == trimmed_value(#[trigger] lookup(seen@, other)) by {
                    lemma_lookup_push(seen_before, (name@, value@), other);
                    lemma_lookup_push(result_before, (name@, inner@), other);
                    assert(lookup(result_before, other) == trimmed_value(
                        lookup(seen_before, other),
                    ));
                }
            }
            i = i + 1;
        }
        proof {
            assert(self@.take(i as int) =~= self@);
        }
        result
    }
}

/// What a lookup finds is the value of a variable with that name, and no variable before it has
/// that name; it finds nothing only where none has it.
pub proof fn lemma_lookup(variables: Seq<(Seq<char>, Seq<char>)>, name: Seq<char>)
    ensures
        lookup(variables, name) matches Some(value) ==> exists|at: int|
            0 <= at < variables.len() && (#[trigger] variables[at]) == (name, value) && forall|
                j: int,
            |
                0 <= j < at ==> (#[trigger] variables[j]).0 != name,
        lookup(variables, name) is None ==> forall|j: int|
            0 <= j < variables.len() ==> (#[trigger] variables[j]).0 != name,
    decreases variables.len(),
{
    if variables.len() > 0 && variables[0].0 != name {
        let rest = variables.skip(1);
        lemma_lookup(rest, name);
        if let Some(value) = lookup(variables, name) {
            let at = choose|at: int|
                0 <= at < rest.len() && (#[trigger] rest[at]) == (name, value) && forall|j: int|
                    0 <= j < at ==> (#[trigger] rest[j]).0 != name;
            assert(variables[at + 1] == (name, value));
            assert forall|j: int| 0 <= j < at + 1 implies (#[trigger] variables[j]).0 != name by {
                if j > 0 {
                    assert(rest[j - 1] == variables[j]);
                }
            }
        } else {
            assert forall|j: int| 0 <= j < variables.len() implies (#[trigger] variables[j]).0
                != name by {
                if j > 0 {
                    assert(rest[j - 1] == variables[j]);
                }
            }
        }
    } else if variables.len() > 0 {
        assert(variables[0] == (name, variables[0].1));
    }
}

/// A variable is read by its name: its first value where it is set, and nothing where it is not.
pub proof fn law_variables_are_read_by_name(
    environment: Environment,
    name: &str,
    value: Option<String>,
)
    requires
        call_ensures(Environment::get, (&environment, name), value),
    ensures
        value matches Some(found) ==> exists|at: int|
            0 <= at < environment.variables@.len() && (#[trigger] environment.variables@[at]).0@
                == name@ && environment.variables@[at].1@ == found@ && forall|j: int|
                0 <= j < at ==> (#[trigger] environment.variables@[j]).0@ != name@,
        value is None ==> forall|j: int|
            0 <= j < environment.variables@.len() ==> (#[trigger] environment.variables@[j]).0@
                != name@,
{
    let list = environment@;
    lemma_lookup(list, name@);
    if let Some(found) = value {
        let at = choose|at: int|
            0 <= at < list.len() && (#[trigger] list[at]) == (name@, found@) && forall|j: int|
                0 <= j < at ==> (#[trigger] list[j]).0 != name@;
        assert(environment.variables@[at].0@ == name@);
        assert forall|j: int| 0 <= j < at implies (#[trigger] environment.variables@[j]).0@
            != name@ by {
            assert(list[j].0 != name@);
        }
    } else {
        assert forall|j: int| 0 <= j < environment.variables@.len() implies (
        #[trigger] environment.variables@[j]).0@ != name@ by {
            assert(list[j].0 != name@);
        }
    }
}

/// How variables are read trimmed, and two of them in turn: a value loses the white space around
/// it, and one of nothing else is as none; the second is read only where the first is not set.
pub proof fn law_variables_are_read_trimmed_and_in_turn(
    environment: Environment,
    first: &str,
    second: &str,
    plain: Option<String>,
    other: Option<String>,
    inner: Option<String>,
    either: Option<String>,
)
    requires
        call_ensures(Environment::get, (&environment, first), plain),
        call_ensures(Environment::get, (&environment, second), other),
        call_ensures(Environment::get_trimmed, (&environment, first), inner),
        call_ensures(Environment::get_either, (&environment, first, second), either),
    ensures
        inner matches Some(text) ==> (plain matches Some(whole) && text@ == trimmed(whole@)
            && text@.len() > 0),
        inner is None ==> (plain matches Some(whole) ==> trimmed(whole@).len() == 0),
        plain matches Some(whole) ==> (either matches Some(text) && text@ == whole@),
        plain is None ==> opt_text(either) == opt_text(other),
{
}

} // verus!
