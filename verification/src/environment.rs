//! The variable environment: one flat, global scope mapping names to
//! values. It is a list of bindings where the newest binding for a name
//! wins; its mathematical image is the finite map folded from the list.

use vstd::prelude::*;

use crate::error::{RuntimeErrModel, RuntimeError};
use crate::expr::{clone_value, value_view, value_wf, LiteralValue, ValueModel};
use crate::scanner::str_eq;

verus! {

/// The map an association list denotes: later bindings shadow earlier
/// ones.
pub open spec fn list_map(l: Seq<(String, LiteralValue)>) -> Map<Seq<char>, ValueModel>
    decreases l.len(),
{
    if l.len() == 0 {
        Map::empty()
    } else {
        list_map(l.drop_last()).insert(l.last().0@, value_view(l.last().1))
    }
}

/// Every value of the map is well formed.
pub open spec fn map_wf(m: Map<Seq<char>, ValueModel>) -> bool {
    forall|k: Seq<char>| #[trigger] m.contains_key(k) ==> value_wf(m[k])
}

/// The variable environment: name-to-value bindings in one global scope.
pub struct Environment {
    pub values: Vec<(String, LiteralValue)>,
}

impl View for Environment {
    type V = Map<Seq<char>, ValueModel>;

    open spec fn view(&self) -> Map<Seq<char>, ValueModel> {
        list_map(self.values@)
    }
}

/// If position `i` holds the last binding for `key`, the map holds its
/// value at `key`.
proof fn lemma_assoc_found(l: Seq<(String, LiteralValue)>, key: Seq<char>, i: int)
    requires
        0 <= i < l.len(),
        l[i].0@ == key,
        forall|j: int| i < j < l.len() ==> (#[trigger] l[j]).0@ != key,
    ensures
        list_map(l).contains_key(key),
        list_map(l)[key] == value_view(l[i].1),
    decreases l.len(),
{
    if i == l.len() - 1 {
    } else {
        lemma_assoc_found(l.drop_last(), key, i);
    }
}

/// If no binding holds `key`, the map has no value at `key`.
proof fn lemma_assoc_absent(l: Seq<(String, LiteralValue)>, key: Seq<char>)
    requires
        forall|j: int| 0 <= j < l.len() ==> (#[trigger] l[j]).0@ != key,
    ensures
        !list_map(l).contains_key(key),
    decreases l.len(),
{
    if l.len() > 0 {
        lemma_assoc_absent(l.drop_last(), key);
    }
}

/// Appending a binding inserts it into the map.
proof fn lemma_assoc_push(l: Seq<(String, LiteralValue)>, p: (String, LiteralValue))
    ensures
        list_map(l.push(p)) == list_map(l).insert(p.0@, value_view(p.1)),
{
    assert(l.push(p).drop_last() =~= l);
}

impl Environment {
    /// Every value in the environment is well formed.
    pub open spec fn wf(&self) -> bool {
        map_wf(self@)
    }

    pub fn new() -> (r: Environment)
        ensures
            r@ == Map::<Seq<char>, ValueModel>::empty(),
            r.wf(),
    {
        Environment { values: Vec::new() }
    }

    /// Binds `name` to `value`, declaring it anew or overwriting any
    /// previous binding unconditionally.
    pub fn define(&mut self, name: String, value: LiteralValue)
        requires
            old(self).wf(),
            value_wf(value_view(value)),
        ensures
            final(self).wf(),
            final(self)@ == old(self)@.insert(name@, value_view(value)),
    {
        proof {
            lemma_assoc_push(self.values@, (name, value));
        }
        self.values.push((name, value));
    }

    /// Reads the value bound to `name`, or reports an undefined-variable
    /// error exactly when no binding exists.
    pub fn get(&self, name: &str) -> (r: Result<LiteralValue, RuntimeError>)
        requires
            self.wf(),
        ensures
            match r {
                Ok(v) => self@.contains_key(name@) && value_view(v) == self@[name@] && value_wf(
                    value_view(v),
                ),
                Err(e) => !self@.contains_key(name@) && e@ == (RuntimeErrModel::UndefinedVariable {
                    name: name@,
                }),
            },
    {
        let mut i = self.values.len();
        while i > 0
            invariant
                self.wf(),
                i <= self.values@.len(),
                forall|j: int| i <= j < self.values@.len() ==> (#[trigger] self.values@[j]).0@
                    != name@,
            decreases i,
        {
            i = i - 1;
            if str_eq(self.values[i].0.as_str(), name) {
                proof {
                    lemma_assoc_found(self.values@, name@, i as int);
                    assert(self@.contains_key(name@));
                    assert(value_wf(self@[name@]));
                }
                return Ok(clone_value(&self.values[i].1));
            }
        }
        proof {
            lemma_assoc_absent(self.values@, name@);
        }
        Err(RuntimeError::UndefinedVariable { name: name.to_owned() })
    }

    /// Rebinds an already declared `name` to `value`; assigning to a
    /// name that was never declared is an undefined-variable error and
    /// leaves the environment unchanged.
    pub fn assign(&mut self, name: &str, value: LiteralValue) -> (r: Result<(), RuntimeError>)
        requires
            old(self).wf(),
            value_wf(value_view(value)),
        ensures
            final(self).wf(),
            match r {
                Ok(_) => old(self)@.contains_key(name@) && final(self)@ == old(self)@.insert(
                    name@,
                    value_view(value),
                ),
                Err(e) => !old(self)@.contains_key(name@) && *final(self) == *old(self) && e@
                    == (RuntimeErrModel::UndefinedVariable { name: name@ }),
            },
    {
        let mut i = self.values.len();
        while i > 0
            invariant
                self.wf(),
                value_wf(value_view(value)),
                i <= self.values@.len(),
                *self == *old(self),
                forall|j: int| i <= j < self.values@.len() ==> (#[trigger] self.values@[j]).0@
                    != name@,
            decreases i,
        {
            i = i - 1;
            if str_eq(self.values[i].0.as_str(), name) {
                proof {
                    lemma_assoc_found(self.values@, name@, i as int);
                }
                let owned = name.to_owned();
                proof {
                    lemma_assoc_push(self.values@, (owned, value));
                }
                self.values.push((owned, value));
                proof {
                    assert(self@ == old(self)@.insert(name@, value_view(value)));
                    assert forall|k: Seq<char>| self@.contains_key(k) implies value_wf(
                        #[trigger] self@[k],
                    ) by {
                        if k != name@ {
                            assert(old(self)@.contains_key(k));
                        }
                    }
                }
                return Ok(());
            }
        }
        proof {
            lemma_assoc_absent(self.values@, name@);
        }
        Err(RuntimeError::UndefinedVariable { name: name.to_owned() })
    }
}

} // verus!
