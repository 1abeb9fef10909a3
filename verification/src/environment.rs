//! Chained name-to-value scoping: a singly linked chain of scopes from the
//! innermost to the outermost, the outermost having no enclosing scope.
//!
//! A binding maps a name to an optional value: a name declared without an
//! initializer is bound but carries no value, which is a distinct failure
//! reason on lookup.

use vstd::prelude::*;
use crate::expression::{LiteralValue, ValueV};
use crate::interpreter::{RuntimeError, RuntimeErrorV};

verus! {

/// One scope, as a mathematical map from name to optional value.
pub type ScopeV = Map<Seq<char>, Option<ValueV>>;

/// A chain of scopes, innermost first. Always non-empty.
pub type EnvV = Seq<ScopeV>;

/// A mapping from names to optional values, plus an optional enclosing
/// environment that lookups and assignments fall back to.
pub struct Environment {
    values: Vec<(String, Option<LiteralValue>)>,
    enclosing: Option<Box<Environment>>,
}

/// The map described by an association list, later entries overriding
/// earlier ones.
pub open spec fn assoc_map(s: Seq<(String, Option<LiteralValue>)>) -> ScopeV
    decreases s.len(),
{
    if s.len() == 0 {
        Map::empty()
    } else {
        assoc_map(s.drop_last()).insert(s.last().0@, s.last().1.deep_view())
    }
}

/// The association list holds no key twice.
pub open spec fn assoc_wf(s: Seq<(String, Option<LiteralValue>)>) -> bool {
    forall|i: int, j: int| 0 <= i < j < s.len() ==> s[i].0@ != s[j].0@
}

/// The result of searching a scope chain for a name.
pub enum LookupV {
    /// The first scope that binds the name binds it to this value.
    Value(ValueV),
    /// The first scope that binds the name binds it to no value.
    Uninitialized,
    /// No scope binds the name.
    Missing,
}

/// Innermost-to-outermost search of a scope chain.
pub open spec fn env_lookup(env: EnvV, name: Seq<char>) -> LookupV
    decreases env.len(),
{
    if env.len() == 0 {
        LookupV::Missing
    } else if env[0].contains_key(name) {
        match env[0][name] {
            Some(v) => LookupV::Value(v),
            None => LookupV::Uninitialized,
        }
    } else {
        env_lookup(env.skip(1), name)
    }
}

/// Insertion into the innermost scope only, shadowing any outer binding.
pub open spec fn env_define(env: EnvV, name: Seq<char>, value: Option<ValueV>) -> EnvV {
    seq![env[0].insert(name, value)] + env.skip(1)
}

/// Mutation of the first scope that already binds the name; `None` when no
/// scope binds it.
pub open spec fn env_assign(env: EnvV, name: Seq<char>, value: ValueV) -> Option<EnvV>
    decreases env.len(),
{
    if env.len() == 0 {
        None
    } else if env[0].contains_key(name) {
        Some(seq![env[0].insert(name, Some(value))] + env.skip(1))
    } else {
        match env_assign(env.skip(1), name, value) {
            Some(tail) => Some(seq![env[0]] + tail),
            None => None,
        }
    }
}

/// The scope chain described by an [`Environment`], innermost first.
pub closed spec fn env_view(e: Environment) -> EnvV
    decreases e,
{
    seq![assoc_map(e.values@)] + match e.enclosing {
        Some(b) => env_view(*b),
        None => Seq::empty(),
    }
}

impl View for Environment {
    type V = EnvV;

    open spec fn view(&self) -> EnvV {
        env_view(*self)
    }
}

impl Environment {
    /// Every scope of the chain is a well-formed association list.
    pub closed spec fn wf(self) -> bool
        decreases self,
    {
        assoc_wf(self.values@) && match self.enclosing {
            Some(b) => b.wf(),
            None => true,
        }
    }

    /// A fresh scope, innermost of the chain it is given (or of a new chain).
    pub fn new(enclosing: Option<Box<Environment>>) -> (r: Self)
        requires
            match enclosing {
                Some(b) => b.wf(),
                None => true,
            },
        ensures
            r.wf(),
            r@ == seq![Map::<Seq<char>, Option<ValueV>>::empty()] + match enclosing {
                Some(b) => b@,
                None => Seq::<ScopeV>::empty(),
            },
    {
        let r = Self { values: Vec::new(), enclosing };
        proof {
            assert(assoc_map(r.values@) =~= Map::empty());
        }
        r
    }

    /// Gives the enclosing chain back, so that the chain can be inspected
    /// directly; `None` for the outermost scope.
    pub fn into_enclosing(self) -> (r: Option<Box<Environment>>)
        requires
            self.wf(),
        ensures
            match r {
                Some(b) => b.wf() && b@ == self@.skip(1) && self@.len() > 1,
                None => self@.len() == 1,
            },
    {
        proof {
            assert(self@.skip(1) =~= match self.enclosing {
                Some(b) => env_view(*b),
                None => Seq::empty(),
            });
            match &self.enclosing {
                Some(b) => {
                    assert(self@.len() == 1 + env_view(**b).len());
                    assert(env_view(**b).len() >= 1);
                },
                None => {},
            }
        }
        self.enclosing
    }

    /// The index of a name in the local association list.
    fn find_local(&self, name: &str) -> (r: Option<usize>)
        ensures
            match r {
                Some(k) => 0 <= k < self.values@.len() && self.values@[k as int].0@ == name@,
                None => forall|j: int|
                    0 <= j < self.values@.len() ==> self.values@[j].0@ != name@,
            },
    {
        let n: usize = self.values.len();
        let mut k: usize = 0;
        while k < n
            invariant
                n == self.values@.len(),
                0 <= k <= n,
                forall|j: int| 0 <= j < k ==> self.values@[j].0@ != name@,
            decreases n - k,
        {
            if crate::token::str_eq(self.values[k].0.as_str(), name) {
                return Some(k);
            }
            k = k + 1;
        }
        None
    }

    /// Defines the name in this scope - always this innermost scope, never a
    /// shadowed outer one - inserting or overwriting the binding.
    pub fn define(&mut self, name: &str, value: Option<LiteralValue>)
        requires
            old(self).wf(),
        ensures
            final(self).wf(),
            final(self)@ == env_define(old(self)@, name@, value.deep_view()),
    {
        let ghost old_values = self.values@;
        match self.find_local(name) {
            Some(k) => {
                let value_ref = &mut self.values[k].1;
                *value_ref = value;
                proof {
                    assert(self.values@ =~= old_values.update(
                        k as int,
                        (old_values[k as int].0, value),
                    ));
                    lemma_assoc_update(old_values, k as int, value);
                    assert(self@ =~= env_define(env_view(*old(self)), name@, value.deep_view()));
                }
            },
            None => {
                let owned: String = name.to_owned();
                self.values.push((owned, value));
                proof {
                    assert(self.values@.drop_last() =~= old_values);
                    assert(assoc_map(self.values@) == assoc_map(old_values).insert(
                        name@,
                        value.deep_view(),
                    ));
                    assert(self@ =~= env_define(env_view(*old(self)), name@, value.deep_view()));
                }
            },
        }
    }

    /// Innermost-to-outermost lookup of the name, cloning the bound value.
    /// Fails when no scope binds the name, or when the first scope that binds
    /// it binds it to no value.
    pub fn get(&self, name: &str) -> (r: Result<LiteralValue, RuntimeError>)
        requires
            self.wf(),
        ensures
            match env_lookup(self@, name@) {
                LookupV::Value(v) => r matches Ok(got) && got@ == v,
                LookupV::Uninitialized => r matches Err(e) && e@
                    == RuntimeErrorV::UninitializedVariable(name@),
                LookupV::Missing => r matches Err(e) && e@ == RuntimeErrorV::UndefinedVariable(
                    name@,
                ),
            },
        decreases *self,
    {
        proof {
            lemma_env_head_tail(*self);
        }
        match self.find_local(name) {
            Some(k) => {
                proof {
                    lemma_assoc_found(self.values@, k as int, name@);
                    assert(self@[0].contains_key(name@));
                    assert(self@[0][name@] == self.values@[k as int].1.deep_view());
                }
                match &self.values[k].1 {
                    Some(v) => Ok(v.duplicate()),
                    None => Err(RuntimeError::UninitializedVariable { name: name.to_owned() }),
                }
            },
            None => {
                proof {
                    lemma_assoc_missing(self.values@, name@);
                    assert(!self@[0].contains_key(name@));
                    assert(env_lookup(self@, name@) == env_lookup(self@.skip(1), name@));
                }
                match &self.enclosing {
                    Some(b) => b.get(name),
                    None => {
                        proof {
                            assert(env_lookup(self@, name@) is Missing);
                        }
                        Err(RuntimeError::UndefinedVariable { name: name.to_owned() })
                    },
                }
            },
        }
    }

    /// Innermost-to-outermost assignment: mutates the first scope that
    /// already binds the name; fails when no scope binds it.
    pub fn assign(&mut self, name: &str, value: LiteralValue) -> (r: Result<(), RuntimeError>)
        requires
            old(self).wf(),
        ensures
            final(self).wf(),
            match env_assign(old(self)@, name@, value@) {
                Some(env2) => r matches Ok(()) && final(self)@ == env2,
                None => r matches Err(e) && e@ == RuntimeErrorV::UndefinedVariable(name@)
                    && final(self)@ == old(self)@,
            },
        decreases *old(self),
    {
        proof {
            lemma_env_head_tail(*old(self));
        }
        let ghost old_values = self.values@;
        match self.find_local(name) {
            Some(k) => {
                proof {
                    lemma_assoc_contains(old_values, name@);
                }
                let value_ref = &mut self.values[k].1;
                *value_ref = Some(value);
                proof {
                    assert(self.values@ =~= old_values.update(
                        k as int,
                        (old_values[k as int].0, Some(value)),
                    ));
                    lemma_assoc_update(old_values, k as int, Some(value));
                    assert(self@ =~= env_assign(env_view(*old(self)), name@, value@).unwrap());
                }
                Ok(())
            },
            None => {
                proof {
                    lemma_assoc_missing(old_values, name@);
                }
                match &mut self.enclosing {
                    Some(b) => {
                        let r = b.assign(name, value);
                        proof {
                            assert(self@ =~= seq![assoc_map(self.values@)] + env_view(**b));
                            match env_assign(env_view(*old(self)).skip(1), name@, value@) {
                                Some(tail) => {
                                    assert(self@ =~= seq![env_view(*old(self))[0]] + tail);
                                },
                                None => {
                                    assert(self@ =~= env_view(*old(self)));
                                },
                            }
                        }
                        r
                    },
                    None => Err(RuntimeError::UndefinedVariable { name: name.to_owned() }),
                }
            },
        }
    }
    /// A structural copy of the whole chain.
    pub fn duplicate(&self) -> (r: Environment)
        requires
            self.wf(),
        ensures
            r.wf(),
            r@ == self@,
        decreases *self,
    {
        let n: usize = self.values.len();
        let mut values: Vec<(String, Option<LiteralValue>)> = Vec::new();
        let mut k: usize = 0;
        while k < n
            invariant
                n == self.values@.len(),
                0 <= k <= n,
                values@.len() == k,
                forall|j: int|
                    0 <= j < k ==> values@[j].0@ == self.values@[j].0@ && values@[j].1.deep_view()
                        == self.values@[j].1.deep_view(),
            decreases n - k,
        {
            let key = self.values[k].0.clone();
            let value = match &self.values[k].1 {
                Some(v) => Some(v.duplicate()),
                None => None,
            };
            values.push((key, value));
            k = k + 1;
        }
        let enclosing = match &self.enclosing {
            Some(b) => Some(Box::new(b.duplicate())),
            None => None,
        };
        let r = Environment { values, enclosing };
        proof {
            lemma_assoc_map_congruent(r.values@, self.values@);
            assert(r@ =~= self@);
        }
        r
    }
}

/// Association lists whose entries agree in view describe the same map and
/// are well-formed together.
proof fn lemma_assoc_map_congruent(
    s1: Seq<(String, Option<LiteralValue>)>,
    s2: Seq<(String, Option<LiteralValue>)>,
)
    requires
        s1.len() == s2.len(),
        forall|j: int|
            0 <= j < s1.len() ==> s1[j].0@ == s2[j].0@ && s1[j].1.deep_view()
                == s2[j].1.deep_view(),
    ensures
        assoc_map(s1) == assoc_map(s2),
        assoc_wf(s1) == assoc_wf(s2),
    decreases s1.len(),
{
    if s1.len() > 0 {
        assert(forall|j: int|
            0 <= j < s1.drop_last().len() ==> s1.drop_last()[j].0@ == s2.drop_last()[j].0@
                && s1.drop_last()[j].1.deep_view() == s2.drop_last()[j].1.deep_view());
        lemma_assoc_map_congruent(s1.drop_last(), s2.drop_last());
        assert(assoc_map(s1) == assoc_map(s2));
        if assoc_wf(s1) {
            assert forall|i: int, j: int| 0 <= i < j < s2.len() implies s2[i].0@ != s2[j].0@ by {
                assert(s1[i].0@ == s2[i].0@ && s1[j].0@ == s2[j].0@);
            }
        }
        if assoc_wf(s2) {
            assert forall|i: int, j: int| 0 <= i < j < s1.len() implies s1[i].0@ != s1[j].0@ by {
                assert(s1[i].0@ == s2[i].0@ && s1[j].0@ == s2[j].0@);
            }
        }
    } else {
        assert(assoc_map(s1) =~= assoc_map(s2));
    }
}

/// The head of an environment view is the local scope; the tail is the
/// enclosing chain's view.
proof fn lemma_env_head_tail(e: Environment)
    ensures
        env_view(e)[0] == assoc_map(e.values@),
        env_view(e).skip(1) == match e.enclosing {
            Some(b) => env_view(*b),
            None => Seq::<ScopeV>::empty(),
        },
        env_view(e).len() >= 1,
{
    assert(env_view(e).skip(1) =~= match e.enclosing {
        Some(b) => env_view(*b),
        None => Seq::<ScopeV>::empty(),
    });
}

/// Replacing the value of entry `k` (keeping its key) is insertion into the
/// described map, provided the list holds no key twice.
proof fn lemma_assoc_update(
    s: Seq<(String, Option<LiteralValue>)>,
    k: int,
    value: Option<LiteralValue>,
)
    requires
        assoc_wf(s),
        0 <= k < s.len(),
    ensures
        assoc_wf(s.update(k, (s[k].0, value))),
        assoc_map(s.update(k, (s[k].0, value))) == assoc_map(s).insert(
            s[k].0@,
            value.deep_view(),
        ),
    decreases s.len(),
{
    let s2 = s.update(k, (s[k].0, value));
    assert forall|i: int, j: int| 0 <= i < j < s2.len() implies s2[i].0@ != s2[j].0@ by {
        assert(s2[i].0@ == s[i].0@);
        assert(s2[j].0@ == s[j].0@);
    }
    if k == s.len() - 1 {
        assert(s2.drop_last() =~= s.drop_last());
        assert(assoc_map(s2) == assoc_map(s.drop_last()).insert(s[k].0@, value.deep_view()));
        assert(assoc_map(s) == assoc_map(s.drop_last()).insert(s[k].0@, s[k].1.deep_view()));
        assert(assoc_map(s).insert(s[k].0@, value.deep_view()) =~= assoc_map(
            s.drop_last(),
        ).insert(s[k].0@, value.deep_view()));
    } else {
        assert(s2.drop_last() =~= s.drop_last().update(k, (s[k].0, value)));
        assert(s.drop_last()[k] == s[k]);
        lemma_assoc_update(s.drop_last(), k, value);
        assert(s2.last() == s.last());
        assert(assoc_map(s2) == assoc_map(s.drop_last()).insert(s[k].0@, value.deep_view()).insert(
            s.last().0@,
            s.last().1.deep_view(),
        ));
        assert(s[k].0@ != s.last().0@);
        assert(assoc_map(s.drop_last()).insert(s[k].0@, value.deep_view()).insert(
            s.last().0@,
            s.last().1.deep_view(),
        ) =~= assoc_map(s).insert(s[k].0@, value.deep_view()));
    }
}

/// The described map contains a name exactly when some entry holds it.
proof fn lemma_assoc_contains(s: Seq<(String, Option<LiteralValue>)>, name: Seq<char>)
    ensures
        assoc_map(s).contains_key(name) <==> exists|j: int| 0 <= j < s.len() && s[j].0@ == name,
    decreases s.len(),
{
    if s.len() > 0 {
        lemma_assoc_contains(s.drop_last(), name);
        if s.last().0@ == name {
            assert(s[s.len() - 1].0@ == name);
        } else if assoc_map(s).contains_key(name) {
            let j = choose|j: int| 0 <= j < s.drop_last().len() && s.drop_last()[j].0@ == name;
            assert(s[j].0@ == name);
        } else {
            assert forall|j: int| 0 <= j < s.len() implies s[j].0@ != name by {
                if j < s.len() - 1 {
                    assert(s.drop_last()[j] == s[j]);
                }
            }
        }
    }
}

/// When entry `k` holds the name and the list holds no key twice, the
/// described map binds the name to entry `k`'s value.
proof fn lemma_assoc_found(s: Seq<(String, Option<LiteralValue>)>, k: int, name: Seq<char>)
    requires
        assoc_wf(s),
        0 <= k < s.len(),
        s[k].0@ == name,
    ensures
        assoc_map(s).contains_key(name),
        assoc_map(s)[name] == s[k].1.deep_view(),
    decreases s.len(),
{
    if k == s.len() - 1 {
    } else {
        assert(s.drop_last()[k] == s[k]);
        lemma_assoc_found(s.drop_last(), k, name);
        assert(s.last().0@ != name);
    }
}

/// When no entry holds the name, the described map does not bind it.
proof fn lemma_assoc_missing(s: Seq<(String, Option<LiteralValue>)>, name: Seq<char>)
    requires
        forall|j: int| 0 <= j < s.len() ==> s[j].0@ != name,
    ensures
        !assoc_map(s).contains_key(name),
{
    lemma_assoc_contains(s, name);
}

/// A name is missing from a lookup exactly when no scope of the chain
/// binds it.
pub proof fn lemma_lookup_missing(env: EnvV, name: Seq<char>)
    ensures
        env_lookup(env, name) is Missing <==> forall|i: int|
            0 <= i < env.len() ==> !(#[trigger] env[i]).contains_key(name),
    decreases env.len(),
{
    if env.len() > 0 {
        lemma_lookup_missing(env.skip(1), name);
        if !env[0].contains_key(name) {
            if env_lookup(env, name) is Missing {
                assert forall|i: int| 0 <= i < env.len() implies !(#[trigger] env[i]).contains_key(
                    name,
                ) by {
                    if i > 0 {
                        assert(env.skip(1)[i - 1] == env[i]);
                    }
                }
            } else {
                let i = choose|i: int|
                    0 <= i < env.skip(1).len() && (#[trigger] env.skip(1)[i]).contains_key(name);
                assert(env[i + 1].contains_key(name));
            }
        }
    }
}

/// Defining a name in the innermost scope shadows without mutating: the
/// lookup now finds the new value, while every enclosing scope is exactly
/// what it was.
pub proof fn lemma_define_shadows(env: EnvV, name: Seq<char>, v: ValueV)
    requires
        env.len() > 0,
    ensures
        env_lookup(env_define(env, name, Some(v)), name) == LookupV::Value(v),
        env_define(env, name, Some(v)).skip(1) == env.skip(1),
        env_define(env, name, Some(v)).len() == env.len(),
{
    let env2 = env_define(env, name, Some(v));
    assert(env2[0].contains_key(name));
    assert(env2[0][name] == Some(v));
    assert(env2.skip(1) =~= env.skip(1));
}

/// Assigning to a name that the innermost scope does not bind but an
/// enclosing scope does mutates that enclosing scope's binding and leaves
/// the innermost scope untouched; the lookup then finds the new value.
pub proof fn lemma_assign_targets_enclosing(env: EnvV, name: Seq<char>, v: ValueV)
    requires
        env.len() > 0,
        !env[0].contains_key(name),
        env_assign(env, name, v) is Some,
    ensures
        env_assign(env, name, v).unwrap()[0] == env[0],
        env_assign(env, name, v).unwrap().skip(1) == env_assign(env.skip(1), name, v).unwrap(),
        env_lookup(env_assign(env, name, v).unwrap(), name) == LookupV::Value(v),
{
    let tail = env_assign(env.skip(1), name, v).unwrap();
    let env2 = env_assign(env, name, v).unwrap();
    assert(env2 =~= seq![env[0]] + tail);
    assert(env2.skip(1) =~= tail);
    lemma_assign_found(env.skip(1), name, v);
    assert(!env2[0].contains_key(name));
}

/// After a successful assignment, the lookup finds the assigned value.
pub proof fn lemma_assign_found(env: EnvV, name: Seq<char>, v: ValueV)
    requires
        env_assign(env, name, v) is Some,
    ensures
        env_lookup(env_assign(env, name, v).unwrap(), name) == LookupV::Value(v),
    decreases env.len(),
{
    let env2 = env_assign(env, name, v).unwrap();
    if env[0].contains_key(name) {
        assert(env2[0].contains_key(name));
        assert(env2[0][name] == Some(v));
    } else {
        let tail = env_assign(env.skip(1), name, v).unwrap();
        lemma_assign_found(env.skip(1), name, v);
        assert(env2 =~= seq![env[0]] + tail);
        assert(env2.skip(1) =~= tail);
        assert(!env2[0].contains_key(name));
    }
}

} // verus!
