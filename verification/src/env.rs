//! Environments: ordered key/value bindings with unique keys.
//!
//! An environment is modelled as the sequence of its bindings, in the order
//! in which their keys were first bound. That order is the order in which a
//! command template is expanded, so expansion is a function of the
//! environment.

use vstd::prelude::*;
use crate::text::{chars_of, same};

verus! {

/// A key and its value.
pub type Binding = (Seq<char>, Seq<char>);

/// Whether some binding of `env` has the key `key`.
pub open spec fn has_key(env: Seq<Binding>, key: Seq<char>) -> bool {
    exists|i: int| 0 <= i < env.len() && (#[trigger] env[i]).0 == key
}

/// No key is bound twice.
pub open spec fn unique_keys(env: Seq<Binding>) -> bool {
    forall|i: int, j: int|
        0 <= i < j < env.len() ==> (#[trigger] env[i]).0 != (#[trigger] env[j]).0
}

/// The value bound to `key`, if any.
pub open spec fn lookup(env: Seq<Binding>, key: Seq<char>) -> Option<Seq<char>> {
    if has_key(env, key) {
        Some(env[choose|i: int| 0 <= i < env.len() && (#[trigger] env[i]).0 == key].1)
    } else {
        None
    }
}

/// `env` with `key` bound to `value`: a binding of `key` keeps its place and
/// takes the new value; where there is none, the new binding comes last.
pub open spec fn bind(env: Seq<Binding>, key: Seq<char>, value: Seq<char>) -> Seq<Binding> {
    if has_key(env, key) {
        env.map_values(|b: Binding| if b.0 == key { (key, value) } else { b })
    } else {
        env.push((key, value))
    }
}

/// `base` with the bindings of `over` applied on top, in their order.
pub open spec fn overlay(base: Seq<Binding>, over: Seq<Binding>) -> Seq<Binding>
    decreases over.len(),
{
    if over.len() == 0 {
        base
    } else {
        bind(overlay(base, over.drop_last()), over.last().0, over.last().1)
    }
}

/// With unique keys, the binding found at any position is the one that
/// `lookup` gives.
pub proof fn lemma_lookup_at(env: Seq<Binding>, i: int)
    requires
        unique_keys(env),
        0 <= i < env.len(),
    ensures
        lookup(env, env[i].0) == Some(env[i].1),
{
    let j = choose|j: int| 0 <= j < env.len() && (#[trigger] env[j]).0 == env[i].0;
    assert(j == i);
}

/// Binding a key keeps the keys unique, gives that key the new value and
/// leaves every other key as it was.
pub proof fn lemma_bind(env: Seq<Binding>, key: Seq<char>, value: Seq<char>)
    requires
        unique_keys(env),
    ensures
        unique_keys(bind(env, key, value)),
        lookup(bind(env, key, value), key) == Some(value),
        forall|k: Seq<char>| k != key ==> lookup(bind(env, key, value), k) == lookup(env, k),
{
    let out = bind(env, key, value);
    if has_key(env, key) {
        let i = choose|i: int| 0 <= i < env.len() && (#[trigger] env[i]).0 == key;
        assert(forall|j: int| 0 <= j < env.len() ==> (#[trigger] out[j]).0 == env[j].0);
        lemma_lookup_at(out, i);
    } else {
        lemma_lookup_at(out, env.len() as int);
    }
    assert forall|k: Seq<char>| k != key implies lookup(out, k) == lookup(env, k) by {
        if has_key(env, k) {
            let j = choose|j: int| 0 <= j < env.len() && (#[trigger] env[j]).0 == k;
            assert(out[j] == env[j]);
            lemma_lookup_at(out, j);
        } else if has_key(out, k) {
            let j = choose|j: int| 0 <= j < out.len() && (#[trigger] out[j]).0 == k;
            assert(env[j].0 == k);
        }
    }
}

/// Override precedence: in an overlay, a key that `over` binds has the value
/// that `over` gives it, and every other key has the value that `base`
/// gives it.
pub proof fn lemma_overlay(base: Seq<Binding>, over: Seq<Binding>)
    requires
        unique_keys(base),
        unique_keys(over),
    ensures
        unique_keys(overlay(base, over)),
        forall|k: Seq<char>|
            #[trigger] lookup(overlay(base, over), k) == if has_key(over, k) {
                lookup(over, k)
            } else {
                lookup(base, k)
            },
    decreases over.len(),
{
    if over.len() > 0 {
        let init = over.drop_last();
        let last = over.last();
        let n = init.len() as int;
        lemma_overlay(base, init);
        lemma_bind(overlay(base, init), last.0, last.1);
        lemma_lookup_at(over, n);
        let prev = overlay(base, init);
        assert forall|k: Seq<char>|
            #[trigger] lookup(overlay(base, over), k) == if has_key(over, k) {
                lookup(over, k)
            } else {
                lookup(base, k)
            } by {
            if k != last.0 {
                assert(lookup(overlay(base, over), k) == lookup(prev, k));
                if has_key(init, k) {
                    let j = choose|j: int| 0 <= j < init.len() && (#[trigger] init[j]).0 == k;
                    lemma_lookup_at(init, j);
                    lemma_lookup_at(over, j);
                } else if has_key(over, k) {
                    let j = choose|j: int| 0 <= j < over.len() && (#[trigger] over[j]).0 == k;
                    assert(init[j].0 == k);
                }
            } else {
                assert(over[n].0 == k);
            }
        }
    }
}

/// The bindings that a sequence of string pairs stands for.
pub open spec fn bindings_of(pairs: Seq<(String, String)>) -> Seq<Binding> {
    pairs.map_values(|p: (String, String)| (p.0@, p.1@))
}

/// An environment: keys bound to values, each key once, kept in the order
/// in which the keys were first bound.
#[derive(Debug)]
pub struct Env {
    pairs: Vec<(String, String)>,
}

impl View for Env {
    type V = Seq<Binding>;

    closed spec fn view(&self) -> Seq<Binding> {
        bindings_of(self.pairs@)
    }
}

impl Clone for Env {
    fn clone(&self) -> (copy: Env)
        ensures
            copy@ == self@,
            unique_keys(copy@),
    {
        proof {
            use_type_invariant(self);
        }
        Env { pairs: self.bindings() }
    }
}

impl Env {
    #[verifier::type_invariant]
    spec fn inv(self) -> bool {
        unique_keys(self@)
    }

    /// The environment that binds nothing.
    pub fn new() -> (env: Env)
        ensures
            env@ == Seq::<Binding>::empty(),
    {
        Env { pairs: Vec::new() }
    }

    /// The number of bindings.
    pub fn len(&self) -> (n: usize)
        ensures
            n == self@.len(),
    {
        self.pairs.len()
    }

    /// The position at which `key` is bound.
    fn position(&self, key: &Vec<char>) -> (at: Option<usize>)
        ensures
            unique_keys(self@),
            match at {
                Some(i) => i < self@.len() && self@[i as int].0 == key@,
                None => !has_key(self@, key@),
            },
    {
        proof {
            use_type_invariant(self);
        }
        let mut i: usize = 0;
        while i < self.pairs.len()
            invariant
                i <= self.pairs.len(),
                unique_keys(self@),
                forall|j: int| 0 <= j < i ==> (#[trigger] self@[j]).0 != key@,
            decreases self.pairs.len() - i,
        {
            let k = chars_of(self.pairs[i].0.as_str());
            if same(&k, key) {
                return Some(i);
            }
            i = i + 1;
        }
        None
    }

    /// The value bound to `key`, if any.
    pub fn get(&self, key: &str) -> (value: Option<&String>)
        ensures
            unique_keys(self@),
            match value {
                Some(v) => lookup(self@, key@) == Some(v@),
                None => lookup(self@, key@) is None,
            },
    {
        let k = chars_of(key);
        match self.position(&k) {
            Some(i) => {
                proof {
                    lemma_lookup_at(self@, i as int);
                }
                Some(&self.pairs[i].1)
            },
            None => None,
        }
    }

    /// Binds `key` to `value`. A key that was bound keeps its place.
    pub fn insert(&mut self, key: String, value: String)
        ensures
            final(self)@ == bind(old(self)@, key@, value@),
            unique_keys(final(self)@),
    {
        proof {
            use_type_invariant(&*self);
            lemma_bind(self@, key@, value@);
        }
        let k = chars_of(key.as_str());
        let at = self.position(&k);
        let mut pairs = Vec::new();
        std::mem::swap(&mut pairs, &mut self.pairs);
        match at {
            Some(i) => {
                pairs[i] = (key, value);
            },
            None => {
                pairs.push((key, value));
            },
        }
        assert(bindings_of(pairs@) =~= bind(old(self)@, key@, value@));
        self.pairs = pairs;
    }

    /// The bindings, in order, as pairs of key and value.
    pub fn bindings(&self) -> (pairs: Vec<(String, String)>)
        ensures
            bindings_of(pairs@) == self@,
            unique_keys(self@),
    {
        proof {
            use_type_invariant(self);
        }
        let mut pairs: Vec<(String, String)> = Vec::new();
        let mut i: usize = 0;
        while i < self.pairs.len()
            invariant
                i <= self.pairs.len(),
                bindings_of(pairs@) == self@.take(i as int),
            decreases self.pairs.len() - i,
        {
            let key = self.pairs[i].0.clone();
            let value = self.pairs[i].1.clone();
            let ghost before = pairs@;
            pairs.push((key, value));
            assert(bindings_of(pairs@) =~= bindings_of(before).push((key@, value@)));
            i = i + 1;
        }
        pairs
    }

    /// This environment with the bindings of `over` applied on top: where
    /// both bind a key, the value is that of `over`.
    pub fn overlaid(&self, over: &Env) -> (merged: Env)
        ensures
            merged@ == overlay(self@, over@),
            unique_keys(self@),
            unique_keys(over@),
            unique_keys(merged@),
    {
        proof {
            use_type_invariant(self);
            use_type_invariant(over);
        }
        let mut merged = self.clone();
        let pairs = over.bindings();
        let mut i: usize = 0;
        while i < pairs.len()
            invariant
                i <= pairs.len(),
                bindings_of(pairs@) == over@,
                merged@ == overlay(self@, over@.take(i as int)),
                unique_keys(merged@),
            decreases pairs.len() - i,
        {
            let key = pairs[i].0.clone();
            let value = pairs[i].1.clone();
            assert(over@.take(i + 1).drop_last() =~= over@.take(i as int));
            merged.insert(key, value);
            i = i + 1;
        }
        assert(over@.take(i as int) =~= over@);
        merged
    }
}

} // verus!
