//! The binding environment: a compile-time symbol table.
//!
//! Names map to instruction-shaped meanings (a variable marker, a macro body,
//! a declared-arity function).  Entering a nested scope clones the whole
//! table, so bindings made inside a body are never seen outside it.

use vstd::prelude::*;

use crate::chars::{chars_eq, copy_chars};
use crate::value::{clone_value, vview, Value, ValueView};

verus! {

/// The symbol table, keyed by name, latest binding winning.
pub struct Env {
    entries: Vec<(Vec<char>, Value)>,
}

/// The mapping an entry list denotes: entries applied left to right.
pub open spec fn env_map_of(entries: Seq<(Vec<char>, Value)>) -> Map<Seq<char>, ValueView>
    decreases entries.len(),
{
    if entries.len() == 0 {
        Map::empty()
    } else {
        env_map_of(entries.drop_last()).insert(entries.last().0@, vview(entries.last().1))
    }
}

impl View for Env {
    type V = Map<Seq<char>, ValueView>;

    closed spec fn view(&self) -> Map<Seq<char>, ValueView> {
        env_map_of(self.entries@)
    }
}

/// Key facts of an entry list's mapping: a key is present exactly when some
/// entry carries it, and the last such entry gives its meaning.
proof fn lemma_env_map(entries: Seq<(Vec<char>, Value)>, k: Seq<char>)
    ensures
        env_map_of(entries).dom().contains(k) <==> exists|j: int|
            0 <= j < entries.len() && entries[j].0@ == k,
        forall|j: int|
            0 <= j < entries.len() && entries[j].0@ == k && (forall|l: int|
                j < l < entries.len() ==> entries[l].0@ != k) ==> env_map_of(entries)[k] == vview(
                entries[j].1,
            ),
    decreases entries.len(),
{
    if entries.len() > 0 {
        let prefix = entries.drop_last();
        lemma_env_map(prefix, k);
        if entries.last().0@ == k {
            assert(entries[entries.len() - 1].0@ == k);
        } else {
            if env_map_of(entries).dom().contains(k) {
                let j = choose|j: int| 0 <= j < prefix.len() && prefix[j].0@ == k;
                assert(entries[j].0@ == k);
            }
            if exists|j: int| 0 <= j < entries.len() && entries[j].0@ == k {
                let j = choose|j: int| 0 <= j < entries.len() && entries[j].0@ == k;
                assert(prefix[j].0@ == k);
            }
        }
        assert forall|j: int|
            0 <= j < entries.len() && entries[j].0@ == k && (forall|l: int|
                j < l < entries.len() ==> entries[l].0@ != k) implies env_map_of(entries)[k]
            == vview(entries[j].1) by {
            if j < entries.len() - 1 {
                assert(entries[entries.len() - 1].0@ != k);
                assert(prefix[j].0@ == k);
                assert(forall|l: int| j < l < prefix.len() ==> prefix[l].0@ != k);
            }
        }
    }
}

impl Env {
    /// The empty table.
    pub fn new() -> (e: Env)
        ensures
            e@ == Map::<Seq<char>, ValueView>::empty(),
    {
        Env { entries: Vec::new() }
    }

    /// Binds a name, replacing any earlier meaning.
    pub fn insert(&mut self, name: Vec<char>, v: Value)
        ensures
            final(self)@ == old(self)@.insert(name@, v@),
    {
        self.entries.push((name, v));
        proof {
            assert(self.entries@.drop_last() =~= old(self).entries@);
        }
    }

    /// Looks a name up.
    pub fn get(&self, name: &Vec<char>) -> (r: Option<&Value>)
        ensures
            match r {
                Some(v) => self@.dom().contains(name@) && v@ == self@[name@],
                None => !self@.dom().contains(name@),
            },
    {
        let mut i: usize = self.entries.len();
        while i > 0
            invariant
                i <= self.entries.len(),
                forall|l: int| i <= l < self.entries@.len() ==> self.entries@[l].0@ != name@,
            decreases i,
        {
            i -= 1;
            if chars_eq(&self.entries[i].0, name) {
                proof {
                    lemma_env_map(self.entries@, name@);
                }
                return Some(&self.entries[i].1);
            }
        }
        proof {
            lemma_env_map(self.entries@, name@);
        }
        None
    }

    /// A full copy for a child scope: the same mapping, separate storage.
    pub fn child(&self) -> (e: Env)
        ensures
            e@ == self@,
    {
        let mut entries: Vec<(Vec<char>, Value)> = Vec::new();
        let mut i: usize = 0;
        while i < self.entries.len()
            invariant
                i <= self.entries.len(),
                entries@.len() == i,
                forall|j: int|
                    0 <= j < i ==> entries@[j].0@ == self.entries@[j].0@ && vview(entries@[j].1)
                        == vview(self.entries@[j].1),
            decreases self.entries.len() - i,
        {
            let name = copy_chars(&self.entries[i].0);
            let v = clone_value(&self.entries[i].1);
            entries.push((name, v));
            i += 1;
        }
        let e = Env { entries };
        proof {
            lemma_env_map_congruence(e.entries@, self.entries@);
        }
        e
    }

    /// The mapping restricted to names whose meaning is not a plain variable
    /// marker; macros, functions and the rest stay.
    pub open spec fn spec_without_vars(self) -> Map<Seq<char>, ValueView> {
        drop_var_marks(self@)
    }

    /// Drops every binding whose meaning is a plain variable marker.  Used
    /// when a function body's scope is formed.
    pub fn without_vars(&self) -> (e: Env)
        ensures
            e@ == self.spec_without_vars(),
    {
        let ghost fmap = self@;
        let mut entries: Vec<(Vec<char>, Value)> = Vec::new();
        let mut i: usize = 0;
        while i < self.entries.len()
            invariant
                i <= self.entries.len(),
                fmap == self@,
                env_map_of(entries@) == Map::<Seq<char>, ValueView>::new(
                    |k: Seq<char>| env_map_of(self.entries@.take(i as int)).dom().contains(k) && !(
                    fmap[k] is Get),
                    |k: Seq<char>| env_map_of(self.entries@.take(i as int))[k],
                ),
            decreases self.entries.len() - i,
        {
            let ghost prev = entries@;
            let ghost prefix = self.entries@.take(i as int);
            let name = &self.entries[i].0;
            let keep = match self.get(name) {
                Some(Value::Get(_)) => false,
                _ => true,
            };
            proof {
                lemma_env_map(self.entries@, name@);
            }
            if keep {
                let key = copy_chars(name);
                let v = clone_value(&self.entries[i].1);
                entries.push((key, v));
                proof {
                    assert(entries@.drop_last() =~= prev);
                }
            }
            i += 1;
            proof {
                assert(self.entries@.take(i as int).drop_last() =~= prefix);
                assert(self.entries@.take(i as int).last() == self.entries@[i - 1]);
                assert(env_map_of(entries@) =~= Map::<Seq<char>, ValueView>::new(
                    |k: Seq<char>| env_map_of(self.entries@.take(i as int)).dom().contains(k) && !(
                    fmap[k] is Get),
                    |k: Seq<char>| env_map_of(self.entries@.take(i as int))[k],
                ));
            }
        }
        proof {
            assert(self.entries@.take(self.entries@.len() as int) =~= self.entries@);
            assert(env_map_of(entries@) =~= self.spec_without_vars());
        }
        Env { entries }
    }
}

/// A mapping restricted to names whose meaning is not a plain variable
/// marker.
pub open spec fn drop_var_marks(m: Map<Seq<char>, ValueView>) -> Map<Seq<char>, ValueView> {
    Map::<Seq<char>, ValueView>::new(
        |k: Seq<char>| m.dom().contains(k) && !(m[k] is Get),
        |k: Seq<char>| m[k],
    )
}

/// Entry lists whose images agree pointwise denote the same mapping.
proof fn lemma_env_map_congruence(a: Seq<(Vec<char>, Value)>, b: Seq<(Vec<char>, Value)>)
    requires
        a.len() == b.len(),
        forall|j: int| 0 <= j < a.len() ==> a[j].0@ == b[j].0@ && vview(a[j].1) == vview(b[j].1),
    ensures
        env_map_of(a) == env_map_of(b),
    decreases a.len(),
{
    if a.len() > 0 {
        lemma_env_map_congruence(a.drop_last(), b.drop_last());
    }
}

} // verus!
