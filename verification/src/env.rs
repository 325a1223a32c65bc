//! The variable environment: a mapping from variable names to numeric
//! values, pre-seeded with the constants `pi` and `e`.
//!
//! Values are IEEE-754 double-precision bit patterns, carried as opaque
//! 64-bit words; the library stores and moves them but never computes with
//! them.

use vstd::prelude::*;
use vstd::string::StringExecFns;

verus! {

/// IEEE-754 double-precision bit pattern of the circle constant pi.
pub const PI_BITS: u64 = 0x400921FB54442D18;

/// IEEE-754 double-precision bit pattern of Euler's number e.
pub const E_BITS: u64 = 0x4005BF0A8B145769;

/// The mapping an entry list stands for: later entries win.
pub open spec fn map_of(entries: Seq<(String, u64)>) -> Map<Seq<char>, u64>
    decreases entries.len(),
{
    if entries.len() == 0 {
        Map::empty()
    } else {
        map_of(entries.drop_last()).insert(entries.last().0@, entries.last().1)
    }
}

/// No two entries bind the same name.
pub open spec fn unique_keys(entries: Seq<(String, u64)>) -> bool {
    forall|i: int, j: int|
        0 <= i < j < entries.len() ==> entries[i].0@ != entries[j].0@
}

proof fn lemma_map_of_absent(entries: Seq<(String, u64)>, key: Seq<char>)
    requires
        forall|i: int| 0 <= i < entries.len() ==> entries[i].0@ != key,
    ensures
        !map_of(entries).contains_key(key),
    decreases entries.len(),
{
    if entries.len() > 0 {
        lemma_map_of_absent(entries.drop_last(), key);
    }
}

proof fn lemma_map_of_found(entries: Seq<(String, u64)>, key: Seq<char>, i: int)
    requires
        unique_keys(entries),
        0 <= i < entries.len(),
        entries[i].0@ == key,
    ensures
        map_of(entries).contains_key(key),
        map_of(entries)[key] == entries[i].1,
    decreases entries.len(),
{
    if i == entries.len() - 1 {
    } else {
        assert(unique_keys(entries.drop_last()));
        lemma_map_of_found(entries.drop_last(), key, i);
        assert(entries[entries.len() - 1].0@ != key);
    }
}

proof fn lemma_map_of_update(entries: Seq<(String, u64)>, i: int, name: String, value: u64)
    requires
        unique_keys(entries),
        0 <= i < entries.len(),
        entries[i].0@ == name@,
    ensures
        map_of(entries.update(i, (name, value))) =~= map_of(entries).insert(name@, value),
    decreases entries.len(),
{
    let updated = entries.update(i, (name, value));
    if i == entries.len() - 1 {
        assert(updated.drop_last() =~= entries.drop_last());
        assert(map_of(updated) =~= map_of(entries).insert(name@, value));
    } else {
        assert(updated.drop_last() =~= entries.drop_last().update(i, (name, value)));
        assert(unique_keys(entries.drop_last()));
        lemma_map_of_update(entries.drop_last(), i, name, value);
        let last = entries.last();
        assert(last.0@ != name@);
        assert(updated.last() == last);
        assert(map_of(updated) =~= map_of(entries).insert(name@, value));
    }
}

/// The variable environment. Created once, seeded with `pi` and `e`, then
/// only ever grown or overwritten by assignment evaluation.
pub struct Environment {
    /// The bindings, each name held at most once.
    pub entries: Vec<(String, u64)>,
}

impl View for Environment {
    type V = Map<Seq<char>, u64>;

    open spec fn view(&self) -> Map<Seq<char>, u64> {
        map_of(self.entries@)
    }
}

impl Environment {
    /// Each name is bound at most once.
    pub open spec fn wf(&self) -> bool {
        unique_keys(self.entries@)
    }

    /// The environment at process start: exactly `pi` and `e` are bound.
    pub fn new() -> (r: Environment)
        ensures
            r.wf(),
            r@ == Map::<Seq<char>, u64>::empty().insert("pi"@, PI_BITS).insert("e"@, E_BITS),
    {
        let mut entries: Vec<(String, u64)> = Vec::new();
        entries.push((String::from_str("pi"), PI_BITS));
        let ghost one = entries@;
        entries.push((String::from_str("e"), E_BITS));
        proof {
            reveal_strlit("pi");
            reveal_strlit("e");
            assert("pi"@.len() == 2 && "e"@.len() == 1);
            assert(one.drop_last() =~= Seq::<(String, u64)>::empty());
            assert(entries@.drop_last() =~= one);
            assert(one[0].0@ == "pi"@ && one[0].1 == PI_BITS);
            assert(entries@[1].0@ == "e"@ && entries@[1].1 == E_BITS);
            assert(map_of(Seq::<(String, u64)>::empty()) =~= Map::<Seq<char>, u64>::empty());
            assert(map_of(one) =~= Map::<Seq<char>, u64>::empty().insert("pi"@, PI_BITS));
            assert(map_of(entries@) =~= Map::<Seq<char>, u64>::empty().insert("pi"@, PI_BITS)
                .insert("e"@, E_BITS));
            assert(unique_keys(entries@));
        }
        Environment { entries }
    }

    /// Looks a variable up; the environment is untouched.
    pub fn get(&self, name: &String) -> (r: Option<u64>)
        requires
            self.wf(),
        ensures
            r == (if self@.contains_key(name@) {
                Some(self@[name@])
            } else {
                Option::<u64>::None
            }),
    {
        let n = self.entries.len();
        let mut i: usize = 0;
        while i < n
            invariant
                self.wf(),
                n == self.entries.len(),
                i <= n,
                forall|j: int| 0 <= j < i ==> self.entries@[j].0@ != name@,
            decreases n - i,
        {
            if self.entries[i].0 == *name {
                proof {
                    lemma_map_of_found(self.entries@, name@, i as int);
                }
                return Some(self.entries[i].1);
            }
            i += 1;
        }
        proof {
            lemma_map_of_absent(self.entries@, name@);
        }
        None
    }

    /// Inserts or overwrites exactly one binding.
    pub fn set(&mut self, name: String, value: u64)
        requires
            old(self).wf(),
        ensures
            final(self).wf(),
            final(self)@ == old(self)@.insert(name@, value),
    {
        let n = self.entries.len();
        let mut i: usize = 0;
        while i < n
            invariant
                self.wf(),
                self == old(self),
                n == self.entries.len(),
                i <= n,
                forall|j: int| 0 <= j < i ==> self.entries@[j].0@ != name@,
            decreases n - i,
        {
            if self.entries[i].0 == name {
                proof {
                    lemma_map_of_update(self.entries@, i as int, name, value);
                }
                let ghost before = self.entries@;
                self.entries.set(i, (name, value));
                proof {
                    assert(forall|a: int| 0 <= a < before.len() && a != i
                        ==> self.entries@[a] == before[a]);
                    assert(unique_keys(self.entries@));
                }
                return;
            }
            i += 1;
        }
        proof {
            lemma_map_of_absent(self.entries@, name@);
        }
        let ghost before = self.entries@;
        self.entries.push((name, value));
        proof {
            assert(self.entries@.drop_last() =~= before);
            assert(unique_keys(self.entries@));
            assert(self@ =~= old(self)@.insert(name@, value));
        }
    }
}

} // verus!
