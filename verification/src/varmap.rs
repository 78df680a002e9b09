//! The variable stores: association vectors seen in contracts as maps from
//! key to single-precision bit pattern.  The earliest entry for a key is
//! the binding; updates rewrite it in place.

use vstd::prelude::*;

use crate::fbits::FloatBits;

verus! {

/// The map a numbered entry vector stands for; the first entry for a key
/// wins.
pub open spec fn num_entries_map(s: Seq<(u32, FloatBits)>) -> Map<u32, u32>
    decreases s.len(),
{
    if s.len() == 0 {
        Map::empty()
    } else {
        num_entries_map(s.drop_first()).insert(s[0].0, s[0].1.0)
    }
}

/// Membership in the entry map is having an entry.
proof fn lemma_num_map_get(s: Seq<(u32, FloatBits)>, n: u32)
    ensures
        num_entries_map(s).dom().contains(n) <==> (exists|i: int|
            0 <= i < s.len() && (#[trigger] s[i]).0 == n),
        forall|i: int|
            (0 <= i < s.len() && (#[trigger] s[i]).0 == n && (forall|j: int|
                0 <= j < i ==> (#[trigger] s[j]).0 != n)) ==> num_entries_map(s)[n]
                == s[i].1.0,
    decreases s.len(),
{
    if s.len() > 0 {
        lemma_num_map_get(s.drop_first(), n);
        assert forall|i: int| 1 <= i < s.len() implies s.drop_first()[i - 1] == s[i] by {}
        if s[0].0 != n && num_entries_map(s).dom().contains(n) {
            assert(num_entries_map(s.drop_first()).dom().contains(n));
        }
    }
}

/// Rewriting the first entry for a key is insertion into the map.
proof fn lemma_num_map_update(s: Seq<(u32, FloatBits)>, i: int, n: u32, v: FloatBits)
    requires
        0 <= i < s.len(),
        s[i].0 == n,
        forall|j: int| 0 <= j < i ==> (#[trigger] s[j]).0 != n,
    ensures
        num_entries_map(s.update(i, (n, v))) == num_entries_map(s).insert(n, v.0),
    decreases s.len(),
{
    let t = s.update(i, (n, v));
    if i == 0 {
        assert(t.drop_first() =~= s.drop_first());
        assert(num_entries_map(t) =~= num_entries_map(s).insert(n, v.0));
    } else {
        lemma_num_map_update(s.drop_first(), i - 1, n, v);
        assert(t.drop_first() =~= s.drop_first().update(i - 1, (n, v)));
        assert(t[0] == s[0]);
        assert(s[0].0 != n);
        assert(num_entries_map(t) =~= num_entries_map(s).insert(n, v.0));
    }
}

/// Appending an entry for an unbound key is insertion into the map.
proof fn lemma_num_map_push(s: Seq<(u32, FloatBits)>, n: u32, v: FloatBits)
    requires
        !num_entries_map(s).dom().contains(n),
    ensures
        num_entries_map(s.push((n, v))) == num_entries_map(s).insert(n, v.0),
    decreases s.len(),
{
    lemma_num_map_get(s, n);
    if s.len() == 0 {
        assert(s.push((n, v)).drop_first() =~= s);
        assert(num_entries_map(s.push((n, v))) =~= num_entries_map(s).insert(n, v.0));
    } else {
        assert(s[0].0 != n);
        if num_entries_map(s.drop_first()).dom().contains(n) {
            lemma_num_map_get(s.drop_first(), n);
            assert(false);
        }
        lemma_num_map_push(s.drop_first(), n, v);
        assert(s.push((n, v)).drop_first() =~= s.drop_first().push((n, v)));
        assert(s.push((n, v))[0] == s[0]);
        assert(num_entries_map(s.push((n, v))) =~= num_entries_map(s).insert(n, v.0));
    }
}

/// A store of numbered variables.
pub struct NumMap {
    entries: Vec<(u32, FloatBits)>,
}

impl View for NumMap {
    type V = Map<u32, u32>;

    closed spec fn view(&self) -> Map<u32, u32> {
        num_entries_map(self.entries@)
    }
}

impl NumMap {
    /// The empty store.
    pub fn new() -> (r: Self)
        ensures
            r@ == Map::<u32, u32>::empty(),
    {
        NumMap { entries: Vec::new() }
    }

    /// Read one variable.
    pub fn get(&self, n: u32) -> (r: Option<FloatBits>)
        ensures
            match r {
                Some(b) => self@.dom().contains(n) && self@[n] == b.0,
                None => !self@.dom().contains(n),
            },
    {
        let mut i: usize = 0;
        while i < self.entries.len()
            invariant
                i <= self.entries@.len(),
                forall|j: int| 0 <= j < i ==> (#[trigger] self.entries@[j]).0 != n,
            decreases self.entries@.len() - i,
        {
            proof {
                lemma_num_map_get(self.entries@, n);
            }
            if self.entries[i].0 == n {
                return Some(self.entries[i].1);
            }
            i += 1;
        }
        proof {
            lemma_num_map_get(self.entries@, n);
        }
        None
    }

    /// Bind one variable, replacing any earlier binding.
    pub fn set(&mut self, n: u32, v: FloatBits)
        ensures
            final(self)@ == old(self)@.insert(n, v.0),
    {
        let ghost s0 = self.entries@;
        proof {
            lemma_num_map_get(s0, n);
        }
        let mut i: usize = 0;
        while i < self.entries.len()
            invariant
                i <= self.entries@.len(),
                self.entries@ == s0,
                s0 == old(self).entries@,
                forall|j: int| 0 <= j < i ==> (#[trigger] self.entries@[j]).0 != n,
            decreases self.entries@.len() - i,
        {
            if self.entries[i].0 == n {
                self.entries.set(i, (n, v));
                proof {
                    lemma_num_map_update(s0, i as int, n, v);
                }
                return ;
            }
            i += 1;
        }
        proof {
            lemma_num_map_push(s0, n, v);
        }
        self.entries.push((n, v));
    }
}

/// The map a named entry vector stands for; the first entry for a name
/// wins.
pub open spec fn name_entries_map(s: Seq<(String, FloatBits)>) -> Map<Seq<char>, u32>
    decreases s.len(),
{
    if s.len() == 0 {
        Map::empty()
    } else {
        name_entries_map(s.drop_first()).insert(s[0].0@, s[0].1.0)
    }
}

/// Membership in the entry map is having an entry.
#[verifier::rlimit(60)]
proof fn lemma_name_map_get(s: Seq<(String, FloatBits)>, k: Seq<char>)
    ensures
        name_entries_map(s).dom().contains(k) <==> (exists|i: int|
            0 <= i < s.len() && (#[trigger] s[i]).0@ == k),
        forall|i: int|
            (0 <= i < s.len() && (#[trigger] s[i]).0@ == k && (forall|j: int|
                0 <= j < i ==> (#[trigger] s[j]).0@ != k)) ==> name_entries_map(s)[k]
                == s[i].1.0,
    decreases s.len(),
{
    if s.len() > 0 {
        lemma_name_map_get(s.drop_first(), k);
        assert forall|i: int| 1 <= i < s.len() implies s.drop_first()[i - 1] == s[i] by {}
        if s[0].0@ != k && name_entries_map(s).dom().contains(k) {
            assert(name_entries_map(s.drop_first()).dom().contains(k));
        }
    }
}

/// Rewriting the first entry for a name is insertion into the map.
proof fn lemma_name_map_update(
    s: Seq<(String, FloatBits)>,
    t: Seq<(String, FloatBits)>,
    i: int,
    k: Seq<char>,
    v: FloatBits,
)
    requires
        0 <= i < s.len(),
        s[i].0@ == k,
        forall|j: int| 0 <= j < i ==> (#[trigger] s[j]).0@ != k,
        t.len() == s.len(),
        forall|j: int| 0 <= j < s.len() && j != i ==> #[trigger] t[j] == s[j],
        t[i].0@ == k,
        t[i].1 == v,
    ensures
        name_entries_map(t) == name_entries_map(s).insert(k, v.0),
    decreases s.len(),
{
    if i == 0 {
        assert(t.drop_first() =~= s.drop_first());
        assert(name_entries_map(t) =~= name_entries_map(s).insert(k, v.0));
    } else {
        lemma_name_map_update(s.drop_first(), t.drop_first(), i - 1, k, v);
        assert(t[0] == s[0]);
        assert(s[0].0@ != k);
        assert(name_entries_map(t) =~= name_entries_map(s).insert(k, v.0));
    }
}

/// Appending an entry for an unbound name is insertion into the map.
proof fn lemma_name_map_push(s: Seq<(String, FloatBits)>, e: (String, FloatBits))
    requires
        !name_entries_map(s).dom().contains(e.0@),
    ensures
        name_entries_map(s.push(e)) == name_entries_map(s).insert(e.0@, e.1.0),
    decreases s.len(),
{
    lemma_name_map_get(s, e.0@);
    if s.len() == 0 {
        assert(s.push(e).drop_first() =~= s);
        assert(name_entries_map(s.push(e)) =~= name_entries_map(s).insert(e.0@, e.1.0));
    } else {
        assert(s[0].0@ != e.0@);
        if name_entries_map(s.drop_first()).dom().contains(e.0@) {
            lemma_name_map_get(s.drop_first(), e.0@);
            assert(false);
        }
        lemma_name_map_push(s.drop_first(), e);
        assert(s.push(e).drop_first() =~= s.drop_first().push(e));
        assert(s.push(e)[0] == s[0]);
        assert(name_entries_map(s.push(e)) =~= name_entries_map(s).insert(e.0@, e.1.0));
    }
}

/// A store of named variables, keyed by normalized name.
pub struct NameMap {
    entries: Vec<(String, FloatBits)>,
}

impl View for NameMap {
    type V = Map<Seq<char>, u32>;

    closed spec fn view(&self) -> Map<Seq<char>, u32> {
        name_entries_map(self.entries@)
    }
}

impl NameMap {
    /// The empty store.
    pub fn new() -> (r: Self)
        ensures
            r@ == Map::<Seq<char>, u32>::empty(),
    {
        NameMap { entries: Vec::new() }
    }

    /// Read one variable.
    pub fn get(&self, name: &String) -> (r: Option<FloatBits>)
        ensures
            match r {
                Some(b) => self@.dom().contains(name@) && self@[name@] == b.0,
                None => !self@.dom().contains(name@),
            },
    {
        let mut i: usize = 0;
        while i < self.entries.len()
            invariant
                i <= self.entries@.len(),
                forall|j: int| 0 <= j < i ==> (#[trigger] self.entries@[j]).0@ != name@,
            decreases self.entries@.len() - i,
        {
            proof {
                lemma_name_map_get(self.entries@, name@);
            }
            if self.entries[i].0.eq(name) {
                return Some(self.entries[i].1);
            }
            i += 1;
        }
        proof {
            lemma_name_map_get(self.entries@, name@);
        }
        None
    }

    /// Whether a name is bound.
    pub fn contains(&self, name: &String) -> (r: bool)
        ensures
            r == self@.dom().contains(name@),
    {
        self.get(name).is_some()
    }

    /// Bind one variable, replacing any earlier binding.
    pub fn set(&mut self, name: String, v: FloatBits)
        ensures
            final(self)@ == old(self)@.insert(name@, v.0),
    {
        let ghost s0 = self.entries@;
        proof {
            lemma_name_map_get(s0, name@);
        }
        let mut i: usize = 0;
        while i < self.entries.len()
            invariant
                i <= self.entries@.len(),
                self.entries@ == s0,
                s0 == old(self).entries@,
                forall|j: int| 0 <= j < i ==> (#[trigger] self.entries@[j]).0@ != name@,
            decreases self.entries@.len() - i,
        {
            if self.entries[i].0.eq(&name) {
                let ghost nv = name@;
                self.entries.set(i, (name, v));
                proof {
                    lemma_name_map_update(s0, self.entries@, i as int, nv, v);
                }
                return ;
            }
            i += 1;
        }
        proof {
            lemma_name_map_push(s0, (name, v));
        }
        self.entries.push((name, v));
    }
}

} // verus!
