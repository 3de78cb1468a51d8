//! The persisted run-on-startup policy: a map from store key to boolean.
//! Node policies live under the key `<name>_run_on_startup`; the caller
//! persists the whole map as the application's key-value store.

use vstd::prelude::*;

use crate::address::views_of;
use crate::strutil::str_eq;
use crate::strutil::str_ends_with;

verus! {

use vstd::string::StringExecFns;
use vstd::string::StrSliceExecFns;

/// The key suffix marking a per-node startup policy.
pub open spec fn startup_suffix() -> Seq<char> {
    "_run_on_startup"@
}

/// A key of the form `<name>_run_on_startup`.
pub open spec fn is_startup_key(s: Seq<char>) -> bool {
    s.len() >= startup_suffix().len() && s.skip(s.len() - startup_suffix().len())
        == startup_suffix()
}

/// The node name inside a startup key.
pub open spec fn startup_key_name(s: Seq<char>) -> Seq<char> {
    s.take(s.len() - startup_suffix().len())
}

/// First value stored under `key`, scanning entries in order.
pub open spec fn seq_lookup(s: Seq<(String, bool)>, key: Seq<char>) -> Option<bool>
    decreases s.len(),
{
    if s.len() == 0 {
        None
    } else if s[0].0@ == key {
        Some(s[0].1)
    } else {
        seq_lookup(s.skip(1), key)
    }
}

/// The names whose startup policy is stored as true, in entry order.
pub open spec fn autostart_spec(s: Seq<(String, bool)>) -> Seq<Seq<char>>
    decreases s.len(),
{
    if s.len() == 0 {
        Seq::empty()
    } else {
        let rest = autostart_spec(s.skip(1));
        if is_startup_key(s[0].0@) && s[0].1 {
            seq![startup_key_name(s[0].0@)] + rest
        } else {
            rest
        }
    }
}

/// The in-memory policy map; the caller persists it on every change.
pub struct PolicyStore {
    entries: Vec<(String, bool)>,
}

impl PolicyStore {
    /// The stored entries, in insertion order.
    pub closed spec fn entries_seq(&self) -> Seq<(String, bool)> {
        self.entries@
    }

    /// Keys are unique, so a lookup has one answer.
    pub open spec fn wf(&self) -> bool {
        forall|i: int, j: int|
            0 <= i < j < self.entries_seq().len() ==> self.entries_seq()[i].0@
                != self.entries_seq()[j].0@
    }

    /// The value stored under `key`.
    pub open spec fn lookup(&self, key: Seq<char>) -> Option<bool> {
        seq_lookup(self.entries_seq(), key)
    }

    /// An empty store.
    pub fn new() -> (r: Self)
        ensures
            r.wf(),
            r.entries_seq() == Seq::<(String, bool)>::empty(),
    {
        PolicyStore { entries: Vec::new() }
    }

    /// Reads one key.
    pub fn get(&self, key: &str) -> (r: Option<bool>)
        ensures
            r == self.lookup(key@),
    {
        let n = self.entries.len();
        let ghost es = self.entries@;
        let mut i: usize = 0;
        proof {
            assert(es.skip(0) =~= es);
        }
        while i < n
            invariant
                n == self.entries.len(),
                i <= n,
                es == self.entries@,
                seq_lookup(es, key@) == seq_lookup(es.skip(i as int), key@),
            decreases n - i,
        {
            proof {
                assert(es.skip(i as int)[0] == es[i as int]);
                assert(es.skip(i as int).skip(1) =~= es.skip(i + 1));
            }
            if str_eq(self.entries[i].0.as_str(), key) {
                return Some(self.entries[i].1);
            }
            i = i + 1;
        }
        proof {
            assert(es.skip(n as int) =~= Seq::<(String, bool)>::empty());
        }
        None
    }

    /// Stores `value` under `key`, replacing any earlier entry.
    pub fn insert(&mut self, key: String, value: bool)
        requires
            old(self).wf(),
        ensures
            final(self).wf(),
            final(self).lookup(key@) == Some(value),
            forall|k: Seq<char>|
                k != key@ ==> final(self).lookup(k) == old(self).lookup(k),
    {
        let n = self.entries.len();
        let ghost es = self.entries@;
        let mut i: usize = 0;
        while i < n
            invariant
                n == self.entries.len(),
                i <= n,
                es == self.entries@,
                es == old(self).entries_seq(),
                forall|j1: int, j2: int|
                    0 <= j1 < j2 < es.len() ==> es[j1].0@ != es[j2].0@,
                forall|j: int| 0 <= j < i ==> es[j].0@ != key@,
            decreases n - i,
        {
            if str_eq(self.entries[i].0.as_str(), key.as_str()) {
                self.entries.remove(i);
                self.entries.insert(i, (key, value));
                proof {
                    assert(self.entries@[i as int].0@ == key@);
                    assert(self.entries@[i as int].1 == value);
                    lemma_lookup_update(es, self.entries@, i as int, key@, value);
                }
                return;
            }
            i = i + 1;
        }
        let ghost before = self.entries@;
        self.entries.push((key, value));
        proof {
            let e = self.entries@.last();
            assert(self.entries@ =~= before.push(e));
            lemma_lookup_push_one(before, e);
        }
    }

    /// Removes the entry stored under `key`, if any.
    pub fn remove(&mut self, key: &str)
        requires
            old(self).wf(),
        ensures
            final(self).wf(),
            final(self).lookup(key@) is None,
            forall|k: Seq<char>|
                k != key@ ==> final(self).lookup(k) == old(self).lookup(k),
    {
        let n = self.entries.len();
        let ghost es = self.entries@;
        let mut i: usize = 0;
        while i < n
            invariant
                n == self.entries.len(),
                i <= n,
                es == self.entries@,
                es == old(self).entries_seq(),
                forall|j1: int, j2: int|
                    0 <= j1 < j2 < es.len() ==> es[j1].0@ != es[j2].0@,
                forall|j: int| 0 <= j < i ==> es[j].0@ != key@,
            decreases n - i,
        {
            if str_eq(self.entries[i].0.as_str(), key) {
                self.entries.remove(i);
                proof {
                    lemma_lookup_remove(es, self.entries@, i as int, key@);
                }
                return;
            }
            i = i + 1;
        }
        proof {
            lemma_lookup_absent(es, key@);
        }
    }

    /// All stored keys, in entry order.
    pub fn keys(&self) -> (r: Vec<String>)
        ensures
            views_of(r@) == self.entries_seq().map_values(|e: (String, bool)| e.0@),
    {
        let n = self.entries.len();
        let mut r: Vec<String> = Vec::new();
        let mut i: usize = 0;
        while i < n
            invariant
                n == self.entries.len(),
                i <= n,
                views_of(r@) =~= self.entries@.map_values(|e: (String, bool)| e.0@)
                    .take(i as int),
            decreases n - i,
        {
            let k = self.entries[i].0.clone();
            let ghost before = r@;
            r.push(k);
            proof {
                assert(views_of(r@) =~= views_of(before) + seq![
                    self.entries@[i as int].0@,
                ]);
                assert(views_of(r@) =~= self.entries@.map_values(
                    |e: (String, bool)| e.0@,
                ).take(i + 1));
            }
            i = i + 1;
        }
        proof {
            assert(self.entries@.map_values(|e: (String, bool)| e.0@).take(n as int)
                =~= self.entries@.map_values(|e: (String, bool)| e.0@));
        }
        r
    }

    /// The names whose policy asks for a start at application launch.
    pub fn autostart_names(&self) -> (r: Vec<String>)
        ensures
            views_of(r@) == autostart_spec(self.entries_seq()),
    {
        let n = self.entries.len();
        let ghost es = self.entries@;
        let mut r: Vec<String> = Vec::new();
        let mut i: usize = 0;
        proof {
            assert(es.skip(0) =~= es);
            assert(views_of(r@) =~= Seq::<Seq<char>>::empty());
            assert(views_of(r@) + autostart_spec(es) =~= autostart_spec(es));
        }
        while i < n
            invariant
                n == self.entries.len(),
                i <= n,
                es == self.entries@,
                autostart_spec(es) == views_of(r@) + autostart_spec(es.skip(i as int)),
            decreases n - i,
        {
            proof {
                assert(es.skip(i as int)[0] == es[i as int]);
                assert(es.skip(i as int).skip(1) =~= es.skip(i + 1));
            }
            let key = &self.entries[i].0;
            let suffix_len = "_run_on_startup".unicode_len();
            let klen = key.as_str().unicode_len();
            if str_ends_with(key.as_str(), "_run_on_startup") && self.entries[i].1 {
                let name = key.as_str().substring_char(0, klen - suffix_len).to_owned();
                let ghost before = r@;
                r.push(name);
                proof {
                    assert(name@ =~= startup_key_name(es[i as int].0@));
                    assert(views_of(r@) =~= views_of(before) + seq![name@]);
                    assert(views_of(r@) + autostart_spec(es.skip(i + 1))
                        =~= views_of(before) + autostart_spec(es.skip(i as int)));
                }
            }
            i = i + 1;
        }
        proof {
            assert(es.skip(n as int) =~= Seq::<(String, bool)>::empty());
            assert(views_of(r@) =~= autostart_spec(es));
        }
        r
    }
}

proof fn lemma_lookup_update(
    before: Seq<(String, bool)>,
    after: Seq<(String, bool)>,
    i: int,
    key: Seq<char>,
    value: bool,
)
    requires
        0 <= i < before.len(),
        after.len() == before.len(),
        after[i].0@ == key && after[i].1 == value,
        forall|j: int| 0 <= j < before.len() && j != i ==> after[j] == before[j],
        before[i].0@ == key,
        forall|j: int| 0 <= j < i ==> before[j].0@ != key,
        forall|j1: int, j2: int|
            0 <= j1 < j2 < before.len() ==> before[j1].0@ != before[j2].0@,
    ensures
        seq_lookup(after, key) == Some(value),
        forall|k: Seq<char>| k != key ==> seq_lookup(after, k) == seq_lookup(before, k),
        forall|j1: int, j2: int|
            0 <= j1 < j2 < after.len() ==> after[j1].0@ != after[j2].0@,
    decreases i,
{
    assert forall|j1: int, j2: int|
        0 <= j1 < j2 < after.len() implies after[j1].0@ != after[j2].0@ by {
        assert(after[j1].0@ == before[j1].0@);
        assert(after[j2].0@ == before[j2].0@);
    }
    if i == 0 {
        assert(seq_lookup(after, key) == Some(value));
        assert forall|k: Seq<char>| k != key implies seq_lookup(after, k) == seq_lookup(
            before,
            k,
        ) by {
            assert(after[0].0@ != k);
            assert(before[0].0@ != k);
            assert(after.skip(1) =~= before.skip(1));
            assert(seq_lookup(after, k) == seq_lookup(after.skip(1), k));
            assert(seq_lookup(before, k) == seq_lookup(before.skip(1), k));
        }
    } else {
        assert(forall|j: int|
            0 <= j < before.len() - 1 && j != i - 1 ==> after.skip(1)[j] == before.skip(
                1,
            )[j]);
        assert(before.skip(1)[i - 1] == before[i]);
        assert(after.skip(1)[i - 1] == after[i]);
        assert(forall|j1: int, j2: int|
            0 <= j1 < j2 < before.len() - 1 ==> before.skip(1)[j1].0@ != before.skip(
                1,
            )[j2].0@);
        assert(forall|j: int| 0 <= j < i - 1 ==> before.skip(1)[j].0@ != key);
        lemma_lookup_update(before.skip(1), after.skip(1), i - 1, key, value);
        assert(after[0] == before[0]);
        assert(before[0].0@ != key);
        assert(seq_lookup(after, key) == seq_lookup(after.skip(1), key));
        assert forall|k: Seq<char>| k != key implies seq_lookup(after, k) == seq_lookup(
            before,
            k,
        ) by {
            if after[0].0@ == k {
                assert(seq_lookup(after, k) == Some(after[0].1));
                assert(seq_lookup(before, k) == Some(before[0].1));
            } else {
                assert(seq_lookup(after, k) == seq_lookup(after.skip(1), k));
                assert(seq_lookup(before, k) == seq_lookup(before.skip(1), k));
            }
        }
    }
}

proof fn lemma_lookup_push_one(before: Seq<(String, bool)>, e: (String, bool))
    requires
        forall|j: int| 0 <= j < before.len() ==> before[j].0@ != e.0@,
    ensures
        seq_lookup(before.push(e), e.0@) == Some(e.1),
        forall|k: Seq<char>|
            k != e.0@ ==> seq_lookup(before.push(e), k) == seq_lookup(before, k),
        forall|j1: int, j2: int|
            0 <= j1 < j2 < before.len() ==> before[j1].0@ != before[j2].0@
                ==> true,
    decreases before.len(),
{
    let s = before.push(e);
    if before.len() == 0 {
        assert(s[0] == e);
        assert(seq_lookup(s, e.0@) == Some(e.1));
        assert forall|k: Seq<char>| k != e.0@ implies seq_lookup(s, k) == seq_lookup(
            before,
            k,
        ) by {
            assert(s[0].0@ != k);
            assert(s.skip(1) =~= Seq::<(String, bool)>::empty());
            assert(seq_lookup(s, k) == seq_lookup(s.skip(1), k));
            assert(seq_lookup(s.skip(1), k) is None);
            assert(seq_lookup(before, k) is None);
        }
    } else {
        assert(s[0] == before[0]);
        assert(s.skip(1) =~= before.skip(1).push(e));
        assert(forall|j: int|
            0 <= j < before.len() - 1 ==> before.skip(1)[j] == before[j + 1]);
        lemma_lookup_push_one(before.skip(1), e);
        assert(s[0].0@ != e.0@);
        assert(seq_lookup(s, e.0@) == seq_lookup(s.skip(1), e.0@));
        assert forall|k: Seq<char>| k != e.0@ implies seq_lookup(s, k) == seq_lookup(
            before,
            k,
        ) by {
            if s[0].0@ == k {
                assert(seq_lookup(s, k) == Some(s[0].1));
                assert(seq_lookup(before, k) == Some(before[0].1));
            } else {
                assert(seq_lookup(s, k) == seq_lookup(s.skip(1), k));
                assert(seq_lookup(before, k) == seq_lookup(before.skip(1), k));
            }
        }
    }
}

proof fn lemma_lookup_remove(
    before: Seq<(String, bool)>,
    after: Seq<(String, bool)>,
    i: int,
    key: Seq<char>,
)
    requires
        0 <= i < before.len(),
        after == before.remove(i),
        before[i].0@ == key,
        forall|j: int| 0 <= j < i ==> before[j].0@ != key,
        forall|j1: int, j2: int|
            0 <= j1 < j2 < before.len() ==> before[j1].0@ != before[j2].0@,
    ensures
        seq_lookup(after, key) is None,
        forall|k: Seq<char>| k != key ==> seq_lookup(after, k) == seq_lookup(before, k),
        forall|j1: int, j2: int|
            0 <= j1 < j2 < after.len() ==> after[j1].0@ != after[j2].0@,
    decreases i,
{
    assert forall|j1: int, j2: int|
        0 <= j1 < j2 < after.len() implies after[j1].0@ != after[j2].0@ by {
        if j2 < i {
            assert(after[j1] == before[j1] && after[j2] == before[j2]);
        } else if j1 < i {
            assert(after[j1] == before[j1] && after[j2] == before[j2 + 1]);
        } else {
            assert(after[j1] == before[j1 + 1] && after[j2] == before[j2 + 1]);
        }
    }
    if i == 0 {
        assert(after =~= before.skip(1));
        assert forall|j: int| 0 <= j < after.len() implies after[j].0@ != key by {
            assert(after[j] == before[j + 1]);
        }
        lemma_lookup_absent(after, key);
        assert forall|k: Seq<char>| k != key implies seq_lookup(after, k) == seq_lookup(
            before,
            k,
        ) by {
            assert(before[0].0@ == key);
            assert(before[0].0@ != k);
            assert(seq_lookup(before, k) == seq_lookup(before.skip(1), k));
        }
    } else {
        assert(after[0] == before[0]);
        assert(after.skip(1) =~= before.skip(1).remove(i - 1));
        assert(forall|j: int|
            0 <= j < before.len() - 1 ==> before.skip(1)[j] == before[j + 1]);
        assert(forall|j1: int, j2: int|
            0 <= j1 < j2 < before.len() - 1 ==> before.skip(1)[j1].0@ != before.skip(
                1,
            )[j2].0@);
        assert(forall|j: int| 0 <= j < i - 1 ==> before.skip(1)[j].0@ != key);
        lemma_lookup_remove(before.skip(1), after.skip(1), i - 1, key);
        assert(before[0].0@ != key);
        assert(after[0].0@ != key);
        assert(seq_lookup(after, key) == seq_lookup(after.skip(1), key));
        assert forall|k: Seq<char>| k != key implies seq_lookup(after, k) == seq_lookup(
            before,
            k,
        ) by {
            if after[0].0@ == k {
                assert(seq_lookup(after, k) == Some(after[0].1));
                assert(seq_lookup(before, k) == Some(before[0].1));
            } else {
                assert(seq_lookup(after, k) == seq_lookup(after.skip(1), k));
                assert(seq_lookup(before, k) == seq_lookup(before.skip(1), k));
            }
        }
    }
}

proof fn lemma_lookup_absent(s: Seq<(String, bool)>, key: Seq<char>)
    requires
        forall|j: int| 0 <= j < s.len() ==> s[j].0@ != key,
    ensures
        seq_lookup(s, key) is None,
    decreases s.len(),
{
    if s.len() > 0 {
        assert(forall|j: int| 0 <= j < s.len() - 1 ==> s.skip(1)[j] == s[j + 1]);
        lemma_lookup_absent(s.skip(1), key);
    }
}

/// The store key holding one node's startup policy.
pub fn policy_key(node_name: &str) -> (r: String)
    ensures
        r@ == node_name@ + startup_suffix(),
{
    String::from_str(node_name).concat("_run_on_startup")
}

/// Persists the startup policy for one node.
pub fn update_run_node_on_startup(store: &mut PolicyStore, node_name: &str, value: bool)
    requires
        old(store).wf(),
    ensures
        final(store).wf(),
        final(store).lookup(node_name@ + startup_suffix()) == Some(value),
        forall|k: Seq<char>|
            k != node_name@ + startup_suffix() ==> final(store).lookup(k) == old(
                store,
            ).lookup(k),
{
    let key = policy_key(node_name);
    store.insert(key, value);
}

/// Reads the startup policy for one node; an absent entry reads as false.
pub fn get_run_node_on_startup(store: &PolicyStore, node_name: &str) -> (r: bool)
    ensures
        r == (store.lookup(node_name@ + startup_suffix()) == Some(true)),
{
    let key = policy_key(node_name);
    match store.get(key.as_str()) {
        Some(v) => v,
        None => false,
    }
}

} // verus!
