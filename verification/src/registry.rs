//! Shortcut Registry: the process-wide table mapping a normalized shortcut
//! spelling to the name of the command it triggers.
//!
//! The table is rebuilt from scratch every run and mutated only through the
//! registration calls; keys stay unique, and a later registration of the same
//! key overwrites the earlier command (last write wins).  Dispatch reads the
//! table, never the OS facility's own bookkeeping.

use vstd::prelude::*;
use crate::normalize::norm_spec;
use crate::normalize::normalize;

verus! {

/// Key/command pairs as sequences of characters.
pub type EntryView = (Seq<char>, Seq<char>);

/// The views of a vector of key/command pairs.
pub open spec fn pairs_view(ps: Seq<(String, String)>) -> Seq<EntryView> {
    ps.map_values(|p: (String, String)| (p.0@, p.1@))
}

/// No two entries share a key.
pub open spec fn unique_keys(es: Seq<EntryView>) -> bool {
    forall|i: int, j: int| 0 <= i < j < es.len() ==> (#[trigger] es[i]).0 != (#[trigger] es[j]).0
}

/// The map an entry sequence denotes; on duplicate keys the later entry
/// would win, though the registry never holds duplicates.
pub open spec fn map_of(es: Seq<EntryView>) -> Map<Seq<char>, Seq<char>>
    decreases es.len(),
{
    if es.len() == 0 {
        Map::<Seq<char>, Seq<char>>::empty()
    } else {
        map_of(es.drop_last()).insert(es.last().0, es.last().1)
    }
}

/// A key is in the map exactly when some entry carries it.
pub proof fn lemma_map_of_contains(es: Seq<EntryView>, k: Seq<char>)
    ensures
        map_of(es).contains_key(k) <==> exists|i: int| 0 <= i < es.len() && (#[trigger] es[i]).0
            == k,
    decreases es.len(),
{
    if es.len() > 0 {
        lemma_map_of_contains(es.drop_last(), k);
        if es.last().0 == k {
            assert(es[es.len() - 1].0 == k);
        } else if map_of(es).contains_key(k) {
            let dl = es.drop_last();
            let i = choose|i: int| 0 <= i < dl.len() && (#[trigger] dl[i]).0 == k;
            assert(es[i].0 == k);
        } else {
            assert forall|i: int| 0 <= i < es.len() implies (#[trigger] es[i]).0 != k by {
                if i < es.len() - 1 {
                    assert(es.drop_last()[i] == es[i]);
                }
            }
        }
    }
}

/// With unique keys, the map sends each entry's key to that entry's command.
pub proof fn lemma_map_of_value(es: Seq<EntryView>, i: int)
    requires
        unique_keys(es),
        0 <= i < es.len(),
    ensures
        map_of(es).contains_key(es[i].0),
        map_of(es)[es[i].0] == es[i].1,
    decreases es.len(),
{
    if i == es.len() - 1 {
    } else {
        assert(unique_keys(es.drop_last())) by {
            assert(forall|x: int|
                0 <= x < es.drop_last().len() ==> #[trigger] es.drop_last()[x] == es[x]);
        }
        assert(es.drop_last()[i] == es[i]);
        lemma_map_of_value(es.drop_last(), i);
        assert(es.last().0 != es[i].0);
    }
}

proof fn lemma_unique_drop_last(es: Seq<EntryView>)
    requires
        unique_keys(es),
        es.len() > 0,
    ensures
        unique_keys(es.drop_last()),
        !map_of(es.drop_last()).contains_key(es.last().0),
{
    assert(forall|x: int| 0 <= x < es.drop_last().len() ==> #[trigger] es.drop_last()[x] == es[x]);
    lemma_map_of_contains(es.drop_last(), es.last().0);
    if map_of(es.drop_last()).contains_key(es.last().0) {
        let dl = es.drop_last();
        let i = choose|i: int| 0 <= i < dl.len() && (#[trigger] dl[i]).0 == es.last().0;
        assert(es[i].0 == es[es.len() - 1].0);
    }
}

/// Overwriting the command stored at one entry inserts into the map.
proof fn lemma_map_of_update(es: Seq<EntryView>, i: int, v: Seq<char>)
    requires
        unique_keys(es),
        0 <= i < es.len(),
    ensures
        map_of(es.update(i, (es[i].0, v))) =~= map_of(es).insert(es[i].0, v),
    decreases es.len(),
{
    let k = es[i].0;
    let u = es.update(i, (k, v));
    lemma_unique_drop_last(es);
    if i == es.len() - 1 {
        assert(u.drop_last() =~= es.drop_last());
        assert(u.last() == (k, v));
    } else {
        assert(u.drop_last() =~= es.drop_last().update(i, (k, v)));
        assert(u.last() == es.last());
        assert(es.drop_last()[i] == es[i]);
        lemma_map_of_update(es.drop_last(), i, v);
        assert(es.last().0 != k);
    }
}

/// Removing one entry removes its key from the map.
proof fn lemma_map_of_remove(es: Seq<EntryView>, i: int)
    requires
        unique_keys(es),
        0 <= i < es.len(),
    ensures
        map_of(es.remove(i)) =~= map_of(es).remove(es[i].0),
    decreases es.len(),
{
    let k = es[i].0;
    let r = es.remove(i);
    lemma_unique_drop_last(es);
    if i == es.len() - 1 {
        assert(r =~= es.drop_last());
        vstd::set_lib::lemma_set_empty_equivalency_len(Set::<Seq<char>>::empty());
        assert(map_of(es).remove(k) =~= map_of(es.drop_last()));
    } else {
        assert(r.drop_last() =~= es.drop_last().remove(i));
        assert(r.last() == es.last());
        assert(es.drop_last()[i] == es[i]);
        lemma_map_of_remove(es.drop_last(), i);
        assert(es.last().0 != k);
    }
}

/// The in-memory table from a normalized shortcut to a command name.
pub struct ShortcutRegistry {
    entries: Vec<(String, String)>,
}

impl ShortcutRegistry {
    /// The entries, in iteration order.
    pub closed spec fn entries_view(&self) -> Seq<EntryView> {
        pairs_view(self.entries@)
    }

    /// The table as a map from key to command.
    pub open spec fn as_map(&self) -> Map<Seq<char>, Seq<char>> {
        map_of(self.entries_view())
    }

    /// The registry never holds two entries for one key.
    pub open spec fn wf(&self) -> bool {
        unique_keys(self.entries_view())
    }

    /// An empty registry; the process starts with one.
    pub fn new() -> (r: ShortcutRegistry)
        ensures
            r.wf(),
            r.as_map() == Map::<Seq<char>, Seq<char>>::empty(),
            r.entries_view() == Seq::<EntryView>::empty(),
    {
        let r = ShortcutRegistry { entries: Vec::new() };
        proof {
            assert(r.entries_view() =~= Seq::<EntryView>::empty());
        }
        r
    }

    /// How many shortcuts are registered.
    pub fn len(&self) -> (n: usize)
        ensures
            n == self.entries_view().len(),
    {
        self.entries.len()
    }

    /// The index holding a key, if any.
    fn find_index(&self, key: &String) -> (r: Option<usize>)
        ensures
            match r {
                Some(i) => 0 <= i < self.entries_view().len() && self.entries_view()[i as int].0
                    == key@,
                None => forall|i: int|
                    0 <= i < self.entries_view().len() ==> (#[trigger] self.entries_view()[i]).0
                        != key@,
            },
    {
        let mut i: usize = 0;
        while i < self.entries.len()
            invariant
                0 <= i <= self.entries_view().len(),
                forall|j: int| 0 <= j < i ==> (#[trigger] self.entries_view()[j]).0 != key@,
            decreases self.entries_view().len() - i,
        {
            if self.entries[i].0.eq(key) {
                return Some(i);
            }
            i = i + 1;
        }
        None
    }

    /// The command a key maps to, if any.
    pub fn get<'a>(&'a self, key: &String) -> (r: Option<&'a String>)
        requires
            self.wf(),
        ensures
            match r {
                Some(v) => self.as_map().contains_key(key@) && v@ == self.as_map()[key@],
                None => !self.as_map().contains_key(key@),
            },
    {
        proof {
            lemma_map_of_contains(self.entries_view(), key@);
        }
        match self.find_index(key) {
            Some(i) => {
                proof {
                    lemma_map_of_value(self.entries_view(), i as int);
                }
                Some(&self.entries[i].1)
            },
            None => None,
        }
    }

    /// Whether a key is registered.
    pub fn contains_key(&self, key: &String) -> (r: bool)
        requires
            self.wf(),
        ensures
            r == self.as_map().contains_key(key@),
    {
        match self.get(key) {
            Some(_) => true,
            None => false,
        }
    }

    /// Map a key to a command, overwriting any command it was mapped to.
    pub fn insert(&mut self, key: String, value: String)
        requires
            old(self).wf(),
        ensures
            final(self).wf(),
            final(self).as_map() == old(self).as_map().insert(key@, value@),
    {
        let ghost es = self.entries_view();
        match self.find_index(&key) {
            Some(i) => {
                self.entries.remove(i);
                self.entries.insert(i, (key, value));
                proof {
                    assert(self.entries_view() =~= es.update(i as int, (key@, value@)));
                    lemma_map_of_update(es, i as int, value@);
                    assert(unique_keys(self.entries_view()));
                    assert(self.as_map() =~= old(self).as_map().insert(key@, value@));
                }
            },
            None => {
                self.entries.push((key, value));
                proof {
                    assert(self.entries_view() =~= es.push((key@, value@)));
                    assert(self.entries_view().drop_last() =~= es);
                    assert(unique_keys(self.entries_view()));
                    assert(self.as_map() =~= old(self).as_map().insert(key@, value@));
                }
            },
        }
    }

    /// Drop a key and the command it maps to; absent keys are tolerated.
    pub fn remove(&mut self, key: &String)
        requires
            old(self).wf(),
        ensures
            final(self).wf(),
            final(self).as_map() == old(self).as_map().remove(key@),
    {
        let ghost es = self.entries_view();
        match self.find_index(key) {
            Some(i) => {
                self.entries.remove(i);
                proof {
                    assert(self.entries_view() =~= es.remove(i as int));
                    lemma_map_of_remove(es, i as int);
                    assert forall|x: int, y: int|
                        0 <= x < y < self.entries_view().len() implies (
                    #[trigger] self.entries_view()[x]).0 != (#[trigger] self.entries_view()[y]).0
                        by {
                        assert(self.entries_view()[x] == if x < i as int {
                            es[x]
                        } else {
                            es[x + 1]
                        });
                        assert(self.entries_view()[y] == if y < i as int {
                            es[y]
                        } else {
                            es[y + 1]
                        });
                    }
                }
            },
            None => {
                proof {
                    lemma_map_of_contains(es, key@);
                    assert(self.as_map() =~= old(self).as_map().remove(key@));
                }
            },
        }
    }

    /// A snapshot of the whole table, safe to hand out.
    pub fn get_registered_shortcuts(&self) -> (r: ShortcutRegistry)
        ensures
            r.entries_view() == self.entries_view(),
            r.as_map() == self.as_map(),
            r.wf() == self.wf(),
    {
        let entries = self.entries();
        let r = ShortcutRegistry { entries };
        proof {
            assert(r.entries_view() =~~= self.entries_view());
        }
        r
    }

    /// The key/command pairs, copied out in iteration order.
    pub fn entries(&self) -> (r: Vec<(String, String)>)
        ensures
            pairs_view(r@) == self.entries_view(),
    {
        let mut entries: Vec<(String, String)> = Vec::new();
        let mut i: usize = 0;
        while i < self.entries.len()
            invariant
                0 <= i <= self.entries_view().len(),
                pairs_view(entries@) =~~= self.entries_view().subrange(0, i as int),
            decreases self.entries_view().len() - i,
        {
            let ghost olde = entries@;
            let k = self.entries[i].0.clone();
            let v = self.entries[i].1.clone();
            proof {
                assert(k@ == self.entries_view()[i as int].0);
                assert(v@ == self.entries_view()[i as int].1);
            }
            entries.push((k, v));
            i = i + 1;
            proof {
                assert(entries@ =~= olde.push((k, v)));
                assert(entries@.len() == olde.len() + 1);
                assert(pairs_view(olde).len() == olde.len());
                assert(pairs_view(olde).len() == i - 1);
                assert(pairs_view(entries@).len() == entries@.len());
                assert(pairs_view(entries@).len() == i as int);
                assert forall|j: int| 0 <= j < i implies pairs_view(entries@)[j]
                    == self.entries_view().subrange(0, i as int)[j] by {
                    if j < i - 1 {
                        assert(entries@[j] == olde[j]);
                        assert(pairs_view(entries@)[j] == pairs_view(olde)[j]);
                        assert(pairs_view(olde)[j] == self.entries_view().subrange(0, i - 1)[j]);
                    } else {
                        assert(entries@[j] == (k, v));
                    }
                }
                assert(pairs_view(entries@) =~~= self.entries_view().subrange(0, i as int));
            }
        }
        proof {
            assert(self.entries_view().subrange(0, self.entries_view().len() as int)
                =~= self.entries_view());
            assert(pairs_view(entries@) =~~= self.entries_view());
        }
        entries
    }
}

/// The command of the first entry whose key normalizes to the target, if
/// any: the equivalence-based lookup used when exact lookup fails, for
/// spellings that differ between registration time and press time.
pub open spec fn fuzzy_find(es: Seq<EntryView>, target: Seq<char>) -> Option<Seq<char>>
    decreases es.len(),
{
    if es.len() == 0 {
        Option::<Seq<char>>::None
    } else if norm_spec(es[0].0) == target {
        Some(es[0].1)
    } else {
        fuzzy_find(es.drop_first(), target)
    }
}

impl ShortcutRegistry {
    /// Find a command by shortcut equivalence: the first entry whose key
    /// normalizes to the (already normalized) target.
    pub fn find_fuzzy<'a>(&'a self, target: &String) -> (r: Option<&'a String>)
        ensures
            match r {
                Some(v) => fuzzy_find(self.entries_view(), target@) == Some(v@),
                None => fuzzy_find(self.entries_view(), target@) is None,
            },
    {
        let ghost whole = self.entries_view();
        let mut i: usize = 0;
        proof {
            assert(whole.skip(0) =~= whole);
        }
        while i < self.entries.len()
            invariant
                0 <= i <= whole.len(),
                whole == self.entries_view(),
                fuzzy_find(whole, target@) == fuzzy_find(whole.skip(i as int), target@),
            decreases whole.len() - i,
        {
            proof {
                assert(whole.skip(i as int)[0] == whole[i as int]);
                assert(whole.skip(i as int).drop_first() =~= whole.skip(i as int + 1));
            }
            let nk = crate::normalize::normalize(self.entries[i].0.as_str());
            if nk.eq(target) {
                return Some(&self.entries[i].1);
            }
            i = i + 1;
        }
        proof {
            assert(whole.skip(whole.len() as int) =~= Seq::<EntryView>::empty());
        }
        None
    }
}

/// Remember a binding without touching the OS facility: used when a
/// shortcut's OS registration is owned by another subsystem (the
/// text-selection trigger) but dispatch still needs the command mapping.
pub fn register_shortcut_command(registry: &mut ShortcutRegistry, shortcut: String, command: String)
    requires
        old(registry).wf(),
    ensures
        final(registry).wf(),
        final(registry).as_map() == old(registry).as_map().insert(norm_spec(shortcut@), command@),
{
    let key = normalize(shortcut.as_str());
    registry.insert(key, command);
}

} // verus!
