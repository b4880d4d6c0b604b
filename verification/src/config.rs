//! Configuration values as a small verified string map, the merge rule
//! for local overrides, and version detection from a start script.

use vstd::prelude::*;
use crate::models::ZebrasVersion;
use crate::shims;
use crate::text;

verus! {

/// The mathematical contents of an entry list: later entries override
/// earlier ones with the same key.
pub open spec fn entries_map(s: Seq<(String, String)>) -> Map<Seq<char>, Seq<char>>
    decreases s.len(),
{
    if s.len() == 0 {
        Map::empty()
    } else {
        entries_map(s.drop_last()).insert(s.last().0@, s.last().1@)
    }
}

/// No two entries share a key.
pub open spec fn unique_keys(s: Seq<(String, String)>) -> bool {
    forall|i: int, j: int| 0 <= i < j < s.len() ==> (#[trigger] s[i]).0@ != (#[trigger] s[j]).0@
}

proof fn lemma_entries_map_domain(s: Seq<(String, String)>, k: Seq<char>)
    ensures
        entries_map(s).contains_key(k) <==> exists|i: int| 0 <= i < s.len() && (#[trigger] s[i]).0@
            == k,
    decreases s.len(),
{
    if s.len() > 0 {
        lemma_entries_map_domain(s.drop_last(), k);
        if s.last().0@ == k {
            assert(s[s.len() - 1].0@ == k);
        } else if entries_map(s).contains_key(k) {
            let i = choose|i: int| 0 <= i < s.len() - 1 && (#[trigger] s.drop_last()[i]).0@ == k;
            assert(s[i].0@ == k);
        } else {
            assert forall|i: int| 0 <= i < s.len() implies (#[trigger] s[i]).0@ != k by {
                if i < s.len() - 1 {
                    assert(s.drop_last()[i].0@ == s[i].0@);
                }
            }
        }
    }
}

proof fn lemma_entries_map_value(s: Seq<(String, String)>, i: int)
    requires
        unique_keys(s),
        0 <= i < s.len(),
    ensures
        entries_map(s).contains_key(s[i].0@),
        entries_map(s)[s[i].0@] == s[i].1@,
    decreases s.len(),
{
    if i == s.len() - 1 {
        assert(entries_map(s) == entries_map(s.drop_last()).insert(s.last().0@, s.last().1@));
    } else {
        assert(unique_keys(s.drop_last()));
        assert(s.drop_last()[i] == s[i]);
        lemma_entries_map_value(s.drop_last(), i);
        assert(s.last().0@ != s[i].0@);
    }
}

proof fn lemma_entries_map_update(s: Seq<(String, String)>, i: int, e: (String, String))
    requires
        unique_keys(s),
        0 <= i < s.len(),
        s[i].0@ == e.0@,
    ensures
        entries_map(s.update(i, e)) =~= entries_map(s).insert(e.0@, e.1@),
    decreases s.len(),
{
    let u = s.update(i, e);
    if i == s.len() - 1 {
        assert(u.drop_last() =~= s.drop_last());
        assert(u.last() == e);
    } else {
        assert(u.drop_last() =~= s.drop_last().update(i, e));
        assert(unique_keys(s.drop_last()));
        assert(s.drop_last()[i] == s[i]);
        lemma_entries_map_update(s.drop_last(), i, e);
        assert(u.last() == s.last());
        // the overridden key differs from the last entry's key, so the
        // two inserts commute
        assert(s.last().0@ != e.0@);
    }
}

/// A string-to-string map with insertion-order entries and unique keys;
/// stands in for a hash map so that its contents stay visible to proofs.
#[derive(Debug, Clone, PartialEq, Eq)]
pub struct ConfigMap {
    entries: Vec<(String, String)>,
}

impl ConfigMap {
    /// The entry list, for iteration.
    pub closed spec fn entries_seq(self) -> Seq<(String, String)> {
        self.entries@
    }

    /// The key-value contents.
    pub closed spec fn as_map(self) -> Map<Seq<char>, Seq<char>> {
        entries_map(self.entries@)
    }

    /// Well-formed: no two entries share a key.
    pub closed spec fn wf(self) -> bool {
        unique_keys(self.entries@)
    }

    /// An empty map.
    pub fn new() -> (r: ConfigMap)
        ensures
            r.wf(),
            r.as_map() == Map::<Seq<char>, Seq<char>>::empty(),
            r.entries_seq().len() == 0,
    {
        ConfigMap { entries: Vec::new() }
    }

    fn find_key(&self, key: &str) -> (r: Option<usize>)
        ensures
            match r {
                Some(i) => i < self.entries@.len() && self.entries@[i as int].0@ == key@,
                None => forall|i: int|
                    0 <= i < self.entries@.len() ==> (#[trigger] self.entries@[i]).0@ != key@,
            },
    {
        let n = self.entries.len();
        let mut i: usize = 0;
        while i < n
            invariant
                i <= n,
                n == self.entries@.len(),
                forall|j: int| 0 <= j < i ==> (#[trigger] self.entries@[j]).0@ != key@,
            decreases n - i,
        {
            if text::str_eq(self.entries[i].0.as_str(), key) {
                return Some(i);
            }
            i = i + 1;
        }
        None
    }

    /// Looks a key up.
    pub fn get(&self, key: &str) -> (r: Option<&String>)
        requires
            self.wf(),
        ensures
            match r {
                Some(v) => self.as_map().contains_key(key@) && v@ == self.as_map()[key@],
                None => !self.as_map().contains_key(key@),
            },
    {
        match self.find_key(key) {
            Some(i) => {
                proof {
                    lemma_entries_map_value(self.entries@, i as int);
                }
                Some(&self.entries[i].1)
            },
            None => {
                proof {
                    lemma_entries_map_domain(self.entries@, key@);
                    if entries_map(self.entries@).contains_key(key@) {
                        let i = choose|i: int|
                            0 <= i < self.entries@.len() && (#[trigger] self.entries@[i]).0@
                                == key@;
                        assert(false);
                    }
                }
                None
            },
        }
    }

    /// Inserts or overrides one key.
    pub fn insert(&mut self, key: String, value: String)
        requires
            old(self).wf(),
        ensures
            final(self).wf(),
            final(self).as_map() == old(self).as_map().insert(key@, value@),
    {
        match self.find_key(key.as_str()) {
            Some(i) => {
                proof {
                    lemma_entries_map_update(self.entries@, i as int, (key, value));
                }
                let ghost before = self.entries@;
                self.entries.set(i, (key, value));
                proof {
                    assert forall|x: int, y: int|
                        0 <= x < y < self.entries@.len() implies (#[trigger] self.entries@[x]).0@
                        != (#[trigger] self.entries@[y]).0@ by {
                        assert(before[x].0@ != before[y].0@);
                        assert(before[i as int].0@ == key@);
                    }
                }
            },
            None => {
                let ghost before = self.entries@;
                self.entries.push((key, value));
                proof {
                    assert(self.entries@.drop_last() =~= before);
                    assert(self.entries@.last().0@ == key@);
                    assert(self.entries@.last().1@ == value@);
                    assert forall|x: int, y: int|
                        0 <= x < y < self.entries@.len() implies (#[trigger] self.entries@[x]).0@
                        != (#[trigger] self.entries@[y]).0@ by {
                        if y < self.entries@.len() - 1 {
                            assert(self.entries@[x] == before[x]);
                            assert(self.entries@[y] == before[y]);
                            assert(before[x].0@ != before[y].0@);
                        } else {
                            assert(self.entries@[x] == before[x]);
                            assert(before[x].0@ != key@);
                        }
                    }
                }
            },
        }
    }

    /// A copy with the same entries, contents and well-formedness.
    pub fn duplicate(&self) -> (r: ConfigMap)
        ensures
            r.entries_seq() == self.entries_seq(),
            r.as_map() == self.as_map(),
            r.wf() == self.wf(),
    {
        let n = self.entries.len();
        let mut v: Vec<(String, String)> = Vec::new();
        let mut i: usize = 0;
        while i < n
            invariant
                i <= n,
                n == self.entries@.len(),
                v@ == self.entries@.subrange(0, i as int),
            decreases n - i,
        {
            let key = self.entries[i].0.clone();
            let value = self.entries[i].1.clone();
            v.push((key, value));
            proof {
                assert(v@ =~= self.entries@.subrange(0, i + 1));
            }
            i = i + 1;
        }
        proof {
            assert(self.entries@.subrange(0, n as int) =~= self.entries@);
        }
        ConfigMap { entries: v }
    }

    /// The entry list, for callers that persist or display the map.
    pub fn entry_list(&self) -> (r: &Vec<(String, String)>)
        ensures
            r@ == self.entries_seq(),
    {
        &self.entries
    }
}

/// Merges two configurations: every key of `local` overrides the same
/// key of `main`; keys of only one side are kept.
pub fn merge_configs(main: &ConfigMap, local: &ConfigMap) -> (r: ConfigMap)
    requires
        main.wf(),
        local.wf(),
    ensures
        r.wf(),
        r.as_map() == main.as_map().union_prefer_right(local.as_map()),
{
    let mut r = ConfigMap::new();
    let main_entries = main.entry_list();
    let n = main_entries.len();
    let mut i: usize = 0;
    while i < n
        invariant
            i <= n,
            main_entries@ == main.entries_seq(),
            n == main.entries_seq().len(),
            r.wf(),
            r.as_map() == entries_map(main.entries_seq().subrange(0, i as int)),
        decreases n - i,
    {
        let ghost prefix = main.entries_seq().subrange(0, i as int);
        let key = main_entries[i].0.clone();
        let value = main_entries[i].1.clone();
        r.insert(key, value);
        proof {
            let next = main.entries_seq().subrange(0, i + 1);
            assert(next.drop_last() =~= prefix);
            assert(next.last() == main.entries_seq()[i as int]);
        }
        i = i + 1;
    }
    proof {
        assert(main.entries_seq().subrange(0, n as int) =~= main.entries_seq());
    }
    let local_entries = local.entry_list();
    let m = local_entries.len();
    let mut j: usize = 0;
    while j < m
        invariant
            j <= m,
            local_entries@ == local.entries_seq(),
            m == local.entries_seq().len(),
            r.wf(),
            r.as_map() == main.as_map().union_prefer_right(
                entries_map(local.entries_seq().subrange(0, j as int)),
            ),
        decreases m - j,
    {
        let ghost prefix = local.entries_seq().subrange(0, j as int);
        let key = local_entries[j].0.clone();
        let value = local_entries[j].1.clone();
        proof {
            vstd::map_lib::lemma_union_insert_right(
                main.as_map(),
                entries_map(prefix),
                key@,
                value@,
            );
        }
        r.insert(key, value);
        proof {
            let next = local.entries_seq().subrange(0, j + 1);
            assert(next.drop_last() =~= prefix);
            assert(next.last() == local.entries_seq()[j as int]);
        }
        j = j + 1;
    }
    proof {
        assert(local.entries_seq().subrange(0, m as int) =~= local.entries_seq());
    }
    r
}

/// What `determine_version_from_text` decides, over the lowercase form
/// of the text.
pub open spec fn version_of_lowered(lowered: Seq<char>) -> Option<ZebrasVersion> {
    if text::seq_contains(lowered, "zebras"@) {
        Some(ZebrasVersion::V3)
    } else if text::seq_contains(lowered, "zebra"@) {
        Some(ZebrasVersion::V2)
    } else {
        None
    }
}

/// Reads project configuration; the file I/O and the dialect-specific
/// parsing live with the embedding application, which hands text in.
pub struct ConfigParser;

impl ConfigParser {
    /// The version named by an already-lowercased text: the longer marker
    /// is checked first, since it contains the shorter one as a substring.
    pub fn version_from_lowered(lowered: &str) -> (r: Option<ZebrasVersion>)
        ensures
            r == version_of_lowered(lowered@),
    {
        if text::contains_str(lowered, "zebras") {
            Some(ZebrasVersion::V3)
        } else if text::contains_str(lowered, "zebra") {
            Some(ZebrasVersion::V2)
        } else {
            None
        }
    }

    /// Detects a project's version from a start-script text,
    /// case-insensitively.
    pub fn determine_version_from_text(t: &str) -> (r: Option<ZebrasVersion>)
        ensures
            r == version_of_lowered(shims::lowercase_of(t@)),
    {
        let lowered = shims::to_lowercase(t);
        Self::version_from_lowered(lowered.as_str())
    }
}

} // verus!
