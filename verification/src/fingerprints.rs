//! Path-keyed fingerprint and clock maps, the file actions that compilation
//! derives from them, and the comparison of a directory scan with the cache.

use vstd::prelude::*;

verus! {

/// A map from paths to unsigned numbers (file fingerprints or directory
/// clocks). Each path occurs at most once.
pub struct PathMap {
    entries: Vec<(String, u64)>,
}

/// Whether the sequence of entries holds the path `k`.
pub open spec fn seq_has_key(s: Seq<(String, u64)>, k: Seq<char>) -> bool {
    exists|i: int| 0 <= i < s.len() && (#[trigger] s[i]).0@ == k
}

/// Whether the sequence of entries maps the path `k` to `v`.
pub open spec fn seq_has_entry(s: Seq<(String, u64)>, k: Seq<char>, v: u64) -> bool {
    exists|i: int| 0 <= i < s.len() && (#[trigger] s[i]).0@ == k && s[i].1 == v
}

/// No path occurs twice.
pub open spec fn seq_keys_distinct(s: Seq<(String, u64)>) -> bool {
    forall|i: int, j: int|
        0 <= i < s.len() && 0 <= j < s.len() && i != j ==> (#[trigger] s[i]).0@ != (#[trigger] s[j]).0@
}

/// A sequence holds a path exactly when it maps the path to some value.
pub proof fn lemma_key_entry(s: Seq<(String, u64)>, k: Seq<char>)
    ensures
        seq_has_key(s, k) <==> exists|v: u64| seq_has_entry(s, k, v),
{
    if seq_has_key(s, k) {
        let i = choose|i: int| 0 <= i < s.len() && (#[trigger] s[i]).0@ == k;
        assert(seq_has_entry(s, k, s[i].1));
    }
}

/// With distinct keys, a path has at most one value.
pub proof fn lemma_seq_functional(s: Seq<(String, u64)>, k: Seq<char>, v1: u64, v2: u64)
    requires
        seq_keys_distinct(s),
        seq_has_entry(s, k, v1),
        seq_has_entry(s, k, v2),
    ensures
        v1 == v2,
{
}

impl PathMap {
    /// The entries, in insertion order.
    pub closed spec fn entries(&self) -> Seq<(String, u64)> {
        self.entries@
    }

    #[verifier::type_invariant]
    closed spec fn wf(&self) -> bool {
        seq_keys_distinct(self.entries@)
    }

    /// Whether the map holds the path `k`.
    pub open spec fn has_key(&self, k: Seq<char>) -> bool {
        seq_has_key(self.entries(), k)
    }

    /// Whether the map maps the path `k` to `v`.
    pub open spec fn has_entry(&self, k: Seq<char>, v: u64) -> bool {
        seq_has_entry(self.entries(), k, v)
    }

    /// The number of paths in the map.
    pub open spec fn size(&self) -> nat {
        self.entries().len()
    }

    /// No path occurs twice among the entries. It computes nothing: callers
    /// call it to learn the fact, which `law_actions_reconcile` asks for.
    pub fn keys_distinct(&self)
        ensures
            seq_keys_distinct(self.entries()),
    {
        proof {
            use_type_invariant(self);
        }
    }

    /// The empty map.
    pub fn new() -> (m: PathMap)
        ensures
            m.size() == 0,
            forall|k: Seq<char>| !m.has_key(k),
    {
        PathMap { entries: Vec::new() }
    }

    /// The number of paths in the map.
    pub fn len(&self) -> (n: usize)
        ensures
            n == self.size(),
    {
        self.entries.len()
    }

    /// The path and value at a position of the insertion order.
    pub fn entry_at(&self, i: usize) -> (e: (&String, u64))
        requires
            i < self.size(),
        ensures
            e.0@ == self.entries()[i as int].0@,
            e.1 == self.entries()[i as int].1,
    {
        (&self.entries[i].0, self.entries[i].1)
    }

    /// Position of `key` in the entries, if it is there.
    fn position(&self, key: &String) -> (r: Option<usize>)
        ensures
            match r {
                Some(i) => i < self.entries@.len() && self.entries@[i as int].0@ == key@,
                None => !seq_has_key(self.entries@, key@),
            },
    {
        let mut i: usize = 0;
        while i < self.entries.len()
            invariant
                i <= self.entries@.len(),
                forall|j: int| 0 <= j < i ==> (#[trigger] self.entries@[j]).0@ != key@,
            decreases self.entries@.len() - i,
        {
            if self.entries[i].0 == *key {
                return Some(i);
            }
            i = i + 1;
        }
        None
    }

    /// The value of `key`, if the map holds it.
    pub fn get(&self, key: &String) -> (r: Option<u64>)
        ensures
            match r {
                Some(v) => self.has_entry(key@, v) && forall|w: u64| #[trigger]
                    self.has_entry(key@, w) ==> w == v,
                None => !self.has_key(key@),
            },
    {
        proof {
            use_type_invariant(self);
        }
        match self.position(key) {
            Some(i) => Some(self.entries[i].1),
            None => None,
        }
    }

    /// Whether the map holds `key`.
    pub fn contains_key(&self, key: &String) -> (b: bool)
        ensures
            b == self.has_key(key@),
    {
        self.position(key).is_some()
    }

    /// Maps `key` to `value`, replacing the value it had.
    pub fn insert(&mut self, key: String, value: u64)
        ensures
            forall|k: Seq<char>, v: u64|
                #![trigger final(self).has_entry(k, v)]
                final(self).has_entry(k, v) <==> (if k == key@ {
                    v == value
                } else {
                    old(self).has_entry(k, v)
                }),
            forall|k: Seq<char>| #[trigger]
                final(self).has_key(k) <==> (k == key@ || old(self).has_key(k)),
    {
        proof {
            use_type_invariant(&*self);
        }
        let ghost old_entries = self.entries@;
        let ghost kv = key@;
        let pos = self.position(&key);
        let mut entries: Vec<(String, u64)> = Vec::new();
        std::mem::swap(&mut entries, &mut self.entries);
        match pos {
            Some(i) => {
                entries.set(i, (key, value));
                proof {
                    assert forall|k: Seq<char>, v: u64|
                        seq_has_entry(entries@, k, v) <==> (if k == kv {
                            v == value
                        } else {
                            seq_has_entry(old_entries, k, v)
                        }) by {
                        if seq_has_entry(entries@, k, v) {
                            let j = choose|j: int|
                                0 <= j < entries@.len() && (#[trigger] entries@[j]).0@ == k
                                    && entries@[j].1 == v;
                            if j != i {
                                assert(old_entries[j] == entries@[j]);
                            }
                        }
                        if k == kv && v == value {
                            assert(entries@[i as int].0@ == k);
                        }
                        if k != kv && seq_has_entry(old_entries, k, v) {
                            let j = choose|j: int|
                                0 <= j < old_entries.len() && (#[trigger] old_entries[j]).0@ == k
                                    && old_entries[j].1 == v;
                            assert(j != i);
                            assert(entries@[j] == old_entries[j]);
                        }
                    }
                    assert(seq_keys_distinct(entries@)) by {
                        assert forall|a: int, b: int|
                            0 <= a < entries@.len() && 0 <= b < entries@.len() && a != b
                                implies (#[trigger] entries@[a]).0@ != (#[trigger] entries@[b]).0@ by {
                            if a != i && b != i {
                                assert(entries@[a] == old_entries[a]);
                                assert(entries@[b] == old_entries[b]);
                            } else if a == i {
                                assert(entries@[b] == old_entries[b]);
                                assert(old_entries[i as int].0@ == kv);
                            } else {
                                assert(entries@[a] == old_entries[a]);
                                assert(old_entries[i as int].0@ == kv);
                            }
                        }
                    }
                }
            },
            None => {
                entries.push((key, value));
                proof {
                    let n = old_entries.len() as int;
                    assert forall|k: Seq<char>, v: u64|
                        seq_has_entry(entries@, k, v) <==> (if k == kv {
                            v == value
                        } else {
                            seq_has_entry(old_entries, k, v)
                        }) by {
                        if seq_has_entry(entries@, k, v) {
                            let j = choose|j: int|
                                0 <= j < entries@.len() && (#[trigger] entries@[j]).0@ == k
                                    && entries@[j].1 == v;
                            if j < n {
                                assert(old_entries[j] == entries@[j]);
                            }
                        }
                        if k == kv && v == value {
                            assert(entries@[n].0@ == k);
                        }
                        if k != kv && seq_has_entry(old_entries, k, v) {
                            let j = choose|j: int|
                                0 <= j < old_entries.len() && (#[trigger] old_entries[j]).0@ == k
                                    && old_entries[j].1 == v;
                            assert(entries@[j] == old_entries[j]);
                        }
                    }
                    assert(seq_keys_distinct(entries@)) by {
                        assert forall|a: int, b: int|
                            0 <= a < entries@.len() && 0 <= b < entries@.len() && a != b
                                implies (#[trigger] entries@[a]).0@ != (#[trigger] entries@[b]).0@ by {
                            if a < n && b < n {
                                assert(entries@[a] == old_entries[a]);
                                assert(entries@[b] == old_entries[b]);
                            } else if a == n {
                                assert(entries@[b] == old_entries[b]);
                            } else {
                                assert(entries@[a] == old_entries[a]);
                            }
                        }
                    }
                }
            },
        }
        self.entries = entries;
        proof {
            assert forall|k: Seq<char>| #[trigger]
                seq_has_key(self.entries@, k) <==> (k == kv || seq_has_key(old_entries, k)) by {
                lemma_key_entry(self.entries@, k);
                lemma_key_entry(old_entries, k);
                if seq_has_key(self.entries@, k) {
                    let v = choose|v: u64| seq_has_entry(self.entries@, k, v);
                    assert(seq_has_entry(self.entries@, k, v));
                }
                if k == kv {
                    assert(seq_has_entry(self.entries@, k, value));
                }
                if seq_has_key(old_entries, k) && k != kv {
                    let v = choose|v: u64| seq_has_entry(old_entries, k, v);
                    assert(seq_has_entry(self.entries@, k, v));
                }
            }
        }
    }
}

/// What compilation does to the cache for one file or one directory clock.
pub enum FileAction {
    /// Parse the file and store it with its fingerprint.
    Upsert { path: String, fingerprint: u64 },
    /// Remove what the cache holds for the file.
    Delete { path: String },
    /// Store the clock sum of a directory.
    ClockUpsert { path: String, clock: u64 },
    /// Remove the clock of a directory.
    ClockDelete { path: String },
}

/// A file action with its paths taken as character sequences.
pub enum FileActionV {
    Upsert { path: Seq<char>, fingerprint: u64 },
    Delete { path: Seq<char> },
    ClockUpsert { path: Seq<char>, clock: u64 },
    ClockDelete { path: Seq<char> },
}

impl View for FileAction {
    type V = FileActionV;

    open spec fn view(&self) -> FileActionV {
        match self {
            FileAction::Upsert { path, fingerprint } => FileActionV::Upsert {
                path: path@,
                fingerprint: *fingerprint,
            },
            FileAction::Delete { path } => FileActionV::Delete { path: path@ },
            FileAction::ClockUpsert { path, clock } => FileActionV::ClockUpsert {
                path: path@,
                clock: *clock,
            },
            FileAction::ClockDelete { path } => FileActionV::ClockDelete { path: path@ },
        }
    }
}

/// The views of a sequence of file actions.
pub open spec fn actions_view(s: Seq<FileAction>) -> Seq<FileActionV> {
    s.map_values(|a: FileAction| a@)
}

/// The view of an upsert of `path` with `fingerprint`.
pub open spec fn upsert_v(path: Seq<char>, fingerprint: u64) -> FileActionV {
    FileActionV::Upsert { path, fingerprint }
}

/// The view of a delete of `path`.
pub open spec fn delete_v(path: Seq<char>) -> FileActionV {
    FileActionV::Delete { path }
}

/// The actions that bring a cache holding `cache` in line with a scan that
/// found `scan`: a file whose fingerprint is new or differs from the cached
/// one is upserted, a cached file that the scan no longer finds is deleted.
pub open spec fn fingerprint_actions_ok(scan: PathMap, cache: PathMap, acts: Seq<FileActionV>) -> bool {
    &&& forall|a: FileActionV| #[trigger] acts.contains(a) ==> match a {
        FileActionV::Upsert { path, fingerprint } => scan.has_entry(path, fingerprint)
            && !cache.has_entry(path, fingerprint),
        FileActionV::Delete { path } => cache.has_key(path) && !scan.has_key(path),
        _ => false,
    }
    &&& forall|p: Seq<char>, f: u64|
        scan.has_entry(p, f) && !cache.has_entry(p, f) ==> #[trigger] acts.contains(
            upsert_v(p, f),
        )
    &&& forall|p: Seq<char>|
        cache.has_key(p) && !scan.has_key(p) ==> #[trigger] acts.contains(delete_v(p))
    &&& acts.no_duplicates()
}

/// The upserts: every scanned entry that the cache does not hold as it is.
fn scan_upserts(fp: &PathMap, c_fp: &PathMap) -> (actions: Vec<FileAction>)
    ensures
        forall|x: int| 0 <= x < actions@.len() ==> exists|p: Seq<char>, f: u64|
            (#[trigger] actions@[x])@ == upsert_v(p, f) && fp.has_entry(p, f) && !c_fp.has_entry(p, f),
        forall|p: Seq<char>, f: u64| fp.has_entry(p, f) && !c_fp.has_entry(p, f)
            ==> #[trigger] actions_view(actions@).contains(upsert_v(p, f)),
        actions_view(actions@).no_duplicates(),
        actions@.len() <= fp.size(),
{
    proof {
        use_type_invariant(fp);
        use_type_invariant(c_fp);
    }
    let mut actions: Vec<FileAction> = Vec::new();
    let n = fp.len();
    let mut i: usize = 0;
    while i < n
        invariant
            n == fp.size(),
            i <= n,
            seq_keys_distinct(fp.entries()),
            seq_keys_distinct(c_fp.entries()),
            actions@.len() <= i,
            forall|x: int| 0 <= x < actions@.len() ==> exists|k: int| 0 <= k < i
                && (#[trigger] actions@[x])@ == upsert_v(fp.entries()[k].0@, fp.entries()[k].1)
                && !c_fp.has_entry(fp.entries()[k].0@, fp.entries()[k].1),
            forall|k: int| 0 <= k < i && !c_fp.has_entry(fp.entries()[k].0@, fp.entries()[k].1)
                ==> exists|x: int| 0 <= x < actions@.len() && (#[trigger] actions@[x])@
                    == upsert_v(fp.entries()[k].0@, fp.entries()[k].1),
            forall|x: int, y: int| 0 <= x < actions@.len() && 0 <= y < actions@.len() && x != y
                ==> (#[trigger] actions@[x])@ != (#[trigger] actions@[y])@,
        decreases n - i,
    {
        let (p, f) = fp.entry_at(i);
        let changed = match c_fp.get(p) {
            Some(cf) => {
                proof {
                    if c_fp.has_entry(p@, f) {
                        lemma_seq_functional(c_fp.entries(), p@, f, cf);
                    }
                }
                cf != f
            },
            None => true,
        };
        if changed {
            let ghost before = actions@;
            actions.push(FileAction::Upsert { path: p.clone(), fingerprint: f });
            proof {
                assert(actions@[before.len() as int]@ == upsert_v(p@, f));
                assert forall|x: int, y: int| 0 <= x < actions@.len() && 0 <= y < actions@.len() && x != y
                    implies (#[trigger] actions@[x])@ != (#[trigger] actions@[y])@ by {
                    if x < before.len() && y < before.len() {
                        assert(actions@[x] == before[x]);
                        assert(actions@[y] == before[y]);
                    } else if x < before.len() {
                        assert(actions@[x] == before[x]);
                        let k = choose|k: int| 0 <= k < i && (#[trigger] before[x])@
                            == upsert_v(fp.entries()[k].0@, fp.entries()[k].1)
                            && !c_fp.has_entry(fp.entries()[k].0@, fp.entries()[k].1);
                        assert(fp.entries()[k].0@ != fp.entries()[i as int].0@);
                    } else if y < before.len() {
                        assert(actions@[y] == before[y]);
                        let k = choose|k: int| 0 <= k < i && (#[trigger] before[y])@
                            == upsert_v(fp.entries()[k].0@, fp.entries()[k].1)
                            && !c_fp.has_entry(fp.entries()[k].0@, fp.entries()[k].1);
                        assert(fp.entries()[k].0@ != fp.entries()[i as int].0@);
                    }
                }
                assert forall|x: int| 0 <= x < actions@.len() implies exists|k: int| 0 <= k < i + 1
                    && (#[trigger] actions@[x])@ == upsert_v(fp.entries()[k].0@, fp.entries()[k].1)
                    && !c_fp.has_entry(fp.entries()[k].0@, fp.entries()[k].1) by {
                    if x < before.len() {
                        assert(actions@[x] == before[x]);
                    }
                }
                assert forall|k: int| 0 <= k < i + 1 && !c_fp.has_entry(fp.entries()[k].0@, fp.entries()[k].1)
                    implies exists|x: int| 0 <= x < actions@.len() && (#[trigger] actions@[x])@
                        == upsert_v(fp.entries()[k].0@, fp.entries()[k].1) by {
                    if k < i {
                        let x = choose|x: int| 0 <= x < before.len() && (#[trigger] before[x])@
                            == upsert_v(fp.entries()[k].0@, fp.entries()[k].1);
                        assert(actions@[x] == before[x]);
                    } else {
                        assert(actions@[before.len() as int]@ == upsert_v(fp.entries()[k].0@, fp.entries()[k].1));
                    }
                }
            }
        } else {
            proof {
                assert(c_fp.has_entry(fp.entries()[i as int].0@, fp.entries()[i as int].1));
            }
        }
        i = i + 1;
    }
    proof {
        let acts = actions_view(actions@);
        assert forall|x: int| 0 <= x < actions@.len() implies exists|p: Seq<char>, f: u64|
            (#[trigger] actions@[x])@ == upsert_v(p, f) && fp.has_entry(p, f) && !c_fp.has_entry(p, f) by {
            let k = choose|k: int| 0 <= k < n && (#[trigger] actions@[x])@
                == upsert_v(fp.entries()[k].0@, fp.entries()[k].1)
                && !c_fp.has_entry(fp.entries()[k].0@, fp.entries()[k].1);
            assert(fp.has_entry(fp.entries()[k].0@, fp.entries()[k].1));
        }
        assert forall|p: Seq<char>, f: u64| fp.has_entry(p, f) && !c_fp.has_entry(p, f)
            implies #[trigger] acts.contains(upsert_v(p, f)) by {
            let k = choose|k: int| 0 <= k < n && (#[trigger] fp.entries()[k]).0@ == p && fp.entries()[k].1 == f;
            let x = choose|x: int| 0 <= x < actions@.len() && (#[trigger] actions@[x])@
                == upsert_v(fp.entries()[k].0@, fp.entries()[k].1);
            assert(acts[x] == upsert_v(p, f));
        }
        assert forall|x: int, y: int| 0 <= x < acts.len() && 0 <= y < acts.len() && x != y
            implies acts[x] != acts[y] by {
            assert(acts[x] == actions@[x]@);
            assert(acts[y] == actions@[y]@);
        }
    }
    actions
}

/// The deletes: every cached path that the scan did not find.
fn cache_deletes(fp: &PathMap, c_fp: &PathMap) -> (actions: Vec<FileAction>)
    ensures
        forall|x: int| 0 <= x < actions@.len() ==> exists|p: Seq<char>|
            (#[trigger] actions@[x])@ == delete_v(p) && c_fp.has_key(p) && !fp.has_key(p),
        forall|p: Seq<char>| c_fp.has_key(p) && !fp.has_key(p)
            ==> #[trigger] actions_view(actions@).contains(delete_v(p)),
        actions_view(actions@).no_duplicates(),
        actions@.len() <= c_fp.size(),
{
    proof {
        use_type_invariant(c_fp);
    }
    let mut actions: Vec<FileAction> = Vec::new();
    let m = c_fp.len();
    let mut j: usize = 0;
    while j < m
        invariant
            m == c_fp.size(),
            j <= m,
            seq_keys_distinct(c_fp.entries()),
            actions@.len() <= j,
            forall|x: int| 0 <= x < actions@.len() ==> exists|k: int| 0 <= k < j
                && (#[trigger] actions@[x])@ == delete_v(c_fp.entries()[k].0@)
                && !fp.has_key(c_fp.entries()[k].0@),
            forall|k: int| 0 <= k < j && !fp.has_key(c_fp.entries()[k].0@)
                ==> exists|x: int| 0 <= x < actions@.len() && (#[trigger] actions@[x])@
                    == delete_v(c_fp.entries()[k].0@),
            forall|x: int, y: int| 0 <= x < actions@.len() && 0 <= y < actions@.len() && x != y
                ==> (#[trigger] actions@[x])@ != (#[trigger] actions@[y])@,
        decreases m - j,
    {
        let (p, _cf) = c_fp.entry_at(j);
        if !fp.contains_key(p) {
            let ghost before = actions@;
            actions.push(FileAction::Delete { path: p.clone() });
            proof {
                assert(actions@[before.len() as int]@ == delete_v(p@));
                assert forall|x: int, y: int| 0 <= x < actions@.len() && 0 <= y < actions@.len() && x != y
                    implies (#[trigger] actions@[x])@ != (#[trigger] actions@[y])@ by {
                    if x < before.len() && y < before.len() {
                        assert(actions@[x] == before[x]);
                        assert(actions@[y] == before[y]);
                    } else if x < before.len() {
                        assert(actions@[x] == before[x]);
                        let k = choose|k: int| 0 <= k < j && (#[trigger] before[x])@
                            == delete_v(c_fp.entries()[k].0@) && !fp.has_key(c_fp.entries()[k].0@);
                        assert(c_fp.entries()[k].0@ != c_fp.entries()[j as int].0@);
                    } else if y < before.len() {
                        assert(actions@[y] == before[y]);
                        let k = choose|k: int| 0 <= k < j && (#[trigger] before[y])@
                            == delete_v(c_fp.entries()[k].0@) && !fp.has_key(c_fp.entries()[k].0@);
                        assert(c_fp.entries()[k].0@ != c_fp.entries()[j as int].0@);
                    }
                }
                assert forall|x: int| 0 <= x < actions@.len() implies exists|k: int| 0 <= k < j + 1
                    && (#[trigger] actions@[x])@ == delete_v(c_fp.entries()[k].0@)
                    && !fp.has_key(c_fp.entries()[k].0@) by {
                    if x < before.len() {
                        assert(actions@[x] == before[x]);
                    }
                }
                assert forall|k: int| 0 <= k < j + 1 && !fp.has_key(c_fp.entries()[k].0@)
                    implies exists|x: int| 0 <= x < actions@.len() && (#[trigger] actions@[x])@
                        == delete_v(c_fp.entries()[k].0@) by {
                    if k < j {
                        let x = choose|x: int| 0 <= x < before.len() && (#[trigger] before[x])@
                            == delete_v(c_fp.entries()[k].0@);
                        assert(actions@[x] == before[x]);
                    } else {
                        assert(actions@[before.len() as int]@ == delete_v(c_fp.entries()[k].0@));
                    }
                }
            }
        }
        j = j + 1;
    }
    proof {
        let acts = actions_view(actions@);
        assert forall|x: int| 0 <= x < actions@.len() implies exists|p: Seq<char>|
            (#[trigger] actions@[x])@ == delete_v(p) && c_fp.has_key(p) && !fp.has_key(p) by {
            let k = choose|k: int| 0 <= k < m && (#[trigger] actions@[x])@
                == delete_v(c_fp.entries()[k].0@) && !fp.has_key(c_fp.entries()[k].0@);
            assert(c_fp.has_key(c_fp.entries()[k].0@));
        }
        assert forall|p: Seq<char>| c_fp.has_key(p) && !fp.has_key(p)
            implies #[trigger] acts.contains(delete_v(p)) by {
            let k = choose|k: int| 0 <= k < m && (#[trigger] c_fp.entries()[k]).0@ == p;
            let x = choose|x: int| 0 <= x < actions@.len() && (#[trigger] actions@[x])@
                == delete_v(c_fp.entries()[k].0@);
            assert(acts[x] == delete_v(p));
        }
        assert forall|x: int, y: int| 0 <= x < acts.len() && 0 <= y < acts.len() && x != y
            implies acts[x] != acts[y] by {
            assert(acts[x] == actions@[x]@);
            assert(acts[y] == actions@[y]@);
        }
    }
    actions
}

/// Compares the fingerprints found on disk (`fp`) with those in the cache
/// (`c_fp`) and lists the upserts and deletes that reconcile them, every
/// upsert before every delete.
pub fn compare_fingerprints(fp: PathMap, c_fp: PathMap) -> (actions: Vec<FileAction>)
    ensures
        fingerprint_actions_ok(fp, c_fp, actions_view(actions@)),
        actions@.len() <= fp.size() + c_fp.size(),
        forall|i: int, j: int|
            0 <= i < j < actions@.len() && (#[trigger] actions_view(actions@)[i]) is Delete ==> (
            #[trigger] actions_view(actions@)[j]) is Delete,
{
    let mut actions = scan_upserts(&fp, &c_fp);
    let mut deletes = cache_deletes(&fp, &c_fp);
    let ghost ups = actions@;
    let ghost dels = deletes@;
    actions.append(&mut deletes);
    proof {
        let acts = actions_view(actions@);
        assert(actions@ == ups + dels);
        assert forall|x: int| 0 <= x < acts.len() implies acts[x] == (if x < ups.len() {
            ups[x]@
        } else {
            dels[x - ups.len()]@
        }) by {}
        assert forall|a: FileActionV| #[trigger] acts.contains(a) implies match a {
            FileActionV::Upsert { path, fingerprint } => fp.has_entry(path, fingerprint)
                && !c_fp.has_entry(path, fingerprint),
            FileActionV::Delete { path } => c_fp.has_key(path) && !fp.has_key(path),
            _ => false,
        } by {
            let x = choose|x: int| 0 <= x < acts.len() && acts[x] == a;
            if x < ups.len() {
                let (p, f) = choose|p: Seq<char>, f: u64| (#[trigger] ups[x])@ == upsert_v(p, f)
                    && fp.has_entry(p, f) && !c_fp.has_entry(p, f);
            } else {
                let p = choose|p: Seq<char>| (#[trigger] dels[x - ups.len()])@ == delete_v(p)
                    && c_fp.has_key(p) && !fp.has_key(p);
            }
        }
        assert forall|p: Seq<char>, f: u64| fp.has_entry(p, f) && !c_fp.has_entry(p, f)
            implies #[trigger] acts.contains(upsert_v(p, f)) by {
            assert(actions_view(ups).contains(upsert_v(p, f)));
            let x = choose|x: int| 0 <= x < ups.len() && actions_view(ups)[x] == upsert_v(p, f);
            assert(acts[x] == upsert_v(p, f));
        }
        assert forall|p: Seq<char>| c_fp.has_key(p) && !fp.has_key(p)
            implies #[trigger] acts.contains(delete_v(p)) by {
            assert(actions_view(dels).contains(delete_v(p)));
            let x = choose|x: int| 0 <= x < dels.len() && actions_view(dels)[x] == delete_v(p);
            assert(acts[ups.len() + x] == delete_v(p));
        }
        assert forall|i: int, j: int| 0 <= i < j < acts.len() && (#[trigger] acts[i]) is Delete implies (
            #[trigger] acts[j]) is Delete by {
            if i < ups.len() {
                let (p, f) = choose|p: Seq<char>, f: u64| (#[trigger] ups[i])@ == upsert_v(p, f)
                    && fp.has_entry(p, f) && !c_fp.has_entry(p, f);
            }
            if j >= ups.len() {
                let q = choose|q: Seq<char>| (#[trigger] dels[j - ups.len()])@ == delete_v(q)
                    && c_fp.has_key(q) && !fp.has_key(q);
            }
        }
        assert forall|x: int, y: int| 0 <= x < acts.len() && 0 <= y < acts.len() && x != y
            implies acts[x] != acts[y] by {
            if x < ups.len() && y < ups.len() {
                assert(actions_view(ups)[x] == acts[x]);
                assert(actions_view(ups)[y] == acts[y]);
            } else if x >= ups.len() && y >= ups.len() {
                assert(actions_view(dels)[x - ups.len()] == acts[x]);
                assert(actions_view(dels)[y - ups.len()] == acts[y]);
            } else if x < ups.len() {
                let (p, f) = choose|p: Seq<char>, f: u64| (#[trigger] ups[x])@ == upsert_v(p, f)
                    && fp.has_entry(p, f) && !c_fp.has_entry(p, f);
                let q = choose|q: Seq<char>| (#[trigger] dels[y - ups.len()])@ == delete_v(q)
                    && c_fp.has_key(q) && !fp.has_key(q);
            } else {
                let (p, f) = choose|p: Seq<char>, f: u64| (#[trigger] ups[y])@ == upsert_v(p, f)
                    && fp.has_entry(p, f) && !c_fp.has_entry(p, f);
                let q = choose|q: Seq<char>| (#[trigger] dels[x - ups.len()])@ == delete_v(q)
                    && c_fp.has_key(q) && !fp.has_key(q);
            }
        }
    }
    actions
}

// ---------------------------------------------------------------- reconciliation

/// The cache after one action: an upsert stores the fingerprint of its
/// path, a delete removes the path; clock actions leave the files alone.
pub open spec fn apply_action(m: Map<Seq<char>, u64>, a: FileActionV) -> Map<Seq<char>, u64> {
    match a {
        FileActionV::Upsert { path, fingerprint } => m.insert(path, fingerprint),
        FileActionV::Delete { path } => m.remove(path),
        _ => m,
    }
}

/// The cache after the actions, in order.
pub open spec fn apply_actions(m: Map<Seq<char>, u64>, acts: Seq<FileActionV>) -> Map<Seq<char>, u64>
    decreases acts.len(),
{
    if acts.len() == 0 {
        m
    } else {
        apply_action(apply_actions(m, acts.drop_last()), acts.last())
    }
}

/// The map that a path map holds.
pub open spec fn map_of(pm: PathMap) -> Map<Seq<char>, u64> {
    Map::new(|k: Seq<char>| pm.has_key(k), |k: Seq<char>| choose|v: u64| pm.has_entry(k, v))
}

/// Whether an action is about the file at `p`.
pub open spec fn touches(a: FileActionV, p: Seq<char>) -> bool {
    match a {
        FileActionV::Upsert { path, .. } => path == p,
        FileActionV::Delete { path } => path == p,
        _ => false,
    }
}

/// What an action leaves at its path: the fingerprint it stores, or nothing.
pub open spec fn effect_at(a: FileActionV) -> Option<u64> {
    match a {
        FileActionV::Upsert { fingerprint, .. } => Some(fingerprint),
        _ => None,
    }
}

/// What a map holds at a path.
pub open spec fn at(m: Map<Seq<char>, u64>, p: Seq<char>) -> Option<u64> {
    if m.contains_key(p) {
        Some(m[p])
    } else {
        None
    }
}

/// Where at most one action is about `p`, the cache ends up at `p` as that
/// action leaves it, or as it was.
proof fn lemma_apply_at(m: Map<Seq<char>, u64>, acts: Seq<FileActionV>, p: Seq<char>)
    requires
        forall|i: int, j: int|
            0 <= i < acts.len() && 0 <= j < acts.len() && i != j && touches(#[trigger] acts[i], p) ==> !touches(
                #[trigger] acts[j],
                p,
            ),
    ensures
        (forall|i: int| 0 <= i < acts.len() ==> !touches(#[trigger] acts[i], p)) ==> at(apply_actions(m, acts), p)
            == at(m, p),
        forall|i: int|
            0 <= i < acts.len() && touches(#[trigger] acts[i], p) ==> at(apply_actions(m, acts), p) == effect_at(
                acts[i],
            ),
    decreases acts.len(),
{
    if acts.len() > 0 {
        let rest = acts.drop_last();
        assert forall|i: int, j: int|
            0 <= i < rest.len() && 0 <= j < rest.len() && i != j && touches(#[trigger] rest[i], p) implies !touches(
            #[trigger] rest[j],
            p,
        ) by {
            assert(rest[i] == acts[i] && rest[j] == acts[j]);
        }
        lemma_apply_at(m, rest, p);
        let last = acts.last();
        let before = apply_actions(m, rest);
        assert(apply_actions(m, acts) == apply_action(before, last));
        if touches(last, p) {
            assert forall|i: int| 0 <= i < acts.len() && touches(#[trigger] acts[i], p) implies at(
                apply_actions(m, acts),
                p,
            ) == effect_at(acts[i]) by {
                if i != acts.len() - 1 {
                    assert(!touches(acts[i], p));
                }
            }
        } else {
            assert(at(apply_action(before, last), p) == at(before, p));
            assert forall|i: int| 0 <= i < acts.len() && touches(#[trigger] acts[i], p) implies at(
                apply_actions(m, acts),
                p,
            ) == effect_at(acts[i]) by {
                assert(i != acts.len() - 1);
                assert(rest[i] == acts[i]);
            }
            if forall|i: int| 0 <= i < acts.len() ==> !touches(#[trigger] acts[i], p) {
                assert forall|i: int| 0 <= i < rest.len() implies !touches(#[trigger] rest[i], p) by {
                    assert(rest[i] == acts[i]);
                }
            }
        }
    }
}

/// The value that a path map holds for a path it holds.
proof fn lemma_map_of(pm: PathMap, k: Seq<char>, v: u64)
    requires
        seq_keys_distinct(pm.entries()),
        pm.has_entry(k, v),
    ensures
        at(map_of(pm), k) == Some(v),
{
    lemma_key_entry(pm.entries(), k);
    let w = choose|w: u64| pm.has_entry(k, w);
    lemma_seq_functional(pm.entries(), k, v, w);
}

/// Applying the actions that reconcile a cache with a scan leaves the cache
/// holding exactly what the scan found: compilation brings the cache in
/// line with the files.
pub proof fn law_actions_reconcile(scan: PathMap, cache: PathMap, acts: Seq<FileActionV>)
    requires
        seq_keys_distinct(scan.entries()),
        seq_keys_distinct(cache.entries()),
        fingerprint_actions_ok(scan, cache, acts),
    ensures
        apply_actions(map_of(cache), acts) =~= map_of(scan),
{
    let result = apply_actions(map_of(cache), acts);
    assert forall|p: Seq<char>| at(result, p) == at(map_of(scan), p) by {
        assert forall|i: int, j: int|
            0 <= i < acts.len() && 0 <= j < acts.len() && i != j && touches(#[trigger] acts[i], p) implies !touches(
            #[trigger] acts[j],
            p,
        ) by {
            assert(acts.contains(acts[i]));
            assert(acts.contains(acts[j]));
            if touches(acts[j], p) {
                match (acts[i], acts[j]) {
                    (FileActionV::Upsert { fingerprint: f1, .. }, FileActionV::Upsert { fingerprint: f2, .. }) => {
                        lemma_seq_functional(scan.entries(), p, f1, f2);
                    },
                    (FileActionV::Upsert { fingerprint: f1, .. }, FileActionV::Delete { .. }) => {
                        lemma_key_entry(scan.entries(), p);
                    },
                    (FileActionV::Delete { .. }, FileActionV::Upsert { fingerprint: f2, .. }) => {
                        lemma_key_entry(scan.entries(), p);
                    },
                    _ => {},
                }
            }
        }
        lemma_apply_at(map_of(cache), acts, p);
        lemma_key_entry(scan.entries(), p);
        lemma_key_entry(cache.entries(), p);
        if scan.has_key(p) {
            let f = choose|f: u64| seq_has_entry(scan.entries(), p, f);
            assert(scan.has_entry(p, f));
            lemma_map_of(scan, p, f);
            if cache.has_entry(p, f) {
                lemma_map_of(cache, p, f);
                assert forall|i: int| 0 <= i < acts.len() implies !touches(#[trigger] acts[i], p) by {
                    assert(acts.contains(acts[i]));
                    match acts[i] {
                        FileActionV::Upsert { fingerprint: g, .. } => {
                            if touches(acts[i], p) {
                                lemma_seq_functional(scan.entries(), p, f, g);
                            }
                        },
                        _ => {},
                    }
                }
            } else {
                assert(acts.contains(upsert_v(p, f)));
                let i = choose|i: int| 0 <= i < acts.len() && acts[i] == upsert_v(p, f);
                assert(touches(acts[i], p));
            }
        } else {
            if cache.has_key(p) {
                assert(acts.contains(delete_v(p)));
                let i = choose|i: int| 0 <= i < acts.len() && acts[i] == delete_v(p);
                assert(touches(acts[i], p));
            } else {
                assert forall|i: int| 0 <= i < acts.len() implies !touches(#[trigger] acts[i], p) by {
                    assert(acts.contains(acts[i]));
                }
            }
        }
    }
    assert forall|p: Seq<char>| #[trigger] result.contains_key(p) <==> map_of(scan).contains_key(p) by {
        assert(at(result, p) == at(map_of(scan), p));
    }
    assert forall|p: Seq<char>| #[trigger] result.contains_key(p) implies result[p] == map_of(scan)[p] by {
        assert(at(result, p) == at(map_of(scan), p));
    }
}

} // verus!
