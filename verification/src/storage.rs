//! The content-addressed store.
//!
//! Two key namespaces map to durable records: build identities
//! ([`crate::index::Key`] to a binary hash or recorded build failure) and
//! measurements ([`crate::measurement::Key`] to a metric table or recorded
//! run failure).  Each record carries a generation timestamp, and each key
//! derives the file path its record persists at; the embedder mirrors the
//! store to disk and versions it, and rebuilds the store from those files on
//! the next invocation.  Within one invocation the store here is the single
//! source of truth, and its `get`/`set` obey exact map semantics.

use vstd::prelude::*;
use vstd::string::StringExecFns;

use crate::collect_result::CollectionResult;
use crate::estimates::Estimates;
use crate::index;
use crate::measurement;
use crate::toolchain::Toolchain;

verus! {

/// The name derivations of a typed key, stated without reference to the
/// executable interface.
pub trait StorageKeySpec: Sized {
    /// The filename (without extension) of this key's record.
    spec fn spec_basename(&self) -> Seq<char>;

    /// The directory, under the store root, of this namespace.
    spec fn spec_directory() -> Seq<char>;
}

/// A typed key that knows the file its record persists at.
pub trait StorageKey: StorageKeySpec {
    fn basename(&self) -> (r: String)
        ensures
            r@ == self.spec_basename(),
    ;

    fn directory() -> (r: String)
        ensures
            r@ == Self::spec_directory(),
    ;

    fn abs_path(&self, data_dir: &str) -> (r: String)
        ensures
            r@ == spec_abs_path(self, data_dir@),
    {
        let mut p = data_dir.to_owned();
        p.append("/");
        let d = Self::directory();
        p.append(d.as_str());
        p.append("/");
        let b = self.basename();
        p.append(b.as_str());
        p.append(".json");
        proof {
            assert(p@ =~= spec_abs_path(self, data_dir@));
        }
        p
    }
}

/// The full path of `key`'s record under `data_dir`:
/// `<data_dir>/<directory>/<basename>.json`.
pub open spec fn spec_abs_path<K: StorageKeySpec>(key: &K, data_dir: Seq<char>) -> Seq<char> {
    data_dir + "/"@ + K::spec_directory() + "/"@ + key.spec_basename() + ".json"@
}

/// One stored record: its key, its payload, and when it was generated
/// (seconds of UTC time, for audit only).
#[derive(Debug)]
pub struct Container<K, V> {
    pub generated_at: i64,
    pub key: K,
    pub contents: V,
}

/// A payload that either was already stored or was computed just now and
/// still has to be persisted.
#[derive(Debug)]
pub enum Entry<K, V> {
    New(K, V),
    Existing(V),
}

impl<K, V> Entry<K, V> {
    /// The payload, wherever it came from.
    pub fn value(&self) -> (r: &V)
        ensures
            (match self {
                Entry::New(_, v) => r == v,
                Entry::Existing(v) => r == v,
            }),
    {
        match self {
            Entry::New(_, v) => v,
            Entry::Existing(v) => v,
        }
    }
}

/// The first record stored under the key whose value is `k`.
pub open spec fn find_entry<K: View, V>(s: Seq<Container<K, V>>, k: <K as View>::V) -> Option<
    Container<K, V>,
>
    decreases s.len(),
{
    if s.len() == 0 {
        None
    } else if s[0].key@ == k {
        Some(s[0])
    } else {
        find_entry(s.drop_first(), k)
    }
}

/// `s` with `c` stored: the first record under `c`'s key replaced, or `c`
/// appended when the key is new.
pub open spec fn set_entry<K: View, V>(s: Seq<Container<K, V>>, c: Container<K, V>) -> Seq<
    Container<K, V>,
>
    decreases s.len(),
{
    if s.len() == 0 {
        seq![c]
    } else if s[0].key@ == c.key@ {
        seq![c] + s.drop_first()
    } else {
        seq![s[0]] + set_entry(s.drop_first(), c)
    }
}

/// Round trip: after storing `c`, looking its key up finds exactly `c`, and
/// every other key finds what it found before.
pub proof fn lemma_set_then_get<K: View, V>(
    s: Seq<Container<K, V>>,
    c: Container<K, V>,
    k: <K as View>::V,
)
    ensures
        find_entry(set_entry(s, c), c.key@) == Some(c),
        k != c.key@ ==> find_entry(set_entry(s, c), k) == find_entry(s, k),
    decreases s.len(),
{
    if s.len() == 0 {
        assert(set_entry(s, c) =~= seq![c]);
        assert(set_entry(s, c).drop_first() =~= Seq::<Container<K, V>>::empty());
        assert(set_entry(s, c)[0] == c);
        if k != c.key@ {
            assert(find_entry(set_entry(s, c), k) == find_entry(
                set_entry(s, c).drop_first(),
                k,
            ));
            assert(find_entry(set_entry(s, c), k) is None);
            assert(find_entry(s, k) is None);
        }
    } else if s[0].key@ == c.key@ {
        let t = set_entry(s, c);
        assert(t[0] == c);
        assert(t.drop_first() =~= s.drop_first());
        if k != c.key@ {
            assert(find_entry(t, k) == find_entry(s.drop_first(), k));
            assert(find_entry(s, k) == find_entry(s.drop_first(), k));
        }
    } else {
        let t = set_entry(s, c);
        assert(t[0] == s[0]);
        assert(t.drop_first() =~= set_entry(s.drop_first(), c));
        lemma_set_then_get(s.drop_first(), c, k);
        if k != c.key@ {
            if s[0].key@ == k {
                assert(find_entry(t, k) == Some(s[0]));
                assert(find_entry(s, k) == Some(s[0]));
            } else {
                assert(find_entry(t, k) == find_entry(set_entry(s.drop_first(), c), k));
                assert(find_entry(s, k) == find_entry(s.drop_first(), k));
            }
        }
    }
}

/// A found record was stored under the key it was looked up by.
pub proof fn lemma_found_key_matches<K: View, V>(s: Seq<Container<K, V>>, k: <K as View>::V)
    ensures
        (match find_entry(s, k) {
            Some(c) => c.key@ == k,
            None => true,
        }),
    decreases s.len(),
{
    if s.len() > 0 && s[0].key@ != k {
        lemma_found_key_matches(s.drop_first(), k);
    }
}

/// Replacing the first matching position is the same as storing.
proof fn lemma_set_entry_update<K: View, V>(
    s: Seq<Container<K, V>>,
    c: Container<K, V>,
    at: int,
)
    requires
        0 <= at < s.len(),
        s[at].key@ == c.key@,
        forall|j: int| 0 <= j < at ==> s[j].key@ != c.key@,
    ensures
        set_entry(s, c) =~= s.update(at, c),
    decreases s.len(),
{
    if at == 0 {
        assert(set_entry(s, c) =~= seq![c] + s.drop_first());
    } else {
        assert(s[0].key@ != c.key@);
        assert(s.drop_first()[at - 1] == s[at]);
        assert forall|j: int| 0 <= j < at - 1 implies s.drop_first()[j].key@ != c.key@ by {
            assert(s.drop_first()[j] == s[j + 1]);
        }
        lemma_set_entry_update(s.drop_first(), c, at - 1);
        assert(set_entry(s, c) =~= seq![s[0]] + s.drop_first().update(at - 1, c));
        assert(seq![s[0]] + s.drop_first().update(at - 1, c) =~= s.update(at, c));
    }
}

/// The in-memory image of the store: the records of both namespaces, and
/// the root directory their files live under.
pub struct Store {
    data_dir: String,
    index_entries: Vec<Container<index::Key, CollectionResult<Vec<u8>>>>,
    measurement_entries: Vec<Container<measurement::Key, CollectionResult<Estimates>>>,
}

impl Store {
    /// The store's root directory.
    pub closed spec fn spec_data_dir(&self) -> Seq<char> {
        self.data_dir@
    }

    /// The build-identity records, oldest first.
    pub closed spec fn index_seq(&self) -> Seq<Container<index::Key, CollectionResult<Vec<u8>>>> {
        self.index_entries@
    }

    /// The measurement records, oldest first.
    pub closed spec fn measurement_seq(&self) -> Seq<
        Container<measurement::Key, CollectionResult<Estimates>>,
    > {
        self.measurement_entries@
    }

    /// An empty store rooted at `data_dir`.
    pub fn new(data_dir: String) -> (r: Store)
        ensures
            r.spec_data_dir() == data_dir@,
            r.index_seq().len() == 0,
            r.measurement_seq().len() == 0,
    {
        Store { data_dir, index_entries: Vec::new(), measurement_entries: Vec::new() }
    }

    /// The root directory the records persist under.
    pub fn data_dir(&self) -> (r: &str)
        ensures
            r@ == self.spec_data_dir(),
    {
        self.data_dir.as_str()
    }

    /// Looks the record under `key` up in the build-identity namespace.
    pub fn get_index(&self, key: &index::Key) -> (r: Option<&CollectionResult<Vec<u8>>>)
        ensures
            (match find_entry(self.index_seq(), key@) {
                Some(c) => r matches Some(v) && *v == c.contents,
                None => r is None,
            }),
    {
        proof {
            assert(self.index_seq().subrange(0, self.index_seq().len() as int)
                =~= self.index_seq());
        }
        let mut i: usize = 0;
        while i < self.index_entries.len()
            invariant
                i <= self.index_seq().len(),
                find_entry(self.index_seq(), key@) == find_entry(
                    self.index_seq().subrange(i as int, self.index_seq().len() as int),
                    key@,
                ),
            decreases self.index_seq().len() - i,
        {
            proof {
                let rest = self.index_seq().subrange(i as int, self.index_seq().len() as int);
                assert(rest[0] == self.index_seq()[i as int]);
                assert(rest.drop_first() =~= self.index_seq().subrange(
                    i + 1,
                    self.index_seq().len() as int,
                ));
            }
            if self.index_entries[i].key.same_key(key) {
                return Some(&self.index_entries[i].contents);
            }
            i = i + 1;
        }
        None
    }

    /// Looks the record under `key` up in the measurement namespace.
    pub fn get_measurement(&self, key: &measurement::Key) -> (r: Option<
        &CollectionResult<Estimates>,
    >)
        ensures
            (match find_entry(self.measurement_seq(), key@) {
                Some(c) => r matches Some(v) && *v == c.contents,
                None => r is None,
            }),
    {
        proof {
            assert(self.measurement_seq().subrange(0, self.measurement_seq().len() as int)
                =~= self.measurement_seq());
        }
        let mut i: usize = 0;
        while i < self.measurement_entries.len()
            invariant
                i <= self.measurement_seq().len(),
                find_entry(self.measurement_seq(), key@) == find_entry(
                    self.measurement_seq().subrange(i as int, self.measurement_seq().len() as int),
                    key@,
                ),
            decreases self.measurement_seq().len() - i,
        {
            proof {
                let rest = self.measurement_seq().subrange(
                    i as int,
                    self.measurement_seq().len() as int,
                );
                assert(rest[0] == self.measurement_seq()[i as int]);
                assert(rest.drop_first() =~= self.measurement_seq().subrange(
                    i + 1,
                    self.measurement_seq().len() as int,
                ));
            }
            if self.measurement_entries[i].key.same_key(key) {
                return Some(&self.measurement_entries[i].contents);
            }
            i = i + 1;
        }
        None
    }

    /// Stores a build-identity container and hands back the file path the
    /// embedder must persist it at.
    pub fn store_index_container(
        &mut self,
        c: Container<index::Key, CollectionResult<Vec<u8>>>,
    ) -> (path: String)
        ensures
            final(self).index_seq() == set_entry(old(self).index_seq(), c),
            final(self).measurement_seq() == old(self).measurement_seq(),
            final(self).spec_data_dir() == old(self).spec_data_dir(),
            path@ == spec_abs_path(&c.key, old(self).spec_data_dir()),
    {
        let path = c.key.abs_path(self.data_dir.as_str());
        let ghost orig = self.index_entries@;
        let mut at: Option<usize> = None;
        let mut i: usize = 0;
        while i < self.index_entries.len()
            invariant
                self.index_entries@ == orig,
                i <= orig.len(),
                at is None ==> forall|j: int| 0 <= j < i ==> orig[j].key@ != c.key@,
                at matches Some(p) ==> p < i && orig[p as int].key@ == c.key@ && forall|j: int|
                    0 <= j < p ==> orig[j].key@ != c.key@,
            decreases orig.len() - i,
        {
            if at.is_none() && self.index_entries[i].key.same_key(&c.key) {
                at = Some(i);
            }
            i = i + 1;
        }
        match at {
            Some(p) => {
                proof {
                    lemma_set_entry_update(orig, c, p as int);
                }
                self.index_entries[p] = c;
            },
            None => {
                self.index_entries.push(c);
                proof {
                    lemma_set_entry_push(orig, c);
                }
            },
        }
        path
    }

    /// Stores a measurement container and hands back the file path the
    /// embedder must persist it at.
    pub fn store_measurement_container(
        &mut self,
        c: Container<measurement::Key, CollectionResult<Estimates>>,
    ) -> (path: String)
        ensures
            final(self).measurement_seq() == set_entry(old(self).measurement_seq(), c),
            final(self).index_seq() == old(self).index_seq(),
            final(self).spec_data_dir() == old(self).spec_data_dir(),
            path@ == spec_abs_path(&c.key, old(self).spec_data_dir()),
    {
        let path = c.key.abs_path(self.data_dir.as_str());
        let ghost orig = self.measurement_entries@;
        let mut at: Option<usize> = None;
        let mut i: usize = 0;
        while i < self.measurement_entries.len()
            invariant
                self.measurement_entries@ == orig,
                i <= orig.len(),
                at is None ==> forall|j: int| 0 <= j < i ==> orig[j].key@ != c.key@,
                at matches Some(p) ==> p < i && orig[p as int].key@ == c.key@ && forall|j: int|
                    0 <= j < p ==> orig[j].key@ != c.key@,
            decreases orig.len() - i,
        {
            if at.is_none() && self.measurement_entries[i].key.same_key(&c.key) {
                at = Some(i);
            }
            i = i + 1;
        }
        match at {
            Some(p) => {
                proof {
                    lemma_set_entry_update(orig, c, p as int);
                }
                self.measurement_entries[p] = c;
            },
            None => {
                self.measurement_entries.push(c);
                proof {
                    lemma_set_entry_push(orig, c);
                }
            },
        }
        path
    }

    /// Stores a payload under `key` in the build-identity namespace,
    /// stamped `generated_at`, and hands back the file path to persist.
    pub fn set_index(
        &mut self,
        key: index::Key,
        contents: CollectionResult<Vec<u8>>,
        generated_at: i64,
    ) -> (path: String)
        ensures
            final(self).index_seq() == set_entry(
                old(self).index_seq(),
                (Container { generated_at, key, contents }),
            ),
            final(self).measurement_seq() == old(self).measurement_seq(),
            final(self).spec_data_dir() == old(self).spec_data_dir(),
            path@ == spec_abs_path(&key, old(self).spec_data_dir()),
    {
        self.store_index_container(Container { generated_at, key, contents })
    }

    /// Stores a payload under `key` in the measurement namespace, stamped
    /// `generated_at`, and hands back the file path to persist.
    pub fn set_measurement(
        &mut self,
        key: measurement::Key,
        contents: CollectionResult<Estimates>,
        generated_at: i64,
    ) -> (path: String)
        ensures
            final(self).measurement_seq() == set_entry(
                old(self).measurement_seq(),
                (Container { generated_at, key, contents }),
            ),
            final(self).index_seq() == old(self).index_seq(),
            final(self).spec_data_dir() == old(self).spec_data_dir(),
            path@ == spec_abs_path(&key, old(self).spec_data_dir()),
    {
        self.store_measurement_container(Container { generated_at, key, contents })
    }
}

/// Whether an index record names a binary whose build succeeded and whose
/// bytes have a successfully measured record — the condition under which
/// the record contributes to a benchmark's series.
pub open spec fn has_measured_ok(
    idx: Container<index::Key, CollectionResult<Vec<u8>>>,
    meas: Seq<Container<measurement::Key, CollectionResult<Estimates>>>,
) -> bool {
    match idx.contents {
        Ok(h) => (match meas_for_hash(meas, h@) {
            Some(c) => c.contents is Ok,
            None => false,
        }),
        Err(_) => false,
    }
}

/// One point of a joined benchmark series: which benchmark, which
/// toolchain built it, and the measured table of the binary that build
/// produced.
pub struct SeriesEntryV {
    pub bench: Seq<char>,
    pub toolchain: Option<Seq<char>>,
    pub hash: Seq<u8>,
    pub estimates: Seq<(Seq<char>, crate::estimates::Statistic)>,
}

/// The name of an optional toolchain.
pub open spec fn tc_view(t: Option<Toolchain>) -> Option<Seq<char>> {
    match t {
        Some(x) => Some(x@),
        None => None,
    }
}

/// The series point one measured-ok index record yields: its benchmark and
/// toolchain, and the successfully measured table of its binary.
pub open spec fn spec_entry_of(
    c: Container<index::Key, CollectionResult<Vec<u8>>>,
    meas: Seq<Container<measurement::Key, CollectionResult<Estimates>>>,
) -> SeriesEntryV {
    SeriesEntryV {
        bench: c.key@.benchmark_key,
        toolchain: c.key@.toolchain,
        hash: (match c.contents {
            Ok(h) => h@,
            Err(_) => Seq::empty(),
        }),
        estimates: (match c.contents {
            Ok(h) => (match meas_for_hash(meas, h@) {
                Some(m) => (match m.contents {
                    Ok(t) => crate::collect_result::est_deep(t@),
                    Err(_) => Seq::empty(),
                }),
                None => Seq::empty(),
            }),
            Err(_) => Seq::empty(),
        }),
    }
}

/// Every series point the store's two namespaces join to, in index-record
/// order: one per index record whose build succeeded and whose binary has a
/// successfully measured record.
pub open spec fn spec_store_series(
    idx: Seq<Container<index::Key, CollectionResult<Vec<u8>>>>,
    meas: Seq<Container<measurement::Key, CollectionResult<Estimates>>>,
) -> Seq<SeriesEntryV>
    decreases idx.len(),
{
    if idx.len() == 0 {
        Seq::empty()
    } else if has_measured_ok(idx.last(), meas) {
        spec_store_series(idx.drop_last(), meas) + seq![spec_entry_of(idx.last(), meas)]
    } else {
        spec_store_series(idx.drop_last(), meas)
    }
}

/// The points that belong to the benchmark named `bench`, in series order.
pub open spec fn spec_series_for(s: Seq<SeriesEntryV>, bench: Seq<char>) -> Seq<SeriesEntryV>
    decreases s.len(),
{
    if s.len() == 0 {
        Seq::empty()
    } else if s.last().bench == bench {
        spec_series_for(s.drop_last(), bench) + seq![s.last()]
    } else {
        spec_series_for(s.drop_last(), bench)
    }
}

/// One group's entries as series points under the group's benchmark name.
pub open spec fn grouped_series_views(
    bench: Seq<char>,
    s: Seq<(Option<Toolchain>, Vec<u8>, Estimates)>,
) -> Seq<SeriesEntryV> {
    s.map_values(
        |e: (Option<Toolchain>, Vec<u8>, Estimates)|
            SeriesEntryV {
                bench,
                toolchain: tc_view(e.0),
                hash: e.1@,
                estimates: crate::collect_result::est_deep(e.2@),
            },
    )
}

/// The joined entries of a whole first phase, before grouping.
pub open spec fn flat_series_views(
    s: Seq<(String, Option<Toolchain>, Vec<u8>, Estimates)>,
) -> Seq<SeriesEntryV> {
    s.map_values(
        |e: (String, Option<Toolchain>, Vec<u8>, Estimates)|
            SeriesEntryV {
                bench: e.0@,
                toolchain: tc_view(e.1),
                hash: e.2@,
                estimates: crate::collect_result::est_deep(e.3@),
            },
    )
}

/// Whether some group carries the benchmark named `bench`.
pub open spec fn has_series_group(
    groups: Seq<(String, Vec<(Option<Toolchain>, Vec<u8>, Estimates)>)>,
    bench: Seq<char>,
) -> bool {
    exists|g: int| 0 <= g < groups.len() && (#[trigger] groups[g]).0@ == bench
}

/// Whether some series point belongs to the benchmark named `bench`.
pub open spec fn series_names_bench(s: Seq<SeriesEntryV>, bench: Seq<char>) -> bool {
    exists|i: int| 0 <= i < s.len() && (#[trigger] s[i]).bench == bench
}

/// The last measurement record whose key holds the binary hash `h`,
/// whichever runner and shield measured it — the join `all_stored_estimates`
/// uses.
pub open spec fn meas_for_hash(
    s: Seq<Container<measurement::Key, CollectionResult<Estimates>>>,
    h: Seq<u8>,
) -> Option<Container<measurement::Key, CollectionResult<Estimates>>>
    decreases s.len(),
{
    if s.len() == 0 {
        None
    } else if s.last().key@.binary_hash == h {
        Some(s.last())
    } else {
        meas_for_hash(s.drop_last(), h)
    }
}

impl Store {
    /// Finds the last measurement record for the binary hashing to `h`.
    fn measurement_for_hash(&self, h: &Vec<u8>) -> (r: Option<&CollectionResult<Estimates>>)
        ensures
            (match meas_for_hash(self.measurement_seq(), h@) {
                Some(c) => r matches Some(v) && *v == c.contents,
                None => r is None,
            }),
    {
        let mut found: Option<usize> = None;
        let mut i: usize = 0;
        while i < self.measurement_entries.len()
            invariant
                i <= self.measurement_seq().len(),
                (match found {
                    Some(p) => p < i && self.measurement_seq()[p as int].key@.binary_hash == h@
                        && meas_for_hash(self.measurement_seq().subrange(0, i as int), h@)
                        == Some(self.measurement_seq()[p as int]),
                    None => meas_for_hash(self.measurement_seq().subrange(0, i as int), h@)
                        is None,
                }),
            decreases self.measurement_seq().len() - i,
        {
            proof {
                let pre = self.measurement_seq().subrange(0, i as int);
                let post = self.measurement_seq().subrange(0, i + 1);
                assert(post.drop_last() =~= pre);
                assert(post.last() == self.measurement_seq()[i as int]);
            }
            let mut j: usize = 0;
            let mut same = self.measurement_entries[i].key.binary_hash.len() == h.len();
            while j < h.len() && same
                invariant
                    i < self.measurement_seq().len(),
                    j <= h@.len(),
                    same ==> self.measurement_seq()[i as int].key@.binary_hash.len()
                        == h@.len(),
                    same ==> forall|k: int|
                        0 <= k < j ==> self.measurement_seq()[i as int].key@.binary_hash[k]
                            == h@[k],
                    !same ==> self.measurement_seq()[i as int].key@.binary_hash != h@,
                decreases h@.len() - j,
            {
                if self.measurement_entries[i].key.binary_hash[j] != h[j] {
                    same = false;
                }
                j = j + 1;
            }
            proof {
                if same {
                    assert(self.measurement_seq()[i as int].key@.binary_hash =~= h@);
                }
            }
            if same {
                found = Some(i);
            }
            i = i + 1;
        }
        proof {
            assert(self.measurement_seq().subrange(0, self.measurement_seq().len() as int)
                =~= self.measurement_seq());
        }
        match found {
            Some(p) => Some(&self.measurement_entries[p].contents),
            None => None,
        }
    }

    /// Joins the two namespaces: for every build identity whose build
    /// succeeded and whose binary has a successfully measured record, one
    /// point of that benchmark's series, grouped per benchmark key in order
    /// of first appearance.  Group keys are distinct, each group holds
    /// exactly its benchmark's series points in store order, and every
    /// joined point lands in a group.
    #[verifier::rlimit(40)]
    pub fn all_stored_estimates(&self) -> (r: Vec<
        (String, Vec<(Option<Toolchain>, Vec<u8>, Estimates)>),
    >)
        ensures
            forall|a: int, b: int|
                0 <= a < b < r@.len() ==> (#[trigger] r@[a]).0@ != (#[trigger] r@[b]).0@,
            forall|g: int|
                0 <= g < r@.len() ==> grouped_series_views((#[trigger] r@[g]).0@, r@[g].1@)
                    == spec_series_for(
                    spec_store_series(self.index_seq(), self.measurement_seq()),
                    r@[g].0@,
                ),
            forall|i: int|
                0 <= i < spec_store_series(self.index_seq(), self.measurement_seq()).len()
                    ==> #[trigger] has_series_group(
                    r@,
                    spec_store_series(self.index_seq(), self.measurement_seq())[i].bench,
                ),
            forall|g: int|
                0 <= g < r@.len() ==> series_names_bench(
                    spec_store_series(self.index_seq(), self.measurement_seq()),
                    (#[trigger] r@[g]).0@,
                ),
    {
        let ghost points = spec_store_series(self.index_seq(), self.measurement_seq());
        let mut flat: Vec<(String, Option<Toolchain>, Vec<u8>, Estimates)> = Vec::new();
        let mut i: usize = 0;
        proof {
            assert(flat_series_views(flat@) =~= spec_store_series(
                self.index_seq().subrange(0, 0),
                self.measurement_seq(),
            ));
        }
        while i < self.index_entries.len()
            invariant
                i <= self.index_seq().len(),
                flat_series_views(flat@) == spec_store_series(
                    self.index_seq().subrange(0, i as int),
                    self.measurement_seq(),
                ),
            decreases self.index_seq().len() - i,
        {
            proof {
                let pre = self.index_seq().subrange(0, i as int);
                let post = self.index_seq().subrange(0, i + 1);
                assert(post.drop_last() =~= pre);
                assert(post.last() == self.index_seq()[i as int]);
            }
            let entry = &self.index_entries[i];
            match &entry.contents {
                Ok(h) => {
                    match self.measurement_for_hash(h) {
                        Some(m) => match m {
                            Ok(est) => {
                                let tc = match &entry.key.toolchain {
                                    Some(t) => Some(t.clone()),
                                    None => None,
                                };
                                let copied = crate::estimates::estimates_clone(est);
                                proof {
                                    assert(crate::collect_result::est_deep(copied@)
                                        =~= crate::collect_result::est_deep(est@));
                                }
                                let hash = crate::hashing::bytes_clone(h);
                                flat.push((entry.key.benchmark_key.clone(), tc, hash, copied));
                                proof {
                                    assert(flat_series_views(flat@)[flat@.len() - 1]
                                        =~= spec_entry_of(
                                        self.index_seq()[i as int],
                                        self.measurement_seq(),
                                    ));
                                    assert(flat_series_views(flat@) =~= flat_series_views(
                                        flat@.drop_last(),
                                    ) + seq![flat_series_views(flat@)[flat@.len() - 1]]);
                                }
                            },
                            Err(_) => {},
                        },
                        None => {},
                    }
                },
                Err(_) => {},
            }
            i = i + 1;
        }
        proof {
            assert(self.index_seq().subrange(0, self.index_seq().len() as int)
                =~= self.index_seq());
            assert(points.len() == flat@.len());
        }
        // each benchmark key once, in order of first appearance; one witness
        // per key and one per joined point
        let mut keys: Vec<String> = Vec::new();
        let ghost mut kwit: Seq<int> = Seq::empty();
        let ghost mut cwit: Seq<int> = Seq::empty();
        let mut f: usize = 0;
        while f < flat.len()
            invariant
                f <= flat@.len(),
                points == flat_series_views(flat@),
                points == spec_store_series(self.index_seq(), self.measurement_seq()),
                forall|a: int, b: int|
                    0 <= a < b < keys@.len() ==> (#[trigger] keys@[a])@ != (#[trigger] keys@[b])@,
                kwit.len() == keys@.len(),
                forall|k: int|
                    #![trigger kwit[k]]
                    0 <= k < keys@.len() ==> 0 <= kwit[k] < f && points[kwit[k]].bench
                        == keys@[k]@,
                cwit.len() == f,
                forall|c: int|
                    #![trigger cwit[c]]
                    0 <= c < f ==> 0 <= cwit[c] < keys@.len() && keys@[cwit[c]]@
                        == points[c].bench,
            decreases flat@.len() - f,
        {
            let ghost keys0 = keys@;
            let bench = &flat[f].0;
            proof {
                assert(points[f as int] == flat_series_views(flat@)[f as int]);
            }
            let mut found: Option<usize> = None;
            let mut a: usize = 0;
            while a < keys.len()
                invariant
                    a <= keys@.len(),
                    (match found {
                        Some(p) => p < keys@.len() && keys@[p as int]@ == bench@,
                        None => forall|b: int| 0 <= b < a ==> (#[trigger] keys@[b])@ != bench@,
                    }),
                decreases keys@.len() - a,
            {
                if found.is_none() && crate::textfmt::str_eq(keys[a].as_str(), bench.as_str()) {
                    found = Some(a);
                }
                a = a + 1;
            }
            match found {
                Some(p) => {
                    proof {
                        cwit = cwit.push(p as int);
                    }
                },
                None => {
                    keys.push(bench.clone());
                    proof {
                        kwit = kwit.push(f as int);
                        cwit = cwit.push(keys@.len() - 1);
                        assert(keys@.last()@ == points[f as int].bench);
                        assert forall|x: int, y: int|
                            0 <= x < y < keys@.len() implies (#[trigger] keys@[x])@ != (
                        #[trigger] keys@[y])@ by {
                            if y < keys0.len() {
                            } else {
                                assert(keys@[y]@ == bench@);
                                assert(keys@[x] == keys0[x]);
                            }
                        }
                    }
                },
            }
            f = f + 1;
        }
        // one group per key, holding exactly that benchmark's points
        let mut groups: Vec<(String, Vec<(Option<Toolchain>, Vec<u8>, Estimates)>)> = Vec::new();
        let mut g: usize = 0;
        while g < keys.len()
            invariant
                g <= keys@.len(),
                points == flat_series_views(flat@),
                points == spec_store_series(self.index_seq(), self.measurement_seq()),
                kwit.len() == keys@.len(),
                forall|k: int|
                    #![trigger kwit[k]]
                    0 <= k < keys@.len() ==> 0 <= kwit[k] < points.len() && points[
                        kwit[k]].bench == keys@[k]@,
                cwit.len() == points.len(),
                forall|c: int|
                    #![trigger cwit[c]]
                    0 <= c < points.len() ==> 0 <= cwit[c] < keys@.len() && keys@[cwit[c]]@
                        == points[c].bench,
                forall|a: int, b: int|
                    0 <= a < b < keys@.len() ==> (#[trigger] keys@[a])@ != (#[trigger] keys@[b])@,
                groups@.len() == g,
                forall|k: int| 0 <= k < g ==> (#[trigger] groups@[k]).0@ == keys@[k]@,
                forall|k: int|
                    0 <= k < g ==> grouped_series_views(
                        (#[trigger] groups@[k]).0@,
                        groups@[k].1@,
                    ) == spec_series_for(points, groups@[k].0@),
            decreases keys@.len() - g,
        {
            let key = &keys[g];
            let mut series: Vec<(Option<Toolchain>, Vec<u8>, Estimates)> = Vec::new();
            let mut j: usize = 0;
            proof {
                assert(grouped_series_views(key@, series@) =~= spec_series_for(
                    points.subrange(0, 0),
                    key@,
                ));
            }
            while j < flat.len()
                invariant
                    j <= flat@.len(),
                    points == flat_series_views(flat@),
                    grouped_series_views(key@, series@) == spec_series_for(
                        points.subrange(0, j as int),
                        key@,
                    ),
                decreases flat@.len() - j,
            {
                proof {
                    assert(points.subrange(0, j + 1).drop_last() =~= points.subrange(
                        0,
                        j as int,
                    ));
                    assert(points.subrange(0, j + 1).last() == points[j as int]);
                    assert(points[j as int] == flat_series_views(flat@)[j as int]);
                }
                if crate::textfmt::str_eq(flat[j].0.as_str(), key.as_str()) {
                    let tc = match &flat[j].1 {
                        Some(t) => Some(t.clone()),
                        None => None,
                    };
                    let hash = crate::hashing::bytes_clone(&flat[j].2);
                    let copied = crate::estimates::estimates_clone(&flat[j].3);
                    proof {
                        assert(crate::collect_result::est_deep(copied@)
                            =~= crate::collect_result::est_deep(flat@[j as int].3@));
                    }
                    series.push((tc, hash, copied));
                    proof {
                        assert(grouped_series_views(key@, series@)[series@.len() - 1]
                            =~= points[j as int]);
                        assert(grouped_series_views(key@, series@) =~= grouped_series_views(
                            key@,
                            series@.drop_last(),
                        ) + seq![grouped_series_views(key@, series@)[series@.len() - 1]]);
                    }
                }
                j = j + 1;
            }
            proof {
                assert(points.subrange(0, points.len() as int) =~= points);
            }
            groups.push((key.clone(), series));
            g = g + 1;
        }
        let result = groups;
        proof {
            assert forall|i: int|
                0 <= i < spec_store_series(self.index_seq(), self.measurement_seq()).len()
                implies #[trigger] has_series_group(
                result@,
                spec_store_series(self.index_seq(), self.measurement_seq())[i].bench,
            ) by {
                assert(points[i] == spec_store_series(
                    self.index_seq(),
                    self.measurement_seq(),
                )[i]);
                assert(0 <= cwit[i] < result@.len());
                assert(result@[cwit[i]].0@ == keys@[cwit[i]]@);
                assert(result@[cwit[i]].0@ == spec_store_series(
                    self.index_seq(),
                    self.measurement_seq(),
                )[i].bench);
            }
            assert forall|gr: int|
                0 <= gr < result@.len() implies series_names_bench(
                spec_store_series(self.index_seq(), self.measurement_seq()),
                (#[trigger] result@[gr]).0@,
            ) by {
                assert(result@[gr].0@ == keys@[gr]@);
                assert(0 <= kwit[gr] < points.len());
                assert(points[kwit[gr]].bench == keys@[gr]@);
                assert(spec_store_series(self.index_seq(), self.measurement_seq())[kwit[gr]]
                    == points[kwit[gr]]);
            }
        }
        result
    }
}

impl Store {
    /// Persists an index payload that was computed just now, stamped
    /// `generated_at`, and hands back the file path to write; an already
    /// stored payload needs nothing.
    pub fn ensure_index_persisted(
        &mut self,
        entry: Entry<index::Key, CollectionResult<Vec<u8>>>,
        generated_at: i64,
    ) -> (path: Option<String>)
        ensures
            (match entry {
                Entry::New(key, contents) => final(self).index_seq() == set_entry(
                    old(self).index_seq(),
                    (Container { generated_at, key, contents }),
                ) && (path matches Some(p) && p@ == spec_abs_path(
                    &key,
                    old(self).spec_data_dir(),
                )),
                Entry::Existing(_) => final(self).index_seq() == old(self).index_seq() && path
                    is None,
            }),
            final(self).measurement_seq() == old(self).measurement_seq(),
            final(self).spec_data_dir() == old(self).spec_data_dir(),
    {
        match entry {
            Entry::New(key, contents) => Some(self.set_index(key, contents, generated_at)),
            Entry::Existing(_) => None,
        }
    }

    /// Persists a measurement payload that was computed just now, stamped
    /// `generated_at`, and hands back the file path to write; an already
    /// stored payload needs nothing.
    pub fn ensure_measurement_persisted(
        &mut self,
        entry: Entry<measurement::Key, CollectionResult<Estimates>>,
        generated_at: i64,
    ) -> (path: Option<String>)
        ensures
            (match entry {
                Entry::New(key, contents) => final(self).measurement_seq() == set_entry(
                    old(self).measurement_seq(),
                    (Container { generated_at, key, contents }),
                ) && (path matches Some(p) && p@ == spec_abs_path(
                    &key,
                    old(self).spec_data_dir(),
                )),
                Entry::Existing(_) => final(self).measurement_seq() == old(
                    self,
                ).measurement_seq() && path is None,
            }),
            final(self).index_seq() == old(self).index_seq(),
            final(self).spec_data_dir() == old(self).spec_data_dir(),
    {
        match entry {
            Entry::New(key, contents) => Some(self.set_measurement(key, contents, generated_at)),
            Entry::Existing(_) => None,
        }
    }
}

/// The seconds of UTC time right now, for record generation stamps.
///
/// Relies on `chrono::Utc::now`: the result depends on the wall clock, so
/// nothing is promised of it.
#[verifier::external_body]
pub fn utc_now_seconds() -> i64 {
    chrono::Utc::now().timestamp()
}

/// Appending a record with a fresh key is the same as storing it.
proof fn lemma_set_entry_push<K: View, V>(s: Seq<Container<K, V>>, c: Container<K, V>)
    requires
        forall|j: int| 0 <= j < s.len() ==> s[j].key@ != c.key@,
    ensures
        set_entry(s, c) =~= s.push(c),
    decreases s.len(),
{
    if s.len() > 0 {
        assert forall|j: int| 0 <= j < s.drop_first().len() implies s.drop_first()[j].key@
            != c.key@ by {
            assert(s.drop_first()[j] == s[j + 1]);
        }
        lemma_set_entry_push(s.drop_first(), c);
        assert(set_entry(s, c) =~= seq![s[0]] + s.drop_first().push(c));
        assert(seq![s[0]] + s.drop_first().push(c) =~= s.push(c));
    }
}

} // verus!
