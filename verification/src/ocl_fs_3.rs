//! A file layer over memory blocks: each path is mapped to the key of the global
//! array that holds the file's bytes.
use vstd::prelude::*;
use crate::error::OpenclError;
use crate::ocl_v7::{
    has_key, key_count, keys_readable, spec_next_key, str_eq, MemoryBlock, MemoryBlockMap,
    MemoryBlockSummary,
};

verus! {

/// Paths and their values, in insertion order.
pub type PathSeq<V> = Seq<(Seq<char>, V)>;

/// The value stored under `path`, if any.
pub open spec fn path_lookup<V>(m: PathSeq<V>, path: Seq<char>) -> Option<V> {
    if exists|i: int| 0 <= i < m.len() && m[i].0 == path {
        Some(m[choose|i: int| 0 <= i < m.len() && m[i].0 == path].1)
    } else {
        None
    }
}

/// A map from paths to values; no path occurs twice.
#[derive(Debug)]
pub struct PathMap<V> {
    entries: Vec<(String, V)>,
}

impl<V> View for PathMap<V> {
    type V = PathSeq<V>;

    closed spec fn view(&self) -> PathSeq<V> {
        Seq::new(self.entries@.len(), |i: int| (self.entries@[i].0@, self.entries@[i].1))
    }
}

impl<V> PathMap<V> {
    #[verifier::type_invariant]
    spec fn unique(&self) -> bool {
        forall|a: int, b: int| 0 <= a < b < self@.len() ==> self@[a].0 != self@[b].0
    }

    /// A map with no paths.
    pub fn new() -> (m: Self)
        ensures
            m@ == Seq::<(Seq<char>, V)>::empty(),
    {
        let m = PathMap { entries: Vec::new() };
        assert(m@ =~= Seq::<(Seq<char>, V)>::empty());
        m
    }

    /// Number of paths.
    pub fn len(&self) -> (n: usize)
        ensures
            n == self@.len(),
    {
        self.entries.len()
    }

    /// Path at position `i`.
    pub fn path_at(&self, i: usize) -> (p: &str)
        requires
            i < self@.len(),
        ensures
            p@ == self@[i as int].0,
    {
        self.entries[i].0.as_str()
    }

    /// Value at position `i`.
    pub fn value_at(&self, i: usize) -> (v: &V)
        requires
            i < self@.len(),
        ensures
            *v == self@[i as int].1,
    {
        &self.entries[i].1
    }

    fn position(&self, path: &str) -> (r: Option<usize>)
        ensures
            match r {
                Some(i) => i < self@.len() && self@[i as int].0 == path@ && path_lookup(self@, path@)
                    == Some(self@[i as int].1),
                None => path_lookup(self@, path@) == None::<V>,
            },
    {
        proof {
            use_type_invariant(self);
        }
        let mut i: usize = 0;
        while i < self.entries.len()
            invariant
                i <= self@.len(),
                self@.len() == self.entries@.len(),
                forall|a: int, b: int| 0 <= a < b < self@.len() ==> self@[a].0 != self@[b].0,
                forall|j: int| 0 <= j < i ==> self@[j].0 != path@,
            decreases self@.len() - i,
        {
            if str_eq(self.entries[i].0.as_str(), path) {
                proof {
                    assert(self@[i as int].0 == path@);
                    let p = choose|k: int| 0 <= k < self@.len() && self@[k].0 == path@;
                    if p != i as int {
                        if p > i as int {
                            assert(self@[i as int].0 != self@[p].0);
                        }
                    }
                }
                return Some(i);
            }
            i = i + 1;
        }
        None
    }

    /// The value stored under `path`.
    pub fn get(&self, path: &str) -> (r: Option<&V>)
        ensures
            match r {
                Some(v) => path_lookup(self@, path@) == Some(*v),
                None => path_lookup(self@, path@) == None::<V>,
            },
    {
        match self.position(path) {
            Some(i) => Some(&self.entries[i].1),
            None => None,
        }
    }

    /// Stores `v` under `path`, replacing any earlier value.
    pub fn insert(&mut self, path: &str, v: V)
        ensures
            path_lookup(final(self)@, path@) == Some(v),
            forall|p: Seq<char>| p != path@ ==> path_lookup(final(self)@, p) == path_lookup(old(self)@, p),
            final(self)@.len() == old(self)@.len() + if path_lookup(old(self)@, path@) is Some { 0int } else { 1int },
    {
        proof {
            use_type_invariant(&*self);
        }
        let ghost before = self@;
        let pos = self.position(path);
        let mut entries: Vec<(String, V)> = Vec::new();
        std::mem::swap(&mut entries, &mut self.entries);
        match pos {
            Some(i) => {
                entries.set(i, (path.to_string(), v));
            },
            None => {
                entries.push((path.to_string(), v));
            },
        }
        let ghost after = Seq::new(entries@.len(), |k: int| (entries@[k].0@, entries@[k].1));
        proof {
            match pos {
                Some(i) => {
                    assert(after =~= before.update(i as int, (path@, v)));
                },
                None => {
                    assert(after =~= before.push((path@, v)));
                    assert forall|k: int| 0 <= k < before.len() implies before[k].0 != path@ by {}
                },
            }
            assert forall|a: int, b: int| 0 <= a < b < after.len() implies after[a].0 != after[b].0 by {
                match pos {
                    Some(i) => {
                        if a == i as int {
                            assert(before[a].0 == path@);
                        }
                        if b == i as int {
                            assert(before[b].0 == path@);
                        }
                    },
                    None => {},
                }
            }
            assert(exists|k: int| 0 <= k < after.len() && after[k].0 == path@) by {
                match pos {
                    Some(i) => assert(after[i as int].0 == path@),
                    None => assert(after[before.len() as int].0 == path@),
                }
            }
            let w = choose|k: int| 0 <= k < after.len() && after[k].0 == path@;
            match pos {
                Some(i) => {
                    if w != i as int {
                        if w < i as int {
                            assert(after[w].0 != after[i as int].0);
                        } else {
                            assert(after[i as int].0 != after[w].0);
                        }
                    }
                },
                None => {
                    if w != before.len() as int {
                        assert(after[w].0 != after[before.len() as int].0);
                    }
                },
            }
            assert forall|p: Seq<char>| p != path@ implies path_lookup(after, p) == path_lookup(before, p) by {
                if exists|k: int| 0 <= k < before.len() && before[k].0 == p {
                    let k = choose|k: int| 0 <= k < before.len() && before[k].0 == p;
                    assert(after[k].0 == p);
                    let k2 = choose|k: int| 0 <= k < after.len() && after[k].0 == p;
                    if k2 != k {
                        if k2 < k {
                            assert(after[k2].0 != after[k].0);
                        } else {
                            assert(after[k].0 != after[k2].0);
                        }
                    }
                    assert(after[k] == before[k]);
                }
                if exists|k: int| 0 <= k < after.len() && after[k].0 == p {
                    let k = choose|k: int| 0 <= k < after.len() && after[k].0 == p;
                    assert(k < before.len());
                    assert(before[k].0 == p);
                }
            }
        }
        self.entries = entries;
    }
}

/// Why a file operation failed.
#[derive(Debug, Clone, Copy, PartialEq, Eq, Structural)]
pub enum FileError {
    /// No file is stored under the path.
    NotFound,
    /// The memory block refused the request.
    OpenCl(OpenclError),
}

/// Keys of the files, by path.
pub type FileCacheMap = PathMap<String>;

/// Key views of the files, by path.
pub open spec fn cache_view(m: PathSeq<String>) -> PathSeq<Seq<char>> {
    Seq::new(m.len(), |i: int| (m[i].0, m[i].1@))
}

/// The key opening `path` gives: the cached key, if that key is still handed out.
pub open spec fn opened_key(cache: PathSeq<Seq<char>>, keys: crate::ocl_v7::KeySeq, path: Seq<char>) -> Option<Seq<char>> {
    match path_lookup(cache, path) {
        Some(k) => if has_key(keys, k) {
            Some(k)
        } else {
            None
        },
        None => None,
    }
}

/// The path-to-key cache of the file layer.
#[derive(Debug)]
pub struct OclFs {
    pub cache: FileCacheMap,
}

/// An open file: the key of the global array that holds it.
#[derive(Debug, Clone)]
pub struct OclFile {
    key: String,
}

impl OclFile {
    /// The key of the global array that holds the file.
    pub fn key(&self) -> (k: &String)
        ensures
            k@ == self.spec_key(),
    {
        &self.key
    }

    /// The key of the global array that holds the file.
    pub closed spec fn spec_key(&self) -> Seq<char> {
        self.key@
    }
}

/// Lookups of equal paths in the key cache agree with those of its key view.
proof fn lemma_cache_view_lookup(m: PathSeq<String>, path: Seq<char>)
    requires
        forall|a: int, b: int| 0 <= a < b < m.len() ==> m[a].0 != m[b].0,
    ensures
        path_lookup(cache_view(m), path) == match path_lookup(m, path) {
            Some(k) => Some(k@),
            None => None::<Seq<char>>,
        },
{
    let c = cache_view(m);
    if exists|i: int| 0 <= i < m.len() && m[i].0 == path {
        let i = choose|i: int| 0 <= i < m.len() && m[i].0 == path;
        assert(c[i].0 == path);
    }
    if exists|i: int| 0 <= i < c.len() && c[i].0 == path {
        let i = choose|i: int| 0 <= i < c.len() && c[i].0 == path;
        assert(m[i].0 == path);
    }
    if exists|i: int| 0 <= i < m.len() && m[i].0 == path {
        let i = choose|i: int| 0 <= i < m.len() && m[i].0 == path;
        let j = choose|i: int| 0 <= i < c.len() && c[i].0 == path;
        assert(c[j].0 == m[j].0);
        if i != j {
            if i < j {
                assert(m[i].0 != m[j].0);
            } else {
                assert(m[j].0 != m[i].0);
            }
        }
        assert(c[i] == (m[i].0, m[i].1@));
    }
}

impl OclFs {
    /// A file layer with no files.
    pub fn new() -> (fs: Self)
        ensures
            fs.cache@ == Seq::<(Seq<char>, String)>::empty(),
    {
        OclFs { cache: PathMap::new() }
    }

    /// The key of the file at `path`, if it is cached and its key is still handed out.
    pub fn open_key(&self, path: &str, memory_map: &MemoryBlockMap) -> (r: Option<String>)
        ensures
            match r {
                Some(k) => opened_key(cache_view(self.cache@), memory_map@, path@) == Some(k@),
                None => opened_key(cache_view(self.cache@), memory_map@, path@) == None::<Seq<char>>,
            },
    {
        proof {
            use_type_invariant(&self.cache);
            lemma_cache_view_lookup(self.cache@, path@);
        }
        match self.cache.get(path) {
            Some(v) => {
                if memory_map.contains_key(v.as_str()) {
                    return Some(v.clone());
                }
                None
            },
            None => None,
        }
    }

    /// Opens the file at `path`.
    pub fn open(&self, path: &str, memory_block: &MemoryBlock) -> (r: Result<OclFile, FileError>)
        ensures
            match r {
                Ok(f) => opened_key(cache_view(self.cache@), memory_block.keys(), path@) == Some(
                    f.spec_key(),
                ),
                Err(e) => e == FileError::NotFound && opened_key(
                    cache_view(self.cache@),
                    memory_block.keys(),
                    path@,
                ) == None::<Seq<char>>,
            },
    {
        match self.open_key(path, memory_block.memory_map()) {
            Some(key) => Ok(OclFile { key }),
            None => Err(FileError::NotFound),
        }
    }

    /// Hands out a key for a file of `len` bytes and caches it under `path`.
    pub fn create_key_with_len(&mut self, path: &str, len: usize, memory_block: &mut MemoryBlock) -> (r: Result<String, FileError>)
        requires
            keys_readable(old(memory_block).keys(), old(memory_block).configs()),
        ensures
            keys_readable(final(memory_block).keys(), final(memory_block).configs()),
            final(memory_block).configs() == old(memory_block).configs(),
            match r {
                Ok(k) => {
                    &&& spec_next_key(old(memory_block).keys(), old(memory_block).configs(), len as nat)
                        == Ok::<Seq<char>, OpenclError>(k@)
                    &&& final(memory_block).keys() == old(memory_block).keys().push((k@, len as u64))
                    &&& path_lookup(cache_view(final(self).cache@), path@) == Some(k@)
                    &&& forall|p: Seq<char>| p != path@ ==> path_lookup(cache_view(final(self).cache@), p)
                        == path_lookup(cache_view(old(self).cache@), p)
                },
                Err(e) => {
                    &&& spec_next_key(old(memory_block).keys(), old(memory_block).configs(), len as nat)
                        == Err::<Seq<char>, OpenclError>(match e {
                        FileError::OpenCl(x) => x,
                        FileError::NotFound => OpenclError::Other,
                    })
                    &&& e != FileError::NotFound
                    &&& final(memory_block).keys() == old(memory_block).keys()
                    &&& final(self).cache@ == old(self).cache@
                },
            },
    {
        let key = match memory_block.set_key_by_len(len) {
            Ok(k) => k,
            Err(e) => {
                return Err(FileError::OpenCl(e));
            },
        };
        let ghost old_cache = self.cache@;
        proof {
            use_type_invariant(&self.cache);
        }
        self.cache.insert(path, key.clone());
        proof {
            use_type_invariant(&self.cache);
            lemma_cache_view_lookup(self.cache@, path@);
            assert forall|p: Seq<char>| p != path@ implies path_lookup(cache_view(self.cache@), p)
                == path_lookup(cache_view(old_cache), p) by {
                lemma_cache_view_lookup(self.cache@, p);
                lemma_cache_view_lookup(old_cache, p);
            }
        }
        Ok(key)
    }

    /// Creates the file at `path` with room for `len` bytes.
    pub fn create_with_len(&mut self, path: &str, len: usize, memory_block: &mut MemoryBlock) -> (r: Result<OclFile, FileError>)
        requires
            keys_readable(old(memory_block).keys(), old(memory_block).configs()),
        ensures
            keys_readable(final(memory_block).keys(), final(memory_block).configs()),
            final(memory_block).configs() == old(memory_block).configs(),
            match r {
                Ok(f) => {
                    &&& spec_next_key(old(memory_block).keys(), old(memory_block).configs(), len as nat)
                        == Ok::<Seq<char>, OpenclError>(f.spec_key())
                    &&& final(memory_block).keys() == old(memory_block).keys().push((f.spec_key(), len as u64))
                    &&& path_lookup(cache_view(final(self).cache@), path@) == Some(f.spec_key())
                    &&& forall|p: Seq<char>| p != path@ ==> path_lookup(cache_view(final(self).cache@), p)
                        == path_lookup(cache_view(old(self).cache@), p)
                },
                Err(e) => {
                    &&& spec_next_key(old(memory_block).keys(), old(memory_block).configs(), len as nat)
                        == Err::<Seq<char>, OpenclError>(match e {
                        FileError::OpenCl(x) => x,
                        FileError::NotFound => OpenclError::Other,
                    })
                    &&& e != FileError::NotFound
                    &&& final(memory_block).keys() == old(memory_block).keys()
                    &&& final(self).cache@ == old(self).cache@
                },
            },
    {
        match self.create_key_with_len(path, len, memory_block) {
            Ok(key) => Ok(OclFile { key }),
            Err(e) => Err(e),
        }
    }
}

/// A file that was created can be opened again under its path, and opening it
/// gives the key it was created with.
pub proof fn lemma_open_after_create(
    cache: PathSeq<Seq<char>>,
    keys: crate::ocl_v7::KeySeq,
    path: Seq<char>,
    k: Seq<char>,
    len: u64,
)
    requires
        path_lookup(cache, path) == Some(k),
    ensures
        opened_key(cache, keys.push((k, len)), path) == Some(k),
{
    let m = keys.push((k, len));
    assert(m[keys.len() as int].0 == k);
}

/// A copy of the path-to-key cache.
pub fn ocl_cache_map(fs: &OclFs) -> (m: FileCacheMap)
    ensures
        cache_view(m@) == cache_view(fs.cache@),
{
    let mut m: FileCacheMap = PathMap::new();
    let n = fs.cache.len();
    proof {
        use_type_invariant(&fs.cache);
    }
    let mut i: usize = 0;
    while i < n
        invariant
            n == fs.cache@.len(),
            i <= n,
            m@.len() == i,
            forall|a: int, b: int| 0 <= a < b < n ==> fs.cache@[a].0 != fs.cache@[b].0,
            forall|k: int| 0 <= k < i ==> #[trigger] m@[k].0 == fs.cache@[k].0 && m@[k].1@ == fs.cache@[k].1@,
        decreases n - i,
    {
        let p = fs.cache.path_at(i);
        let v = fs.cache.value_at(i).clone();
        m.push_unique(p, v);
        i = i + 1;
    }
    assert(cache_view(m@) =~= cache_view(fs.cache@));
    m
}

/// Keys handed out over the first `n` block summaries.
pub open spec fn assigned_sum(s: Seq<MemoryBlockSummary>, n: nat) -> nat
    decreases n,
{
    if n == 0 || n > s.len() {
        0
    } else {
        assigned_sum(s, (n - 1) as nat) + s[n - 1].assigned as nat
    }
}

/// Keys handed out over all blocks of a summary.
pub fn assigned_total(v: &Vec<MemoryBlockSummary>) -> (t: u64)
    requires
        v@.len() > 0,
        assigned_sum(v@, v@.len()) <= u64::MAX,
    ensures
        t == assigned_sum(v@, v@.len()),
{
    let mut t: u64 = v[0].assigned;
    let mut i: usize = 1;
    assert(assigned_sum(v@, 1) == v@[0].assigned) by {
        reveal_with_fuel(assigned_sum, 2);
    }
    while i < v.len()
        invariant
            1 <= i <= v@.len(),
            t == assigned_sum(v@, i as nat),
            assigned_sum(v@, v@.len()) <= u64::MAX,
        decreases v@.len() - i,
    {
        proof {
            lemma_assigned_sum_le(v@, (i + 1) as nat, v@.len());
        }
        t = t + v[i].assigned;
        i = i + 1;
    }
    t
}

/// Sums over longer prefixes are no smaller.
proof fn lemma_assigned_sum_le(s: Seq<MemoryBlockSummary>, a: nat, b: nat)
    requires
        a <= b <= s.len(),
    ensures
        assigned_sum(s, a) <= assigned_sum(s, b),
    decreases b - a,
{
    if a < b {
        lemma_assigned_sum_le(s, a, (b - 1) as nat);
    }
}

impl<V> PathMap<V> {
    /// Appends a path that is not yet present.
    fn push_unique(&mut self, path: &str, v: V)
        requires
            forall|k: int| 0 <= k < old(self)@.len() ==> old(self)@[k].0 != path@,
        ensures
            final(self)@ == old(self)@.push((path@, v)),
    {
        proof {
            use_type_invariant(&*self);
        }
        let ghost before = self@;
        let mut entries: Vec<(String, V)> = Vec::new();
        std::mem::swap(&mut entries, &mut self.entries);
        entries.push((path.to_string(), v));
        proof {
            let after = Seq::new(entries@.len(), |k: int| (entries@[k].0@, entries@[k].1));
            assert(after =~= before.push((path@, v)));
        }
        self.entries = entries;
    }
}

} // verus!

verus! {

/// Copies the bytes read back from a file into `buf`, as many as fit, and
/// returns how many bytes the file holds.
pub fn copy_into(buf: &mut [u8], v: &[u8]) -> (n: usize)
    ensures
        n == v@.len(),
        final(buf)@.len() == old(buf)@.len(),
        forall|i: int|
            0 <= i < final(buf)@.len() ==> final(buf)@[i] == if i < v@.len() {
                v@[i]
            } else {
                old(buf)@[i]
            },
{
    let n = if buf.len() > v.len() { v.len() } else { buf.len() };
    let mut i: usize = 0;
    while i < n
        invariant
            n <= v@.len(),
            n <= buf@.len(),
            n == v@.len() || n == buf@.len(),
            i <= n,
            buf@.len() == old(buf)@.len(),
            forall|k: int| 0 <= k < i ==> buf@[k] == v@[k],
            forall|k: int| i <= k < buf@.len() ==> buf@[k] == old(buf)@[k],
        decreases n - i,
    {
        buf[i] = v[i];
        i = i + 1;
    }
    v.len()
}

/// Bytes reported written: all of them when the array took at least the
/// buffer's length, none otherwise.
pub fn written_len(stored: usize, buf_len: usize) -> (n: usize)
    ensures
        n == if stored >= buf_len { buf_len } else { 0 },
{
    if stored >= buf_len {
        return buf_len;
    }
    0
}

} // verus!
