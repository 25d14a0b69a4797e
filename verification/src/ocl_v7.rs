//! Memory blocks: named groups of equally sized global arrays, the keys that
//! hand those arrays out, and the OpenCL program that declares them.
use vstd::prelude::*;
use crate::error::{
    OpenClResult, OpenclError, INVALID_BUFFER_LEN, INVALID_GLOBAL_ARRAY_ID,
    NO_GLOBAL_VECTORS_TO_ASSIGN,
};
use crate::text::{
    chars_of, contains_chars, contains_seq, decimal, last_segment, last_segment_start,
    lemma_decimal_shape, lemma_last_segment_after_sep, lemma_last_segment_suffix, parse_u64,
    parsed_value, parses_as_u64, push_chars, push_decimal, push_str, reads_as_u64, replace_all,
    replace_chars, str_contains, string_from_chars, lemma_contains_appended, lemma_contains_mid,
    lemma_contains_trans, lemma_replace_first, lemma_replace_none,
};

verus! {

/// One kibibyte.
pub const KB_1: usize = 1024;

/// Name of the one-kibibyte block of the default configuration.
pub const KB_1_S: &'static str = "1kb";

/// One mebibyte.
pub const MB_1: usize = 1048576;

/// Name of the one-mebibyte block of the default configuration.
pub const MB_1_S: &'static str = "1mb";

/// Element count of a single vector.
pub const SIZE: usize = 1024;

/// Element count of the arrays of the smallest block.
pub const LIST_SIZE: usize = 1024;

/// Number of global arrays of the single-block layout.
pub const TOTAL_GLOBAL_ARRAY: usize = 128;

/// Capacity of a global array of the single-block layout.
pub const CAPACITY_GLOBAL_ARRAY: usize = 1024;

/// Prefix of the kernels that store a vector into a global array.
pub const VECTOR_ADD_KERNEL_NAME: &'static str = "vector_add";

/// Prefix of the kernels that copy a global array out.
pub const VECTOR_EXTRACT_KERNEL_NAME: &'static str = "vector_extract";

/// Shape of one block: how many global arrays it holds and how long each is.
#[derive(Debug, Clone, Copy, PartialEq, Eq, Structural)]
pub struct MemoryBlockConfig {
    pub global_array_capacity: usize,
    pub global_array_count: usize,
    pub negative_initial_value: bool,
}

/// Block configurations by block name, in insertion order; no name occurs twice.
#[derive(Debug)]
pub struct MemoryBlockConfigMap {
    entries: Vec<(String, MemoryBlockConfig)>,
}

/// The names and configurations of a [`MemoryBlockConfigMap`], in order.
pub type ConfigSeq = Seq<(Seq<char>, MemoryBlockConfig)>;

/// No block name occurs twice.
pub open spec fn config_names_unique(c: ConfigSeq) -> bool {
    forall|i: int, j: int| 0 <= i < j < c.len() ==> c[i].0 != c[j].0
}

/// Position of `name` in `c`, if present.
pub open spec fn config_position(c: ConfigSeq, name: Seq<char>) -> Option<int> {
    if exists|i: int| 0 <= i < c.len() && c[i].0 == name {
        Some(choose|i: int| 0 <= i < c.len() && c[i].0 == name)
    } else {
        None
    }
}

impl View for MemoryBlockConfigMap {
    type V = ConfigSeq;

    closed spec fn view(&self) -> ConfigSeq {
        Seq::new(self.entries@.len(), |i: int| (self.entries@[i].0@, self.entries@[i].1))
    }
}

impl MemoryBlockConfigMap {
    #[verifier::type_invariant]
    spec fn names_unique(&self) -> bool {
        config_names_unique(self@)
    }

    /// An empty configuration.
    pub fn new() -> (m: Self)
        ensures
            m@ == Seq::<(Seq<char>, MemoryBlockConfig)>::empty(),
    {
        let m = MemoryBlockConfigMap { entries: Vec::new() };
        assert(m@ =~= Seq::<(Seq<char>, MemoryBlockConfig)>::empty());
        m
    }

    /// Number of blocks.
    pub fn len(&self) -> (n: usize)
        ensures
            n == self@.len(),
            config_names_unique(self@),
    {
        proof {
            use_type_invariant(self);
        }
        self.entries.len()
    }

    /// Name of the block at position `i`.
    pub fn name_at(&self, i: usize) -> (s: &str)
        requires
            i < self@.len(),
        ensures
            s@ == self@[i as int].0,
    {
        self.entries[i].0.as_str()
    }

    /// Configuration of the block at position `i`.
    pub fn config_at(&self, i: usize) -> (c: &MemoryBlockConfig)
        requires
            i < self@.len(),
        ensures
            *c == self@[i as int].1,
    {
        &self.entries[i].1
    }

    /// Position of the block called `name`.
    pub fn position(&self, name: &str) -> (r: Option<usize>)
        ensures
            match r {
                Some(i) => i < self@.len() && self@[i as int].0 == name@,
                None => forall|i: int| 0 <= i < self@.len() ==> self@[i].0 != name@,
            },
    {
        let mut i: usize = 0;
        while i < self.entries.len()
            invariant
                i <= self@.len(),
                self@.len() == self.entries@.len(),
                forall|j: int| 0 <= j < i ==> self@[j].0 != name@,
            decreases self@.len() - i,
        {
            if str_eq(self.entries[i].0.as_str(), name) {
                return Some(i);
            }
            i = i + 1;
        }
        None
    }

    /// Configuration of the block called `name`.
    pub fn get(&self, name: &str) -> (r: Option<&MemoryBlockConfig>)
        ensures
            match r {
                Some(c) => exists|i: int|
                    0 <= i < self@.len() && self@[i].0 == name@ && self@[i].1 == *c,
                None => forall|i: int| 0 <= i < self@.len() ==> self@[i].0 != name@,
            },
    {
        match self.position(name) {
            Some(i) => Some(&self.entries[i].1),
            None => None,
        }
    }

    /// Sets the configuration of `name`: replaced in place when the name is
    /// present, appended otherwise.
    pub fn insert(&mut self, name: &str, config: MemoryBlockConfig)
        ensures
            match config_position(old(self)@, name@) {
                Some(i) => final(self)@ == old(self)@.update(i, (name@, config)),
                None => final(self)@ == old(self)@.push((name@, config)),
            },
    {
        proof {
            use_type_invariant(&*self);
        }
        let ghost before = self@;
        match self.position(name) {
            Some(i) => {
                let ghost idx = config_position(before, name@)->0;
                assert(idx == i as int) by {
                    if idx != i as int {
                        if idx < i as int {
                            assert(before[idx].0 != before[i as int].0);
                        } else {
                            assert(before[i as int].0 != before[idx].0);
                        }
                    }
                }
                let mut entries: Vec<(String, MemoryBlockConfig)> = Vec::new();
                std::mem::swap(&mut entries, &mut self.entries);
                entries.set(i, (name.to_string(), config));
                proof {
                    let after = Seq::new(entries@.len(), |k: int| (entries@[k].0@, entries@[k].1));
                    assert(after =~= before.update(i as int, (name@, config)));
                }
                self.entries = entries;
            },
            None => {
                let mut entries: Vec<(String, MemoryBlockConfig)> = Vec::new();
                std::mem::swap(&mut entries, &mut self.entries);
                entries.push((name.to_string(), config));
                proof {
                    let after = Seq::new(entries@.len(), |k: int| (entries@[k].0@, entries@[k].1));
                    assert(after =~= before.push((name@, config)));
                }
                self.entries = entries;
            },
        }
    }
}

/// Whether two texts are equal.
pub fn str_eq(a: &str, b: &str) -> (r: bool)
    ensures
        r == (a@ == b@),
{
    let av = chars_of(a);
    let bv = chars_of(b);
    if av.len() != bv.len() {
        return false;
    }
    let mut i: usize = 0;
    while i < av.len()
        invariant
            av@ == a@,
            bv@ == b@,
            av@.len() == bv@.len(),
            i <= av@.len(),
            forall|j: int| 0 <= j < i ==> av@[j] == bv@[j],
        decreases av@.len() - i,
    {
        if av[i] != bv[i] {
            assert(a@[i as int] != b@[i as int]);
            return false;
        }
        i = i + 1;
    }
    assert(av@ =~= bv@);
    true
}

} // verus!

verus! {

/// Assigned keys and the buffer length stored under each, in insertion order.
pub type KeySeq = Seq<(Seq<char>, u64)>;

/// No key occurs twice.
pub open spec fn keys_unique(m: KeySeq) -> bool {
    forall|i: int, j: int| 0 <= i < j < m.len() ==> m[i].0 != m[j].0
}

/// `k` is one of the keys of `m`.
pub open spec fn has_key(m: KeySeq, k: Seq<char>) -> bool {
    exists|i: int| 0 <= i < m.len() && m[i].0 == k
}

/// Position of `k` in `m` (meaningful when [`has_key`] holds).
pub open spec fn key_position(m: KeySeq, k: Seq<char>) -> int {
    choose|i: int| 0 <= i < m.len() && m[i].0 == k
}

/// The value stored under `k`, if any.
pub open spec fn lookup(m: KeySeq, k: Seq<char>) -> Option<u64> {
    if has_key(m, k) {
        Some(m[key_position(m, k)].1)
    } else {
        None
    }
}

/// `m` after storing `v` under `k`: replaced in place when `k` is present, appended otherwise.
pub open spec fn key_insert(m: KeySeq, k: Seq<char>, v: u64) -> KeySeq {
    if has_key(m, k) {
        m.update(key_position(m, k), (k, v))
    } else {
        m.push((k, v))
    }
}

/// Keys handed out by a [`MemoryBlock`], each with the length stored under it.
#[derive(Debug)]
pub struct MemoryBlockMap {
    entries: Vec<(String, u64)>,
}

impl View for MemoryBlockMap {
    type V = KeySeq;

    closed spec fn view(&self) -> KeySeq {
        Seq::new(self.entries@.len(), |i: int| (self.entries@[i].0@, self.entries@[i].1))
    }
}

impl MemoryBlockMap {
    #[verifier::type_invariant]
    spec fn unique(&self) -> bool {
        keys_unique(self@)
    }

    /// A map with no keys.
    pub fn new() -> (m: Self)
        ensures
            m@ == Seq::<(Seq<char>, u64)>::empty(),
    {
        let m = MemoryBlockMap { entries: Vec::new() };
        assert(m@ =~= Seq::<(Seq<char>, u64)>::empty());
        m
    }

    /// Number of keys.
    pub fn len(&self) -> (n: usize)
        ensures
            n == self@.len(),
            keys_unique(self@),
    {
        proof {
            use_type_invariant(self);
        }
        self.entries.len()
    }

    /// Key at position `i`.
    pub fn key_at(&self, i: usize) -> (s: &str)
        requires
            i < self@.len(),
        ensures
            s@ == self@[i as int].0,
    {
        self.entries[i].0.as_str()
    }

    /// Length stored at position `i`.
    pub fn value_at(&self, i: usize) -> (v: u64)
        requires
            i < self@.len(),
        ensures
            v == self@[i as int].1,
    {
        self.entries[i].1
    }

    /// Position of `key`, if present.
    pub fn position(&self, key: &str) -> (r: Option<usize>)
        ensures
            match r {
                Some(i) => i < self@.len() && self@[i as int].0 == key@ && key_position(self@, key@)
                    == i,
                None => !has_key(self@, key@),
            },
    {
        proof {
            use_type_invariant(self);
        }
        let mut i: usize = 0;
        while i < self.entries.len()
            invariant
                i <= self@.len(),
                self@.len() == self.entries@.len(),
                keys_unique(self@),
                forall|j: int| 0 <= j < i ==> self@[j].0 != key@,
            decreases self@.len() - i,
        {
            if str_eq(self.entries[i].0.as_str(), key) {
                proof {
                    assert(self@[i as int].0 == key@);
                    let p = key_position(self@, key@);
                    assert(has_key(self@, key@));
                    if p != i as int {
                        if p < i as int {
                        } else {
                            assert(self@[i as int].0 != self@[p].0);
                        }
                    }
                }
                return Some(i);
            }
            i = i + 1;
        }
        None
    }

    /// The length stored under `key`, if any.
    pub fn get(&self, key: &str) -> (r: Option<u64>)
        ensures
            r == lookup(self@, key@),
    {
        match self.position(key) {
            Some(i) => Some(self.entries[i].1),
            None => None,
        }
    }

    /// Whether `key` has been handed out.
    pub fn contains_key(&self, key: &str) -> (r: bool)
        ensures
            r == has_key(self@, key@),
    {
        self.position(key).is_some()
    }

    /// Stores `v` under `key`.
    pub fn insert(&mut self, key: &str, v: u64)
        ensures
            final(self)@ == key_insert(old(self)@, key@, v),
    {
        proof {
            use_type_invariant(&*self);
        }
        let ghost before = self@;
        match self.position(key) {
            Some(i) => {
                let mut entries: Vec<(String, u64)> = Vec::new();
                std::mem::swap(&mut entries, &mut self.entries);
                entries.set(i, (key.to_string(), v));
                proof {
                    let after = Seq::new(entries@.len(), |k: int| (entries@[k].0@, entries@[k].1));
                    assert(after =~= before.update(i as int, (key@, v)));
                }
                self.entries = entries;
            },
            None => {
                let mut entries: Vec<(String, u64)> = Vec::new();
                std::mem::swap(&mut entries, &mut self.entries);
                entries.push((key.to_string(), v));
                proof {
                    let after = Seq::new(entries@.len(), |k: int| (entries@[k].0@, entries@[k].1));
                    assert(after =~= before.push((key@, v)));
                }
                self.entries = entries;
            },
        }
    }
}

} // verus!

verus! {

/// The key of global array `index` of block `name`: the name, `'_'`, then the index.
pub open spec fn key_text(name: Seq<char>, index: nat) -> Seq<char> {
    name + seq!['_'] + decimal(index)
}

/// The index text of a key: what follows its last `'_'`.
pub open spec fn index_text(key: Seq<char>) -> Seq<char> {
    last_segment(key, '_')
}

/// The index a key names (meaningful when its index text reads as a `u64`).
pub open spec fn key_index(key: Seq<char>) -> nat {
    parsed_value(index_text(key))
}

/// The block name a key names: everything before its last `'_'`.
pub open spec fn key_name(key: Seq<char>) -> Seq<char> {
    key.take(key.len() - index_text(key).len() - 1)
}

/// The kernel name of kernel family `kernel_name` for block `block_name`.
pub fn get_kernel_name(kernel_name: &str, block_name: &str) -> (s: String)
    ensures
        s@ == kernel_name@ + seq!['_'] + block_name@,
{
    let mut v: Vec<char> = Vec::new();
    push_str(&mut v, kernel_name);
    v.push('_');
    push_str(&mut v, block_name);
    assert(v@ =~= kernel_name@ + seq!['_'] + block_name@);
    string_from_chars(&v)
}

/// The index named by a key: the number after its last `'_'`.
pub fn get_index_from_key(string_key: &str) -> (i: u64)
    requires
        parses_as_u64(index_text(string_key@)),
    ensures
        i == key_index(string_key@),
{
    let v = chars_of(string_key);
    let seg = index_chars(&v);
    parse_u64(&seg)
}

/// The characters of a key after its last `'_'`.
fn index_chars(v: &Vec<char>) -> (seg: Vec<char>)
    ensures
        seg@ == index_text(v@),
{
    let k = last_segment_start(v, '_');
    let mut seg: Vec<char> = Vec::new();
    let mut j: usize = k;
    while j < v.len()
        invariant
            k <= j <= v@.len(),
            seg@ == v@.subrange(k as int, j as int),
        decreases v@.len() - j,
    {
        seg.push(v[j]);
        assert(v@.subrange(k as int, j as int).push(v@[j as int]) =~= v@.subrange(k as int, j + 1));
        j = j + 1;
    }
    seg
}

/// The block name of a key: everything before its last `'_'`.
pub fn get_name_from_key(string_key: &str) -> (name: &str)
    requires
        string_key@.contains('_'),
    ensures
        name@ == key_name(string_key@),
{
    proof {
        lemma_last_segment_suffix(string_key@, '_');
    }
    let v = chars_of(string_key);
    let k = last_segment_start(&v, '_');
    string_key.substring_char(0, k - 1)
}

/// Reading a key back gives the block name and index it was made from.
pub proof fn lemma_key_round_trip(name: Seq<char>, index: nat)
    requires
        index <= u64::MAX,
    ensures
        key_text(name, index).contains('_'),
        index_text(key_text(name, index)) == decimal(index),
        parses_as_u64(index_text(key_text(name, index))),
        key_index(key_text(name, index)) == index,
        key_name(key_text(name, index)) == name,
{
    lemma_decimal_shape(index);
    lemma_last_segment_after_sep(name, '_', decimal(index));
    let k = key_text(name, index);
    assert(k[name.len() as int] == '_');
    assert(k.take(name.len() as int) =~= name);
}

} // verus!

verus! {

/// Number of keys of `m` that contain the block name `b`.
pub open spec fn key_count(m: KeySeq, b: Seq<char>) -> nat
    decreases m.len(),
{
    if m.len() == 0 {
        0
    } else {
        key_count(m.drop_last(), b) + if contains_seq(m.last().0, b) {
            1nat
        } else {
            0nat
        }
    }
}

/// Largest index among the keys of `m` that contain the block name `b`.
pub open spec fn max_key_index(m: KeySeq, b: Seq<char>) -> Option<nat>
    decreases m.len(),
{
    if m.len() == 0 {
        None
    } else {
        let prev = max_key_index(m.drop_last(), b);
        if contains_seq(m.last().0, b) {
            let x = key_index(m.last().0);
            match prev {
                None => Some(x),
                Some(p) => Some(if p < x { x } else { p }),
            }
        } else {
            prev
        }
    }
}

/// Every key that contains a block name carries a readable index.
pub open spec fn keys_readable(m: KeySeq, c: ConfigSeq) -> bool {
    forall|i: int, j: int|
        0 <= i < m.len() && 0 <= j < c.len() && #[trigger] contains_seq(m[i].0, c[j].0)
            ==> parses_as_u64(index_text(m[i].0))
}

/// Block `j` still has a free global array and its arrays hold `len` elements.
pub open spec fn block_fits(m: KeySeq, c: ConfigSeq, len: nat, j: int) -> bool {
    &&& 0 <= j < c.len()
    &&& key_count(m, c[j].0) < c[j].1.global_array_count
    &&& c[j].1.global_array_capacity >= len
}

/// Block `j` is the block chosen for `len` among the first `n`: it fits, no fitting
/// block among the first `n` is smaller, and no earlier one is as small.
pub open spec fn is_choice_upto(m: KeySeq, c: ConfigSeq, len: nat, n: int, j: int) -> bool {
    &&& j < n
    &&& block_fits(m, c, len, j)
    &&& forall|i: int|
        0 <= i < n && #[trigger] block_fits(m, c, len, i) ==> c[j].1.global_array_capacity
            <= c[i].1.global_array_capacity && (c[i].1.global_array_capacity
            == c[j].1.global_array_capacity ==> j <= i)
}

/// Block `j` is the block chosen for a buffer of `len` elements.
pub open spec fn is_choice(m: KeySeq, c: ConfigSeq, len: nat, j: int) -> bool {
    is_choice_upto(m, c, len, c.len() as int, j)
}

/// Some block is chosen for `len`.
pub open spec fn has_choice(m: KeySeq, c: ConfigSeq, len: nat) -> bool {
    exists|j: int| is_choice(m, c, len, j)
}

/// The block chosen for `len` (meaningful when [`has_choice`] holds).
pub open spec fn choice(m: KeySeq, c: ConfigSeq, len: nat) -> int {
    choose|j: int| is_choice(m, c, len, j)
}

/// The key handed out next for a buffer of `len` elements, or why there is none.
pub open spec fn spec_next_key(m: KeySeq, c: ConfigSeq, len: nat) -> Result<Seq<char>, OpenclError> {
    if !has_choice(m, c, len) {
        Err(OpenclError::CustomOpenCl(INVALID_BUFFER_LEN))
    } else {
        let j = choice(m, c, len);
        let b = c[j].0;
        match max_key_index(m, b) {
            None => Ok(key_text(b, 0)),
            Some(p) => if p >= c[j].1.global_array_count - 1 {
                Err(OpenclError::CustomOpenCl(NO_GLOBAL_VECTORS_TO_ASSIGN))
            } else {
                Ok(key_text(b, p + 1))
            },
        }
    }
}

/// At most one block is chosen for a length.
pub proof fn lemma_choice_unique(m: KeySeq, c: ConfigSeq, len: nat, a: int, b: int)
    requires
        is_choice(m, c, len, a),
        is_choice(m, c, len, b),
    ensures
        a == b,
{
    assert(block_fits(m, c, len, a));
    assert(block_fits(m, c, len, b));
}

/// A block is chosen for `len` exactly when some block fits `len`.
pub proof fn lemma_choice_exists(m: KeySeq, c: ConfigSeq, len: nat)
    ensures
        has_choice(m, c, len) <==> exists|j: int| block_fits(m, c, len, j),
{
    if exists|j: int| block_fits(m, c, len, j) {
        let w = choose|j: int| block_fits(m, c, len, j);
        let j = lemma_choice_upto(m, c, len, c.len() as int, w);
        assert(is_choice(m, c, len, j));
    }
}

/// Among the first `n` blocks, one containing a fitting block `w`, some block is chosen.
proof fn lemma_choice_upto(m: KeySeq, c: ConfigSeq, len: nat, n: int, w: int) -> (j: int)
    requires
        0 <= w < n <= c.len(),
        block_fits(m, c, len, w),
    ensures
        is_choice_upto(m, c, len, n, j),
    decreases n,
{
    if n - 1 == w && !(exists|i: int| 0 <= i < n - 1 && block_fits(m, c, len, i)) {
        w
    } else {
        let w2 = if w < n - 1 {
            w
        } else {
            choose|i: int| 0 <= i < n - 1 && block_fits(m, c, len, i)
        };
        let p = lemma_choice_upto(m, c, len, n - 1, w2);
        if block_fits(m, c, len, n - 1) && c[n - 1].1.global_array_capacity
            < c[p].1.global_array_capacity {
            n - 1
        } else {
            p
        }
    }
}

/// The keys of `m` containing `b` all carry an index no larger than
/// [`max_key_index`], and when that is `None` no key contains `b`.
pub proof fn lemma_max_key_index(m: KeySeq, b: Seq<char>)
    ensures
        match max_key_index(m, b) {
            None => forall|i: int| 0 <= i < m.len() ==> !contains_seq(#[trigger] m[i].0, b),
            Some(p) => forall|i: int|
                0 <= i < m.len() && contains_seq(#[trigger] m[i].0, b) ==> key_index(m[i].0)
                    <= p,
        },
    decreases m.len(),
{
    if m.len() > 0 {
        let d = m.drop_last();
        lemma_max_key_index(d, b);
        assert forall|i: int| 0 <= i < m.len() - 1 implies m[i] == #[trigger] d[i] by {}
        let last = m.len() - 1;
        assert(m[last] == m.last());
        match max_key_index(m, b) {
            None => {
                assert forall|i: int| 0 <= i < m.len() implies !contains_seq(#[trigger] m[i].0, b) by {
                    if i < last {
                        assert(m[i] == d[i]);
                    }
                }
            },
            Some(p) => {
                assert forall|i: int|
                    0 <= i < m.len() && contains_seq(#[trigger] m[i].0, b) implies key_index(m[i].0)
                    <= p by {
                    if i < last {
                        assert(m[i] == d[i]);
                    }
                }
            },
        }
    }
}

/// Storing a new key adds one to the count of every block name it contains.
pub proof fn lemma_key_count_push(m: KeySeq, k: Seq<char>, v: u64, b: Seq<char>)
    ensures
        key_count(m.push((k, v)), b) == key_count(m, b) + if contains_seq(k, b) {
            1nat
        } else {
            0nat
        },
{
    assert(m.push((k, v)).drop_last() =~= m);
}

/// Named groups of global arrays and the keys handed out for them.
#[derive(Debug)]
pub struct MemoryBlock {
    inner: MemoryBlockMap,
    config: MemoryBlockConfigMap,
}

impl MemoryBlock {
    /// The keys handed out so far, with the length stored under each.
    pub closed spec fn keys(&self) -> KeySeq {
        self.inner@
    }

    /// The block configurations.
    pub closed spec fn configs(&self) -> ConfigSeq {
        self.config@
    }

    /// A memory block with the given configuration and no key handed out.
    pub fn new(config: MemoryBlockConfigMap) -> (b: Self)
        ensures
            b.keys() == Seq::<(Seq<char>, u64)>::empty(),
            b.configs() == config@,
    {
        check_memory_block_config(&config);
        MemoryBlock { inner: MemoryBlockMap::new(), config }
    }

    /// The keys handed out so far.
    pub fn memory_map(&self) -> (m: &MemoryBlockMap)
        ensures
            m@ == self.keys(),
    {
        &self.inner
    }

    /// The block configurations.
    pub fn config_map(&self) -> (m: &MemoryBlockConfigMap)
        ensures
            m@ == self.configs(),
    {
        &self.config
    }

    /// Whether every key that contains a block name carries a readable index,
    /// which the lookups by length rely on.
    pub fn has_readable_keys(&self) -> (b: bool)
        ensures
            b == keys_readable(self.keys(), self.configs()),
    {
        let n = self.inner.len();
        let c = self.config.len();
        let mut i: usize = 0;
        while i < n
            invariant
                n == self.keys().len(),
                c == self.configs().len(),
                i <= n,
                forall|a: int, j: int|
                    0 <= a < i && 0 <= j < c && #[trigger] contains_seq(
                        self.keys()[a].0,
                        self.configs()[j].0,
                    ) ==> parses_as_u64(index_text(self.keys()[a].0)),
            decreases n - i,
        {
            let key = self.inner.key_at(i);
            let v = chars_of(key);
            let seg = index_chars(&v);
            let readable = reads_as_u64(&seg);
            let mut j: usize = 0;
            while j < c
                invariant
                    n == self.keys().len(),
                    c == self.configs().len(),
                    i < n,
                    j <= c,
                    key@ == self.keys()[i as int].0,
                    readable == parses_as_u64(index_text(key@)),
                    forall|jj: int|
                        0 <= jj < j && #[trigger] contains_seq(key@, self.configs()[jj].0)
                            ==> readable,
                decreases c - j,
            {
                if !readable && str_contains(key, self.config.name_at(j)) {
                    return false;
                }
                j = j + 1;
            }
            i = i + 1;
        }
        true
    }

    /// Number of keys that contain `block_name`.
    fn assigned_count(&self, block_name: &str) -> (n: usize)
        ensures
            n == key_count(self.keys(), block_name@),
    {
        let b = chars_of(block_name);
        let total = self.inner.len();
        let mut n: usize = 0;
        let mut i: usize = 0;
        while i < total
            invariant
                total == self.keys().len(),
                b@ == block_name@,
                i <= total,
                n == key_count(self.keys().take(i as int), block_name@),
                n <= i,
            decreases total - i,
        {
            let kv = chars_of(self.inner.key_at(i));
            let c = contains_chars(&kv, &b);
            proof {
                assert(self.keys().take(i + 1).drop_last() =~= self.keys().take(i as int));
            }
            if c {
                n = n + 1;
            }
            i = i + 1;
        }
        assert(self.keys().take(total as int) =~= self.keys());
        n
    }

    /// The block that a buffer of `len` elements goes to: among the blocks that
    /// still have a free global array and whose arrays hold `len` elements, the one
    /// with the smallest arrays, the earliest configured on a tie.
    pub fn get_config_by_len(&self, len: usize) -> (r: OpenClResult<(&str, &MemoryBlockConfig)>)
        requires
            keys_readable(self.keys(), self.configs()),
        ensures
            r is Ok <==> exists|j: int| block_fits(self.keys(), self.configs(), len as nat, j),
            r is Ok <==> has_choice(self.keys(), self.configs(), len as nat),
            match r {
                Ok((name, config)) => {
                    let j = choice(self.keys(), self.configs(), len as nat);
                    name@ == self.configs()[j].0 && *config == self.configs()[j].1
                },
                Err(e) => e == OpenclError::CustomOpenCl(INVALID_BUFFER_LEN),
            },
    {
        let ghost m = self.keys();
        let ghost c = self.configs();
        let n = self.config.len();
        let mut best: Option<usize> = None;
        let mut i: usize = 0;
        while i < n
            invariant
                n == c.len(),
                m == self.keys(),
                c == self.configs(),
                i <= n,
                match best {
                    Some(j) => is_choice_upto(m, c, len as nat, i as int, j as int),
                    None => forall|k: int| 0 <= k < i ==> !block_fits(m, c, len as nat, k),
                },
            decreases n - i,
        {
            let cfg = self.config.config_at(i);
            let assigned = self.assigned_count(self.config.name_at(i));
            if assigned < cfg.global_array_count && cfg.global_array_capacity >= len {
                match best {
                    None => {
                        best = Some(i);
                    },
                    Some(j) => {
                        if cfg.global_array_capacity < self.config.config_at(j).global_array_capacity {
                            best = Some(i);
                        }
                    },
                }
            }
            proof {
                match best {
                    Some(j) => {
                        assert forall|k: int|
                            0 <= k < i + 1 && #[trigger] block_fits(m, c, len as nat, k) implies c[j as int].1.global_array_capacity
                            <= c[k].1.global_array_capacity && (c[k].1.global_array_capacity
                            == c[j as int].1.global_array_capacity ==> j <= k) by {
                            if k < i {
                            }
                        }
                    },
                    None => {},
                }
            }
            i = i + 1;
        }
        proof {
            lemma_choice_exists(m, c, len as nat);
        }
        match best {
            Some(j) => {
                proof {
                    lemma_choice_unique(m, c, len as nat, j as int, choice(m, c, len as nat));
                }
                Ok((self.config.name_at(j), self.config.config_at(j)))
            },
            None => Err(OpenclError::CustomOpenCl(INVALID_BUFFER_LEN)),
        }
    }
}

/// Size in bytes, array capacity and array count of one configured block.
#[derive(Debug)]
pub struct MemoryBlockFootprint {
    pub block_name: String,
    pub global_array_capacity: u64,
    pub global_array_count: u64,
    pub bytes: u64,
}

/// Arrays configured over the first `n` blocks.
pub open spec fn array_count_sum(c: ConfigSeq, n: nat) -> nat
    decreases n,
{
    if n == 0 || n > c.len() {
        0
    } else {
        array_count_sum(c, (n - 1) as nat) + c[n - 1].1.global_array_count as nat
    }
}

/// The whole-number part of explaining a configuration: each block's
/// footprint (capacity times count), in configuration order, and the number of
/// arrays over all blocks.
pub fn explain_memory_block_config(map: &MemoryBlockConfigMap) -> (r: (Vec<MemoryBlockFootprint>, u64))
    requires
        map@.len() > 0,
        forall|i: int|
            0 <= i < map@.len() ==> #[trigger] map@[i].1.global_array_capacity
                * map@[i].1.global_array_count <= usize::MAX,
        array_count_sum(map@, map@.len()) <= u64::MAX,
    ensures
        r.0@.len() == map@.len(),
        forall|i: int|
            0 <= i < r.0@.len() ==> {
                &&& (#[trigger] r.0@[i]).block_name@ == map@[i].0
                &&& r.0@[i].global_array_capacity == map@[i].1.global_array_capacity
                &&& r.0@[i].global_array_count == map@[i].1.global_array_count
                &&& r.0@[i].bytes == map@[i].1.global_array_capacity * map@[i].1.global_array_count
            },
        r.1 == array_count_sum(map@, map@.len()),
{
    let n = map.len();
    let mut v: Vec<MemoryBlockFootprint> = Vec::new();
    let mut total: u64 = 0;
    let mut i: usize = 0;
    while i < n
        invariant
            n == map@.len(),
            i <= n,
            v@.len() == i,
            total == array_count_sum(map@, i as nat),
            array_count_sum(map@, map@.len()) <= u64::MAX,
            forall|k: int|
                0 <= k < map@.len() ==> #[trigger] map@[k].1.global_array_capacity
                    * map@[k].1.global_array_count <= usize::MAX,
            forall|k: int|
                0 <= k < i ==> {
                    &&& (#[trigger] v@[k]).block_name@ == map@[k].0
                    &&& v@[k].global_array_capacity == map@[k].1.global_array_capacity
                    &&& v@[k].global_array_count == map@[k].1.global_array_count
                    &&& v@[k].bytes == map@[k].1.global_array_capacity * map@[k].1.global_array_count
                },
        decreases n - i,
    {
        let name = map.name_at(i);
        let cfg = map.config_at(i);
        assert(map@[i as int].1.global_array_capacity * map@[i as int].1.global_array_count
            <= usize::MAX);
        let bytes = cfg.global_array_capacity * cfg.global_array_count;
        proof {
            lemma_array_count_sum_le(map@, (i + 1) as nat, map@.len());
        }
        total = total + cfg.global_array_count as u64;
        v.push(
            MemoryBlockFootprint {
                block_name: name.to_string(),
                global_array_capacity: cfg.global_array_capacity as u64,
                global_array_count: cfg.global_array_count as u64,
                bytes: bytes as u64,
            },
        );
        i = i + 1;
    }
    (v, total)
}

/// Sums over longer prefixes are no smaller.
proof fn lemma_array_count_sum_le(c: ConfigSeq, a: nat, b: nat)
    requires
        a <= b <= c.len(),
    ensures
        array_count_sum(c, a) <= array_count_sum(c, b),
    decreases b - a,
{
    if a < b {
        lemma_array_count_sum_le(c, a, (b - 1) as nat);
    }
}

/// Whether no block name occurs inside another block name.
pub open spec fn names_disjoint(c: ConfigSeq) -> bool {
    forall|i: int, j: int|
        0 <= i < c.len() && 0 <= j < c.len() && i != j ==> !contains_seq(c[j].0, c[i].0)
}

/// Whether no block name occurs inside another: otherwise keys of one block
/// would be counted for the other.
pub fn check_memory_block_config(map: &MemoryBlockConfigMap) -> (ok: bool)
    ensures
        ok == names_disjoint(map@),
{
    let n = map.len();
    let mut i: usize = 0;
    while i < n
        invariant
            n == map@.len(),
            i <= n,
            forall|a: int, b: int|
                0 <= a < i && 0 <= b < n && a != b ==> !contains_seq(map@[b].0, map@[a].0),
        decreases n - i,
    {
        let key = chars_of(map.name_at(i));
        let mut j: usize = 0;
        while j < n
            invariant
                n == map@.len(),
                i < n,
                j <= n,
                key@ == map@[i as int].0,
                forall|a: int, b: int|
                    0 <= a < i && 0 <= b < n && a != b ==> !contains_seq(map@[b].0, map@[a].0),
                forall|b: int| 0 <= b < j && i != b ==> !contains_seq(map@[b].0, map@[i as int].0),
            decreases n - j,
        {
            if j != i {
                let other = chars_of(map.name_at(j));
                if contains_chars(&other, &key) {
                    return false;
                }
            }
            j = j + 1;
        }
        i = i + 1;
    }
    true
}

} // verus!

verus! {

/// A key contains the name of its block.
pub proof fn lemma_key_contains_name(name: Seq<char>, index: nat)
    ensures
        contains_seq(key_text(name, index), name),
{
    let k = key_text(name, index);
    assert(k.subrange(0, 0int + name.len()) =~= name);
}

/// Load of one block.
#[derive(Debug, PartialEq, Eq)]
pub struct MemoryBlockSummary {
    pub block_name: String,
    pub global_array_capacity: u64,
    pub global_array_count: u64,
    pub assigned: u64,
}

impl MemoryBlock {
    /// The key handed out next for a buffer of `len` elements: the chosen block's
    /// name, `'_'` and one more than the largest index handed out for it (0 for
    /// the first).
    pub fn get_key(&self, len: usize) -> (r: OpenClResult<String>)
        requires
            keys_readable(self.keys(), self.configs()),
        ensures
            match r {
                Ok(k) => spec_next_key(self.keys(), self.configs(), len as nat) == Ok::<
                    Seq<char>,
                    OpenclError,
                >(k@),
                Err(e) => spec_next_key(self.keys(), self.configs(), len as nat) == Err::<
                    Seq<char>,
                    OpenclError,
                >(e),
            },
    {
        let ghost m = self.keys();
        let ghost c = self.configs();
        let (block_name, block_config) = match self.get_config_by_len(len) {
            Ok(v) => v,
            Err(e) => {
                return Err(e);
            },
        };
        let ghost j = choice(m, c, len as nat);
        let b = chars_of(block_name);
        let total = self.inner.len();
        let mut max: Option<u64> = None;
        let mut i: usize = 0;
        while i < total
            invariant
                total == m.len(),
                m == self.keys(),
                b@ == block_name@,
                block_name@ == c[j].0,
                0 <= j < c.len(),
                keys_readable(m, c),
                i <= total,
                match max {
                    Some(x) => max_key_index(m.take(i as int), b@) == Some(x as nat),
                    None => max_key_index(m.take(i as int), b@) == None::<nat>,
                },
            decreases total - i,
        {
            let key = self.inner.key_at(i);
            let kv = chars_of(key);
            proof {
                assert(m.take(i + 1).drop_last() =~= m.take(i as int));
                assert(m.take(i + 1).last() == m[i as int]);
            }
            if contains_chars(&kv, &b) {
                proof {
                    assert(contains_seq(m[i as int].0, c[j].0));
                }
                let x = get_index_from_key(key);
                max = match max {
                    None => Some(x),
                    Some(p) => Some(if p < x { x } else { p }),
                };
            }
            i = i + 1;
        }
        assert(m.take(total as int) =~= m);
        let mut v: Vec<char> = Vec::new();
        push_str(&mut v, block_name);
        v.push('_');
        match max {
            None => {
                push_decimal(&mut v, 0);
                assert(v@ =~= key_text(c[j].0, 0));
            },
            Some(p) => {
                if p >= (block_config.global_array_count - 1) as u64 {
                    return Err(OpenclError::CustomOpenCl(NO_GLOBAL_VECTORS_TO_ASSIGN));
                }
                push_decimal(&mut v, p + 1);
                assert(v@ =~= key_text(c[j].0, (p + 1) as nat));
            },
        }
        Ok(string_from_chars(&v))
    }

    /// Stores `len` under `key`.
    pub fn set_key(&mut self, key: &str, len: usize)
        ensures
            final(self).keys() == key_insert(old(self).keys(), key@, len as u64),
            final(self).configs() == old(self).configs(),
    {
        self.inner.insert(key, len as u64);
    }

    /// Hands out the next key for a buffer of `len` elements and stores `len` under it.
    pub fn set_key_by_len(&mut self, len: usize) -> (r: OpenClResult<String>)
        requires
            keys_readable(old(self).keys(), old(self).configs()),
        ensures
            final(self).configs() == old(self).configs(),
            match r {
                Ok(k) => {
                    &&& spec_next_key(old(self).keys(), old(self).configs(), len as nat) == Ok::<
                        Seq<char>,
                        OpenclError,
                    >(k@)
                    &&& !has_key(old(self).keys(), k@)
                    &&& final(self).keys() == old(self).keys().push((k@, len as u64))
                },
                Err(e) => {
                    &&& spec_next_key(old(self).keys(), old(self).configs(), len as nat) == Err::<
                        Seq<char>,
                        OpenclError,
                    >(e)
                    &&& final(self).keys() == old(self).keys()
                },
            },
            keys_readable(final(self).keys(), final(self).configs()),
    {
        let key = match self.get_key(len) {
            Ok(k) => k,
            Err(e) => {
                return Err(e);
            },
        };
        proof {
            lemma_next_key_fresh(self.keys(), self.configs(), len as nat);
        }
        self.inner.insert(key.as_str(), len as u64);
        proof {
            lemma_next_key_readable(old(self).keys(), self.configs(), len as nat, key@);
        }
        Ok(key)
    }

    /// The block that `key` belongs to, by the name before its last `'_'`.
    pub fn get_config_by_key(&self, key: &str) -> (r: OpenClResult<(&str, &MemoryBlockConfig)>)
        requires
            key@.contains('_'),
        ensures
            match r {
                Ok((name, config)) => {
                    &&& name@ == key_name(key@)
                    &&& exists|i: int|
                        0 <= i < self.configs().len() && self.configs()[i].0 == name@
                            && self.configs()[i].1 == *config
                },
                Err(e) => {
                    &&& e == OpenclError::CustomOpenCl(INVALID_GLOBAL_ARRAY_ID)
                    &&& forall|i: int|
                        0 <= i < self.configs().len() ==> self.configs()[i].0 != key_name(key@)
                },
            },
    {
        let block_name = get_name_from_key(key);
        match self.config.position(block_name) {
            Some(i) => {
                let name = self.config.name_at(i);
                let config = self.config.config_at(i);
                assert(0 <= i < self.configs().len() && self.configs()[i as int].0 == name@
                    && self.configs()[i as int].1 == *config);
                Ok((name, config))
            },
            None => Err(OpenclError::CustomOpenCl(INVALID_GLOBAL_ARRAY_ID)),
        }
    }

    /// Capacity, count and number of handed-out keys of every block, in configuration order.
    pub fn summary(&self) -> (v: Vec<MemoryBlockSummary>)
        ensures
            v@.len() == self.configs().len(),
            forall|i: int|
                0 <= i < v@.len() ==> {
                    &&& (#[trigger] v@[i]).block_name@ == self.configs()[i].0
                    &&& v@[i].global_array_capacity == self.configs()[i].1.global_array_capacity
                    &&& v@[i].global_array_count == self.configs()[i].1.global_array_count
                    &&& v@[i].assigned == key_count(self.keys(), self.configs()[i].0)
                },
    {
        let n = self.config.len();
        let mut v: Vec<MemoryBlockSummary> = Vec::new();
        let mut i: usize = 0;
        while i < n
            invariant
                n == self.configs().len(),
                i <= n,
                v@.len() == i,
                forall|k: int|
                    0 <= k < i ==> {
                        &&& (#[trigger] v@[k]).block_name@ == self.configs()[k].0
                        &&& v@[k].global_array_capacity == self.configs()[k].1.global_array_capacity
                        &&& v@[k].global_array_count == self.configs()[k].1.global_array_count
                        &&& v@[k].assigned == key_count(self.keys(), self.configs()[k].0)
                    },
            decreases n - i,
        {
            let name = self.config.name_at(i);
            let cfg = self.config.config_at(i);
            let assigned = self.assigned_count(name);
            v.push(
                MemoryBlockSummary {
                    block_name: name.to_string(),
                    global_array_capacity: cfg.global_array_capacity as u64,
                    global_array_count: cfg.global_array_count as u64,
                    assigned: assigned as u64,
                },
            );
            i = i + 1;
        }
        v
    }
}

/// The next key is not among the keys already handed out.
pub proof fn lemma_next_key_fresh(m: KeySeq, c: ConfigSeq, len: nat)
    ensures
        spec_next_key(m, c, len) matches Ok(k) ==> !has_key(m, k),
{
    if let Ok(k) = spec_next_key(m, c, len) {
        let j = choice(m, c, len);
        let b = c[j].0;
        lemma_max_key_index(m, b);
        let n: nat = match max_key_index(m, b) {
            None => 0,
            Some(p) => p + 1,
        };
        assert(k == key_text(b, n));
        if has_key(m, k) {
            let i = key_position(m, k);
            lemma_key_contains_name(b, n);
            assert(contains_seq(m[i].0, b));
            if let Some(p) = max_key_index(m, b) {
                assert(p < c[j].1.global_array_count - 1);
                lemma_key_round_trip(b, n);
            }
        }
    }
}

/// Storing the next key keeps every key readable.
pub proof fn lemma_next_key_readable(m: KeySeq, c: ConfigSeq, len: nat, k: Seq<char>)
    requires
        keys_readable(m, c),
        spec_next_key(m, c, len) == Ok::<Seq<char>, OpenclError>(k),
    ensures
        keys_readable(m.push((k, len as u64)), c),
{
    let j = choice(m, c, len);
    let b = c[j].0;
    let n: nat = match max_key_index(m, b) {
        None => 0,
        Some(p) => p + 1,
    };
    assert(n <= u64::MAX) by {
        if let Some(p) = max_key_index(m, b) {
            assert(p < c[j].1.global_array_count - 1);
        }
    }
    lemma_key_round_trip(b, n);
    let m2 = m.push((k, len as u64));
    assert forall|i: int, jj: int|
        0 <= i < m2.len() && 0 <= jj < c.len() && #[trigger] contains_seq(m2[i].0, c[jj].0)
        implies parses_as_u64(index_text(m2[i].0)) by {
        if i < m.len() {
            assert(m2[i] == m[i]);
            assert(contains_seq(m[i].0, c[jj].0));
        }
    }
}

/// The keys held after asking for a key for each length of `lens` in turn,
/// starting from none, as [`MemoryBlock::set_key_by_len`] records them.
pub open spec fn run_keys(c: ConfigSeq, lens: Seq<usize>) -> KeySeq
    decreases lens.len(),
{
    if lens.len() == 0 {
        Seq::empty()
    } else {
        let m = run_keys(c, lens.drop_last());
        match spec_next_key(m, c, lens.last() as nat) {
            Ok(k) => m.push((k, lens.last() as u64)),
            Err(_) => m,
        }
    }
}

/// How many of the requests for `lens`, made in turn from no keys, were given a key.
pub open spec fn run_ok_count(c: ConfigSeq, lens: Seq<usize>) -> nat
    decreases lens.len(),
{
    if lens.len() == 0 {
        0
    } else {
        let m = run_keys(c, lens.drop_last());
        run_ok_count(c, lens.drop_last()) + if spec_next_key(m, c, lens.last() as nat) is Ok {
            1nat
        } else {
            0nat
        }
    }
}

/// One more request in a run: it changes the held keys exactly as one call of
/// [`MemoryBlock::set_key_by_len`] does.
pub proof fn lemma_run_keys_push(c: ConfigSeq, lens: Seq<usize>, len: usize)
    ensures
        run_keys(c, lens.push(len)) == match spec_next_key(run_keys(c, lens), c, len as nat) {
            Ok(k) => run_keys(c, lens).push((k, len as u64)),
            Err(_) => run_keys(c, lens),
        },
        run_ok_count(c, lens.push(len)) == run_ok_count(c, lens) + if spec_next_key(
            run_keys(c, lens),
            c,
            len as nat,
        ) is Ok {
            1nat
        } else {
            0nat
        },
{
    assert(lens.push(len).drop_last() =~= lens);
}

/// Over any run of key requests on a fresh memory block, the keys handed out
/// are pairwise distinct, one key is held per request that was given one (none
/// is overwritten), every key names a configured block and one of its arrays,
/// and every key's index stays readable.
pub proof fn lemma_run_keys(c: ConfigSeq, lens: Seq<usize>)
    requires
        config_names_unique(c),
    ensures
        forall|i: int, j: int|
            0 <= i < j < run_keys(c, lens).len() ==> run_keys(c, lens)[i].0 != run_keys(
                c,
                lens,
            )[j].0,
        run_keys(c, lens).len() == run_ok_count(c, lens),
        forall|i: int|
            0 <= i < run_keys(c, lens).len() ==> {
                let k = #[trigger] run_keys(c, lens)[i].0;
                &&& key_block_known(c, k)
                &&& key_index(k) < key_block(c, k).global_array_count
            },
        keys_readable(run_keys(c, lens), c),
    decreases lens.len(),
{
    if lens.len() > 0 {
        let rest = lens.drop_last();
        lemma_run_keys(c, rest);
        let m = run_keys(c, rest);
        let len = lens.last();
        if let Ok(k) = spec_next_key(m, c, len as nat) {
            lemma_next_key_fresh(m, c, len as nat);
            lemma_next_key_readable(m, c, len as nat, k);
            lemma_handed_out_key_stores(m, c, len as nat, k, Seq::empty());
            let m2 = m.push((k, len as u64));
            assert(m2 == run_keys(c, lens));
            assert forall|i: int, j: int| 0 <= i < j < m2.len() implies m2[i].0 != m2[j].0 by {
                if j == m.len() {
                    assert(m2[i] == m[i]);
                    assert(!has_key(m, k));
                } else {
                    assert(m2[i] == m[i] && m2[j] == m[j]);
                }
            }
            assert forall|i: int| 0 <= i < m2.len() implies {
                let kk = #[trigger] m2[i].0;
                &&& key_block_known(c, kk)
                &&& key_index(kk) < key_block(c, kk).global_array_count
            } by {
                if i < m.len() {
                    assert(m2[i] == m[i]);
                }
            }
        }
    }
}

} // verus!

verus! {

/// Kernel that stores vector `A` into the global array that `D` selects.
pub const TEMPLATE_KERNEL_VECTOR_ADD: &'static str = "\n    kernel void KERNEL_NAME(global int* A, global int* D) {\n\n        // Get the index of the current element\n        int i = get_global_id(0);\n\n        // Do the operation\n        switch (D[i]) {\n            SWITCH_BODY\n        }\n    }\n    ";

/// Kernel that copies the global array that `D` selects into `C`.
pub const TEMPLATE_KERNEL_VECTOR_EXTRACT: &'static str = "\n    kernel void KERNEL_NAME(global int* C, global int* D) {\n\n        // Get the index of the current element\n        int i = get_global_id(0);\n\n        switch (D[i]) {\n            SWITCH_BODY\n        }\n    }\n    ";

/// Placeholder for the kernel name in the kernel templates.
pub const KERNEL_NAME_MARK: &'static str = "KERNEL_NAME";

/// Placeholder for the switch cases in the kernel templates.
pub const SWITCH_BODY_MARK: &'static str = "SWITCH_BODY";

/// Initializer that fills an array with -1; `limit` stands for the last index.
pub const NEGATIVE_INITIALIZER: &'static str = "= { [0 ... limit] = -1 };";

/// Placeholder for the last index in [`NEGATIVE_INITIALIZER`].
pub const LIMIT_MARK: &'static str = "limit";

/// Name of global array `i` of block `b`.
pub open spec fn arr_name(b: Seq<char>, i: nat) -> Seq<char> {
    "arr_"@ + b + seq!['_'] + decimal(i)
}

/// Initializer of an array of `cap` elements that starts out filled with -1.
pub open spec fn array_initializer(cap: nat) -> Seq<char> {
    replace_all(NEGATIVE_INITIALIZER@, LIMIT_MARK@, decimal((cap - 1) as nat))
}

/// Declaration of global array `i` of block `b`.
pub open spec fn array_decl(b: Seq<char>, cfg: MemoryBlockConfig, i: nat) -> Seq<char> {
    let head = "\n    __global int "@ + arr_name(b, i) + seq!['['] + decimal(
        cfg.global_array_capacity as nat,
    );
    if cfg.negative_initial_value {
        head + seq![']', ' '] + array_initializer(cfg.global_array_capacity as nat)
    } else {
        head + seq![']', ';']
    }
}

/// Switch case of the store kernel for global array `i` of block `b`.
pub open spec fn add_case(b: Seq<char>, i: nat) -> Seq<char> {
    "\n                case "@ + decimal(i) + ":\n                  "@ + arr_name(b, i)
        + "[i] = A[i];\n                  break;"@
}

/// Switch case of the copy-out kernel for global array `i` of block `b`.
pub open spec fn extract_case(b: Seq<char>, i: nat) -> Seq<char> {
    "\n            case "@ + decimal(i) + ":\n              C[i] = "@ + arr_name(b, i)
        + "[i];\n              break;"@
}

/// Declarations of the first `n` global arrays of block `b`.
pub open spec fn block_decls(b: Seq<char>, cfg: MemoryBlockConfig, n: nat) -> Seq<char>
    decreases n,
{
    if n == 0 {
        Seq::empty()
    } else {
        block_decls(b, cfg, (n - 1) as nat) + array_decl(b, cfg, (n - 1) as nat)
    }
}

/// Store-kernel cases for the first `n` global arrays of block `b`.
pub open spec fn add_cases(b: Seq<char>, n: nat) -> Seq<char>
    decreases n,
{
    if n == 0 {
        Seq::empty()
    } else {
        add_cases(b, (n - 1) as nat) + add_case(b, (n - 1) as nat)
    }
}

/// Copy-out-kernel cases for the first `n` global arrays of block `b`.
pub open spec fn extract_cases(b: Seq<char>, n: nat) -> Seq<char>
    decreases n,
{
    if n == 0 {
        Seq::empty()
    } else {
        extract_cases(b, (n - 1) as nat) + extract_case(b, (n - 1) as nat)
    }
}

/// The store kernel of block `b`.
pub open spec fn add_kernel(b: Seq<char>, cfg: MemoryBlockConfig) -> Seq<char> {
    replace_all(
        replace_all(
            TEMPLATE_KERNEL_VECTOR_ADD@,
            KERNEL_NAME_MARK@,
            VECTOR_ADD_KERNEL_NAME@ + seq!['_'] + b,
        ),
        SWITCH_BODY_MARK@,
        add_cases(b, cfg.global_array_count as nat),
    )
}

/// The copy-out kernel of block `b`.
pub open spec fn extract_kernel(b: Seq<char>, cfg: MemoryBlockConfig) -> Seq<char> {
    replace_all(
        replace_all(
            TEMPLATE_KERNEL_VECTOR_EXTRACT@,
            KERNEL_NAME_MARK@,
            VECTOR_EXTRACT_KERNEL_NAME@ + seq!['_'] + b,
        ),
        SWITCH_BODY_MARK@,
        extract_cases(b, cfg.global_array_count as nat),
    )
}

/// Array declarations of all blocks, each block followed by a separator line.
pub open spec fn all_decls(blocks: ConfigSeq) -> Seq<char>
    decreases blocks.len(),
{
    if blocks.len() == 0 {
        Seq::empty()
    } else {
        all_decls(blocks.drop_last()) + block_decls(
            blocks.last().0,
            blocks.last().1,
            blocks.last().1.global_array_count as nat,
        ) + "\n        "@
    }
}

/// Store kernels of all blocks.
pub open spec fn all_add_kernels(blocks: ConfigSeq) -> Seq<char>
    decreases blocks.len(),
{
    if blocks.len() == 0 {
        Seq::empty()
    } else {
        all_add_kernels(blocks.drop_last()) + add_kernel(blocks.last().0, blocks.last().1)
    }
}

/// Copy-out kernels of all blocks.
pub open spec fn all_extract_kernels(blocks: ConfigSeq) -> Seq<char>
    decreases blocks.len(),
{
    if blocks.len() == 0 {
        Seq::empty()
    } else {
        all_extract_kernels(blocks.drop_last()) + extract_kernel(blocks.last().0, blocks.last().1)
    }
}

/// The OpenCL program for `blocks`: every global array, then the store kernels,
/// then the copy-out kernels.
pub open spec fn program_source(blocks: ConfigSeq) -> Seq<char> {
    "\n    "@ + all_decls(blocks) + "\n    "@ + all_add_kernels(blocks) + "\n    "@
        + all_extract_kernels(blocks) + "\n    "@
}

/// Every block that starts out filled with -1 and has arrays has arrays of at
/// least one element.
pub open spec fn initializers_defined(blocks: ConfigSeq) -> bool {
    forall|i: int|
        0 <= i < blocks.len() && (#[trigger] blocks[i]).1.negative_initial_value
            && blocks[i].1.global_array_count > 0 ==> blocks[i].1.global_array_capacity > 0
}

/// The text a program declares array `j` of block `b` with: the name, exactly
/// `cap` elements, and the -1 initializer when `negative` is set.
proof fn lemma_array_decl_text(b: Seq<char>, cfg: MemoryBlockConfig, j: nat)
    ensures
        array_decl(b, cfg, j) == "\n    __global int arr_"@ + b + "_"@ + decimal(j) + "["@ + decimal(
            cfg.global_array_capacity as nat,
        ) + (if cfg.negative_initial_value {
            "] = { [0 ... "@ + decimal((cfg.global_array_capacity - 1) as nat) + "] = -1 };"@
        } else {
            "];"@
        }),
{
    reveal_strlit("\n    __global int ");
    reveal_strlit("arr_");
    reveal_strlit("\n    __global int arr_");
    reveal_strlit("_");
    reveal_strlit("[");
    reveal_strlit("];");
    reveal_strlit("] = { [0 ... ");
    reveal_strlit("] = -1 };");
    reveal_strlit("= { [0 ... ");
    reveal_strlit("= { [0 ... limit] = -1 };");
    reveal_strlit("limit");
    let d = decimal((cfg.global_array_capacity - 1) as nat);
    let p = "= { [0 ... "@;
    let q = "] = -1 };"@;
    assert(NEGATIVE_INITIALIZER@ =~= p + LIMIT_MARK@ + q);
    lemma_replace_first(p, LIMIT_MARK@, q, d);
    lemma_replace_none(q, LIMIT_MARK@, d);
    assert(array_initializer(cfg.global_array_capacity as nat) == p + d + q);
    let head = "\n    __global int "@ + arr_name(b, j) + seq!['['] + decimal(
        cfg.global_array_capacity as nat,
    );
    assert(head =~= "\n    __global int arr_"@ + b + "_"@ + decimal(j) + "["@ + decimal(
        cfg.global_array_capacity as nat,
    ));
    assert(head + seq![']', ' '] + (p + d + q) =~= head + ("] = { [0 ... "@ + d + "] = -1 };"@));
    assert(head + seq![']', ';'] =~= head + "];"@);
}

/// The declarations of all blocks contain those of the block at `i`.
proof fn lemma_all_decls_contains(c: ConfigSeq, i: int)
    requires
        0 <= i < c.len(),
    ensures
        contains_seq(all_decls(c), block_decls(c[i].0, c[i].1, c[i].1.global_array_count as nat)),
    decreases c.len(),
{
    let prev = all_decls(c.drop_last());
    let last = block_decls(c.last().0, c.last().1, c.last().1.global_array_count as nat);
    let sep = "\n        "@;
    assert(all_decls(c) == prev + last + sep);
    if i == c.len() - 1 {
        lemma_contains_mid(prev, last, sep);
    } else {
        lemma_all_decls_contains(c.drop_last(), i);
        assert(c.drop_last()[i] == c[i]);
        lemma_contains_mid(Seq::empty(), prev, last + sep);
        assert(Seq::<char>::empty() + prev + (last + sep) =~= all_decls(c));
        lemma_contains_trans(all_decls(c), prev, block_decls(c[i].0, c[i].1, c[i].1.global_array_count as nat));
    }
}

/// The program declares every global array of every block: array `j` of the
/// block at position `i` is named after the block and `j`, has exactly the
/// block's capacity between its brackets, and starts filled with -1 exactly
/// when the block asks for it.
pub proof fn lemma_program_declares_arrays(c: ConfigSeq, i: int, j: nat)
    requires
        0 <= i < c.len(),
        j < c[i].1.global_array_count,
    ensures
        contains_seq(
            program_source(c),
            "\n    __global int arr_"@ + c[i].0 + "_"@ + decimal(j) + "["@ + decimal(
                c[i].1.global_array_capacity as nat,
            ) + (if c[i].1.negative_initial_value {
                "] = { [0 ... "@ + decimal((c[i].1.global_array_capacity - 1) as nat)
                    + "] = -1 };"@
            } else {
                "];"@
            }),
        ),
{
    let b = c[i].0;
    let cfg = c[i].1;
    let n = cfg.global_array_count as nat;
    lemma_array_decl_text(b, cfg, j);
    let f = |k: nat| block_decls(b, cfg, k);
    let g = |k: nat| array_decl(b, cfg, k);
    assert forall|k: nat| 0 < k <= n implies #[trigger] f(k) == f((k - 1) as nat) + g(
        (k - 1) as nat,
    ) by {}
    lemma_contains_appended(f, g, n, j);
    lemma_all_decls_contains(c, i);
    lemma_contains_trans(all_decls(c), block_decls(b, cfg, n), array_decl(b, cfg, j));
    let rest = "\n    "@ + all_add_kernels(c) + "\n    "@ + all_extract_kernels(c) + "\n    "@;
    lemma_contains_mid("\n    "@, all_decls(c), rest);
    assert("\n    "@ + all_decls(c) + rest =~= program_source(c));
    lemma_contains_trans(program_source(c), all_decls(c), array_decl(b, cfg, j));
}

/// Appends the name of global array `i` of block `b`.
fn push_arr_name(out: &mut Vec<char>, b: &Vec<char>, i: usize)
    ensures
        final(out)@ == old(out)@ + arr_name(b@, i as nat),
{
    push_str(out, "arr_");
    push_chars(out, b);
    out.push('_');
    push_decimal(out, i as u64);
    assert(final(out)@ =~= old(out)@ + arr_name(b@, i as nat));
}

/// Appends the declaration of global array `i` of block `b`.
fn push_array_decl(decls: &mut Vec<char>, b: &Vec<char>, cfg: MemoryBlockConfig, i: usize)
    requires
        cfg.negative_initial_value ==> cfg.global_array_capacity > 0,
    ensures
        final(decls)@ == old(decls)@ + array_decl(b@, cfg, i as nat),
{
    let capacity = cfg.global_array_capacity;
    push_str(decls, "\n    __global int ");
    push_arr_name(decls, b, i);
    decls.push('[');
    push_decimal(decls, capacity as u64);
    if cfg.negative_initial_value {
        decls.push(']');
        decls.push(' ');
        let mut limit: Vec<char> = Vec::new();
        push_decimal(&mut limit, (capacity - 1) as u64);
        assert(limit@ =~= decimal((capacity - 1) as nat));
        proof {
            reveal_strlit("limit");
        }
        let init = replace_chars(&chars_of(NEGATIVE_INITIALIZER), &chars_of(LIMIT_MARK), &limit);
        push_chars(decls, &init);
    } else {
        decls.push(']');
        decls.push(';');
    }
    assert(final(decls)@ =~= old(decls)@ + array_decl(b@, cfg, i as nat));
}

/// Appends the store-kernel case of global array `i` of block `b`.
fn push_add_case(adds: &mut Vec<char>, b: &Vec<char>, i: usize)
    ensures
        final(adds)@ == old(adds)@ + add_case(b@, i as nat),
{
    push_str(adds, "\n                case ");
    push_decimal(adds, i as u64);
    push_str(adds, ":\n                  ");
    push_arr_name(adds, b, i);
    push_str(adds, "[i] = A[i];\n                  break;");
    assert(final(adds)@ =~= old(adds)@ + add_case(b@, i as nat));
}

/// Appends the copy-out-kernel case of global array `i` of block `b`.
fn push_extract_case(extracts: &mut Vec<char>, b: &Vec<char>, i: usize)
    ensures
        final(extracts)@ == old(extracts)@ + extract_case(b@, i as nat),
{
    push_str(extracts, "\n            case ");
    push_decimal(extracts, i as u64);
    push_str(extracts, ":\n              C[i] = ");
    push_arr_name(extracts, b, i);
    push_str(extracts, "[i];\n              break;");
    assert(final(extracts)@ =~= old(extracts)@ + extract_case(b@, i as nat));
}

/// Appends the declarations and kernel cases of every global array of block `b`.
fn push_block_arrays(
    decls: &mut Vec<char>,
    adds: &mut Vec<char>,
    extracts: &mut Vec<char>,
    b: &Vec<char>,
    cfg: MemoryBlockConfig,
)
    requires
        cfg.negative_initial_value && cfg.global_array_count > 0 ==> cfg.global_array_capacity > 0,
    ensures
        final(decls)@ == old(decls)@ + block_decls(b@, cfg, cfg.global_array_count as nat),
        final(adds)@ == old(adds)@ + add_cases(b@, cfg.global_array_count as nat),
        final(extracts)@ == old(extracts)@ + extract_cases(b@, cfg.global_array_count as nat),
{
    let ghost d0 = decls@;
    let ghost a0 = adds@;
    let ghost e0 = extracts@;
    let mut i: usize = 0;
    while i < cfg.global_array_count
        invariant
            i <= cfg.global_array_count,
            cfg.negative_initial_value && cfg.global_array_count > 0 ==> cfg.global_array_capacity > 0,
            decls@ == d0 + block_decls(b@, cfg, i as nat),
            adds@ == a0 + add_cases(b@, i as nat),
            extracts@ == e0 + extract_cases(b@, i as nat),
        decreases cfg.global_array_count - i,
    {
        push_array_decl(decls, b, cfg, i);
        push_add_case(adds, b, i);
        push_extract_case(extracts, b, i);
        proof {
            assert(block_decls(b@, cfg, (i + 1) as nat) == block_decls(b@, cfg, i as nat) + array_decl(b@, cfg, i as nat));
            assert(add_cases(b@, (i + 1) as nat) == add_cases(b@, i as nat) + add_case(b@, i as nat));
            assert(extract_cases(b@, (i + 1) as nat) == extract_cases(b@, i as nat) + extract_case(b@, i as nat));
        }
        i = i + 1;
        proof {
            assert(decls@ =~= d0 + block_decls(b@, cfg, i as nat));
            assert(adds@ =~= a0 + add_cases(b@, i as nat));
            assert(extracts@ =~= e0 + extract_cases(b@, i as nat));
        }
    }
}

/// Fills a kernel template with the kernel's name and switch cases.
fn fill_template(template: &str, kernel_prefix: &str, b: &Vec<char>, cases: &Vec<char>) -> (out:
    Vec<char>)
    ensures
        out@ == replace_all(
            replace_all(template@, KERNEL_NAME_MARK@, kernel_prefix@ + seq!['_'] + b@),
            SWITCH_BODY_MARK@,
            cases@,
        ),
{
    let mut name: Vec<char> = Vec::new();
    push_str(&mut name, kernel_prefix);
    name.push('_');
    push_chars(&mut name, b);
    assert(name@ =~= kernel_prefix@ + seq!['_'] + b@);
    let kernel_mark = chars_of(KERNEL_NAME_MARK);
    let switch_mark = chars_of(SWITCH_BODY_MARK);
    proof {
        reveal_strlit("KERNEL_NAME");
        reveal_strlit("SWITCH_BODY");
    }
    let named = replace_chars(&chars_of(template), &kernel_mark, &name);
    replace_chars(&named, &switch_mark, cases)
}

/// The OpenCL program for a list of named blocks.
pub(crate) fn program_source_of(blocks: &Vec<(String, MemoryBlockConfig)>) -> (s: String)
    requires
        initializers_defined(Seq::new(blocks@.len(), |i: int| (blocks@[i].0@, blocks@[i].1))),
    ensures
        s@ == program_source(Seq::new(blocks@.len(), |i: int| (blocks@[i].0@, blocks@[i].1))),
{
    let ghost bs = Seq::new(blocks@.len(), |i: int| (blocks@[i].0@, blocks@[i].1));
    let mut decls: Vec<char> = Vec::new();
    let mut adds: Vec<char> = Vec::new();
    let mut extracts: Vec<char> = Vec::new();
    let mut k: usize = 0;
    while k < blocks.len()
        invariant
            k <= blocks@.len(),
            bs == Seq::new(blocks@.len(), |i: int| (blocks@[i].0@, blocks@[i].1)),
            initializers_defined(bs),
            decls@ == all_decls(bs.take(k as int)),
            adds@ == all_add_kernels(bs.take(k as int)),
            extracts@ == all_extract_kernels(bs.take(k as int)),
        decreases blocks@.len() - k,
    {
        let b = chars_of(blocks[k].0.as_str());
        let cfg = blocks[k].1;
        assert(bs[k as int] == (b@, cfg));
        let mut add_sw: Vec<char> = Vec::new();
        let mut ext_sw: Vec<char> = Vec::new();
        push_block_arrays(&mut decls, &mut add_sw, &mut ext_sw, &b, cfg);
        assert(add_sw@ =~= add_cases(b@, cfg.global_array_count as nat));
        assert(ext_sw@ =~= extract_cases(b@, cfg.global_array_count as nat));
        push_str(&mut decls, "\n        ");
        let add_k = fill_template(TEMPLATE_KERNEL_VECTOR_ADD, VECTOR_ADD_KERNEL_NAME, &b, &add_sw);
        push_chars(&mut adds, &add_k);
        let ext_k = fill_template(
            TEMPLATE_KERNEL_VECTOR_EXTRACT,
            VECTOR_EXTRACT_KERNEL_NAME,
            &b,
            &ext_sw,
        );
        push_chars(&mut extracts, &ext_k);
        proof {
            let t = bs.take(k + 1);
            assert(t.drop_last() =~= bs.take(k as int));
            assert(t.last() == (b@, cfg));
        }
        k = k + 1;
    }
    assert(bs.take(blocks@.len() as int) =~= bs);
    let mut out: Vec<char> = Vec::new();
    push_str(&mut out, "\n    ");
    push_chars(&mut out, &decls);
    push_str(&mut out, "\n    ");
    push_chars(&mut out, &adds);
    push_str(&mut out, "\n    ");
    push_chars(&mut out, &extracts);
    push_str(&mut out, "\n    ");
    assert(out@ =~= program_source(bs));
    string_from_chars(&out)
}

/// The OpenCL program that declares every global array of `block_config` and
/// the store and copy-out kernel of every block.
pub fn gen_vector_program_source(block_config: &MemoryBlockConfigMap) -> (s: String)
    requires
        initializers_defined(block_config@),
    ensures
        s@ == program_source(block_config@),
{
    program_source_of(&block_config.entries)
}

} // verus!

verus! {

/// A buffer laid out over `n` elements: each byte widened, positions past the
/// buffer set to -1, bytes past `n` dropped.
pub open spec fn prepared_input(buf: Seq<u8>, n: nat) -> Seq<i32> {
    Seq::new(n, |i: int| if i < buf.len() { buf[i] as i32 } else { -1i32 })
}

/// The bytes read back from a global array: its elements other than -1 and
/// smaller values, each narrowed to a byte.
pub open spec fn decoded_output(out: Seq<i32>) -> Seq<u8>
    decreases out.len(),
{
    if out.len() == 0 {
        Seq::empty()
    } else if out.last() > -1 {
        decoded_output(out.drop_last()).push(out.last() as u8)
    } else {
        decoded_output(out.drop_last())
    }
}

/// Lays `buf` out over `vector_size` elements, as the store kernel receives it.
pub fn prepare_input(buf: &[u8], vector_size: usize) -> (input: Vec<i32>)
    ensures
        input@ == prepared_input(buf@, vector_size as nat),
{
    let mut input: Vec<i32> = vec![-1i32; vector_size];
    let n = if vector_size > buf.len() { buf.len() } else { vector_size };
    let mut i: usize = 0;
    while i < n
        invariant
            n <= vector_size,
            n <= buf@.len(),
            n == vector_size || n == buf@.len(),
            i <= n,
            input@.len() == vector_size,
            forall|k: int| 0 <= k < i ==> input@[k] == buf@[k] as i32,
            forall|k: int| i <= k < vector_size ==> input@[k] == -1i32,
        decreases n - i,
    {
        input.set(i, buf[i] as i32);
        i = i + 1;
    }
    assert(input@ =~= prepared_input(buf@, vector_size as nat));
    input
}

/// The bytes held by a global array that was read back.
pub fn decode_output(output: &[i32]) -> (bytes: Vec<u8>)
    ensures
        bytes@ == decoded_output(output@),
{
    let mut bytes: Vec<u8> = Vec::new();
    let mut i: usize = 0;
    while i < output.len()
        invariant
            i <= output@.len(),
            bytes@ == decoded_output(output@.take(i as int)),
        decreases output@.len() - i,
    {
        let x = output[i];
        proof {
            assert(output@.take(i + 1).drop_last() =~= output@.take(i as int));
            assert(output@.take(i + 1).last() == x);
        }
        if x > -1 {
            bytes.push(x as u8);
        }
        i = i + 1;
    }
    assert(output@.take(output@.len() as int) =~= output@);
    bytes
}

/// Reading back what was stored gives the stored bytes, cut at the array length.
pub proof fn lemma_decode_prepared(buf: Seq<u8>, n: nat)
    ensures
        decoded_output(prepared_input(buf, n)) == buf.take(if n < buf.len() { n as int } else { buf.len() as int }),
    decreases n,
{
    let p = prepared_input(buf, n);
    if n > 0 {
        let q = prepared_input(buf, (n - 1) as nat);
        assert(p.drop_last() =~= q);
        lemma_decode_prepared(buf, (n - 1) as nat);
        if n - 1 < buf.len() {
            assert(p.last() == buf[n - 1] as i32);
            assert(buf.take(n - 1).push(buf[n - 1]) =~= buf.take(n as int));
        } else {
            assert(p.last() == -1i32);
        }
    } else {
        assert(buf.take(0) =~= Seq::<u8>::empty());
    }
}

/// What the store kernel needs to put a buffer into a global array.
#[derive(Debug)]
pub struct EnqueuePlan {
    /// Kernel to run.
    pub kernel_name: String,
    /// Elements per array of the block.
    pub vector_size: usize,
    /// The buffer laid out over the array.
    pub input: Vec<i32>,
    /// Index of the target array, once per element.
    pub selector: Vec<i32>,
}

/// What the copy-out kernel needs to read a global array back.
#[derive(Debug)]
pub struct DequeuePlan {
    /// Kernel to run.
    pub kernel_name: String,
    /// Elements per array of the block.
    pub vector_size: usize,
    /// Index of the source array, once per element.
    pub selector: Vec<i32>,
}

/// The block of `key` is configured.
pub open spec fn key_block_known(c: ConfigSeq, key: Seq<char>) -> bool {
    exists|i: int| 0 <= i < c.len() && c[i].0 == key_name(key)
}

/// Configuration of the block of `key` (meaningful when [`key_block_known`] holds).
pub open spec fn key_block(c: ConfigSeq, key: Seq<char>) -> MemoryBlockConfig {
    c[choose|i: int| 0 <= i < c.len() && c[i].0 == key_name(key)].1
}

/// A key handed out for a buffer of `len` elements names a configured block
/// whose arrays hold `len` elements, and one of that block's arrays: storing a
/// buffer of at most `len` bytes under it is planned, and what is read back is
/// the buffer.
pub proof fn lemma_handed_out_key_stores(
    m: KeySeq,
    c: ConfigSeq,
    len: nat,
    k: Seq<char>,
    buf: Seq<u8>,
)
    requires
        config_names_unique(c),
        spec_next_key(m, c, len) == Ok::<Seq<char>, OpenclError>(k),
        buf.len() <= len,
    ensures
        k.contains('_'),
        key_block_known(c, k),
        parses_as_u64(index_text(k)),
        key_index(k) <= key_block(c, k).global_array_count - 1,
        key_block(c, k).global_array_capacity >= len,
        decoded_output(prepared_input(buf, key_block(c, k).global_array_capacity as nat)) == buf,
{
    let j = choice(m, c, len);
    assert(is_choice(m, c, len, j));
    let b = c[j].0;
    let n: nat = match max_key_index(m, b) {
        None => 0,
        Some(p) => p + 1,
    };
    assert(n <= c[j].1.global_array_count - 1) by {
        if let Some(p) = max_key_index(m, b) {
            assert(p < c[j].1.global_array_count - 1);
        }
    }
    lemma_key_round_trip(b, n);
    assert(k == key_text(b, n));
    assert(key_block_known(c, k));
    let i = choose|i: int| 0 <= i < c.len() && c[i].0 == key_name(k);
    assert(i == j) by {
        if i < j {
            assert(c[i].0 != c[j].0);
        } else if j < i {
            assert(c[j].0 != c[i].0);
        }
    }
    let cap = key_block(c, k).global_array_capacity as nat;
    lemma_decode_prepared(buf, cap);
    assert(buf.take(buf.len() as int) =~= buf);
}

/// The store kernel's inputs for putting `buf` under `key`; fails when the block
/// is unknown or the index is past the block's last array.
pub fn enqueue_plan(memory_block: &MemoryBlock, buf: &[u8], key: &str) -> (r: OpenClResult<EnqueuePlan>)
    requires
        key@.contains('_'),
        key_block_known(memory_block.configs(), key@) ==> parses_as_u64(index_text(key@))
            && key_block(memory_block.configs(), key@).global_array_count > 0,
    ensures
        match r {
            Ok(plan) => {
                let cfg = key_block(memory_block.configs(), key@);
                &&& key_block_known(memory_block.configs(), key@)
                &&& key_index(key@) <= cfg.global_array_count - 1
                &&& plan.kernel_name@ == VECTOR_ADD_KERNEL_NAME@ + seq!['_'] + key_name(key@)
                &&& plan.vector_size == cfg.global_array_capacity
                &&& plan.input@ == prepared_input(buf@, cfg.global_array_capacity as nat)
                &&& plan.selector@ == Seq::new(
                    cfg.global_array_capacity as nat,
                    |i: int| key_index(key@) as u64 as i32,
                )
            },
            Err(e) => {
                &&& e == OpenclError::CustomOpenCl(INVALID_GLOBAL_ARRAY_ID)
                &&& (key_block_known(memory_block.configs(), key@) ==> key_index(key@) > key_block(
                    memory_block.configs(),
                    key@,
                ).global_array_count - 1)
            },
        },
{
    let (block_name, block_config) = match memory_block.get_config_by_key(key) {
        Ok(v) => v,
        Err(e) => {
            return Err(e);
        },
    };
    proof {
        use_type_invariant(&memory_block.config);
        lemma_key_block(memory_block, key@, *block_config);
    }
    let vector_size = block_config.global_array_capacity;
    let global_array_index = get_index_from_key(key);
    if global_array_index > (block_config.global_array_count - 1) as u64 {
        return Err(OpenclError::CustomOpenCl(INVALID_GLOBAL_ARRAY_ID));
    }
    let selector = vec![global_array_index as i32; vector_size];
    let input = prepare_input(buf, vector_size);
    let kernel_name = get_kernel_name(VECTOR_ADD_KERNEL_NAME, block_name);
    assert(selector@ =~= Seq::new(vector_size as nat, |i: int| key_index(key@) as u64 as i32));
    Ok(EnqueuePlan { kernel_name, vector_size, input, selector })
}

/// The copy-out kernel's inputs for reading back the array of `key`; fails when
/// the block is unknown or the index is past the block's array count.
pub fn dequeue_plan(memory_block: &MemoryBlock, key: &str) -> (r: OpenClResult<DequeuePlan>)
    requires
        key@.contains('_'),
        key_block_known(memory_block.configs(), key@) ==> parses_as_u64(index_text(key@)),
    ensures
        match r {
            Ok(plan) => {
                let cfg = key_block(memory_block.configs(), key@);
                &&& key_block_known(memory_block.configs(), key@)
                &&& key_index(key@) <= cfg.global_array_count
                &&& plan.kernel_name@ == VECTOR_EXTRACT_KERNEL_NAME@ + seq!['_'] + key_name(key@)
                &&& plan.vector_size == cfg.global_array_capacity
                &&& plan.selector@ == Seq::new(
                    cfg.global_array_capacity as nat,
                    |i: int| key_index(key@) as u64 as i32,
                )
            },
            Err(e) => {
                &&& e == OpenclError::CustomOpenCl(INVALID_GLOBAL_ARRAY_ID)
                &&& (key_block_known(memory_block.configs(), key@) ==> key_index(key@) > key_block(
                    memory_block.configs(),
                    key@,
                ).global_array_count)
            },
        },
{
    let (block_name, block_config) = match memory_block.get_config_by_key(key) {
        Ok(v) => v,
        Err(e) => {
            return Err(e);
        },
    };
    proof {
        use_type_invariant(&memory_block.config);
        lemma_key_block(memory_block, key@, *block_config);
    }
    let vector_size = block_config.global_array_capacity;
    let global_array_index = get_index_from_key(key);
    if global_array_index > block_config.global_array_count as u64 {
        return Err(OpenclError::CustomOpenCl(INVALID_GLOBAL_ARRAY_ID));
    }
    let selector = vec![global_array_index as i32; vector_size];
    let kernel_name = get_kernel_name(VECTOR_EXTRACT_KERNEL_NAME, block_name);
    assert(selector@ =~= Seq::new(vector_size as nat, |i: int| key_index(key@) as u64 as i32));
    Ok(DequeuePlan { kernel_name, vector_size, selector })
}

/// The configuration found for a key is the one [`key_block`] names.
proof fn lemma_key_block(memory_block: &MemoryBlock, key: Seq<char>, cfg: MemoryBlockConfig)
    requires
        config_names_unique(memory_block.configs()),
        exists|i: int|
            0 <= i < memory_block.configs().len() && memory_block.configs()[i].0 == key_name(key)
                && memory_block.configs()[i].1 == cfg,
    ensures
        key_block_known(memory_block.configs(), key),
        key_block(memory_block.configs(), key) == cfg,
{
    let c = memory_block.configs();
    let w = choose|i: int| 0 <= i < c.len() && c[i].0 == key_name(key) && c[i].1 == cfg;
    let k = choose|i: int| 0 <= i < c.len() && c[i].0 == key_name(key);
    if k != w {
        if k < w {
            assert(c[k].0 != c[w].0);
        } else {
            assert(c[w].0 != c[k].0);
        }
    }
}

} // verus!

verus! {

/// A block configuration.
pub open spec fn block_config(capacity: usize, count: usize) -> MemoryBlockConfig {
    MemoryBlockConfig {
        global_array_capacity: capacity,
        global_array_count: count,
        negative_initial_value: false,
    }
}

/// The standard layout: ten blocks from one kibibyte to nine mebibytes.
pub open spec fn default_config_seq() -> ConfigSeq {
    seq![
        ("1kb"@, block_config(1024, 2400)),
        ("2kb"@, block_config(2048, 1200)),
        ("4kb"@, block_config(4096, 600)),
        ("6kb"@, block_config(6144, 200)),
        ("8kb"@, block_config(8192, 200)),
        ("128_kb"@, block_config(131072, 500)),
        ("512_kb"@, block_config(524288, 200)),
        ("1mb"@, block_config(1048576, 10)),
        ("2mb"@, block_config(2097152, 10)),
        ("9mb"@, block_config(9437184, 10)),
    ]
}

impl MemoryBlockConfigMap {
    /// Appends a block whose name is not yet present.
    fn push_new(&mut self, name: &str, config: MemoryBlockConfig)
        requires
            forall|i: int| 0 <= i < old(self)@.len() ==> old(self)@[i].0 != name@,
        ensures
            final(self)@ == old(self)@.push((name@, config)),
    {
        proof {
            if exists|i: int| 0 <= i < old(self)@.len() && old(self)@[i].0 == name@ {
            }
        }
        self.insert(name, config);
    }
}

/// The standard block layout.
pub fn default_memory_block_config() -> (m: MemoryBlockConfigMap)
    ensures
        m@ == default_config_seq(),
{
    proof {
        reveal_strlit("1kb");
        reveal_strlit("2kb");
        reveal_strlit("4kb");
        reveal_strlit("6kb");
        reveal_strlit("8kb");
        reveal_strlit("128_kb");
        reveal_strlit("512_kb");
        reveal_strlit("1mb");
        reveal_strlit("2mb");
        reveal_strlit("9mb");
        assert("2kb"@[0] != "1kb"@[0]);
        assert("4kb"@[0] != "1kb"@[0]);
        assert("4kb"@[0] != "2kb"@[0]);
        assert("6kb"@[0] != "1kb"@[0]);
        assert("6kb"@[0] != "2kb"@[0]);
        assert("6kb"@[0] != "4kb"@[0]);
        assert("8kb"@[0] != "1kb"@[0]);
        assert("8kb"@[0] != "2kb"@[0]);
        assert("8kb"@[0] != "4kb"@[0]);
        assert("8kb"@[0] != "6kb"@[0]);
        assert("128_kb"@.len() != "1kb"@.len());
        assert("128_kb"@.len() != "2kb"@.len());
        assert("128_kb"@.len() != "4kb"@.len());
        assert("128_kb"@.len() != "6kb"@.len());
        assert("128_kb"@.len() != "8kb"@.len());
        assert("512_kb"@.len() != "1kb"@.len());
        assert("512_kb"@.len() != "2kb"@.len());
        assert("512_kb"@.len() != "4kb"@.len());
        assert("512_kb"@.len() != "6kb"@.len());
        assert("512_kb"@.len() != "8kb"@.len());
        assert("512_kb"@[0] != "128_kb"@[0]);
        assert("1mb"@[1] != "1kb"@[1]);
        assert("1mb"@[0] != "2kb"@[0]);
        assert("1mb"@[0] != "4kb"@[0]);
        assert("1mb"@[0] != "6kb"@[0]);
        assert("1mb"@[0] != "8kb"@[0]);
        assert("1mb"@.len() != "128_kb"@.len());
        assert("1mb"@.len() != "512_kb"@.len());
        assert("2mb"@[0] != "1kb"@[0]);
        assert("2mb"@[1] != "2kb"@[1]);
        assert("2mb"@[0] != "4kb"@[0]);
        assert("2mb"@[0] != "6kb"@[0]);
        assert("2mb"@[0] != "8kb"@[0]);
        assert("2mb"@.len() != "128_kb"@.len());
        assert("2mb"@.len() != "512_kb"@.len());
        assert("2mb"@[0] != "1mb"@[0]);
        assert("9mb"@[0] != "1kb"@[0]);
        assert("9mb"@[0] != "2kb"@[0]);
        assert("9mb"@[0] != "4kb"@[0]);
        assert("9mb"@[0] != "6kb"@[0]);
        assert("9mb"@[0] != "8kb"@[0]);
        assert("9mb"@.len() != "128_kb"@.len());
        assert("9mb"@.len() != "512_kb"@.len());
        assert("9mb"@[0] != "1mb"@[0]);
        assert("9mb"@[0] != "2mb"@[0]);
    }
    let mut m = MemoryBlockConfigMap::new();
    m.push_new(KB_1_S, MemoryBlockConfig { global_array_capacity: KB_1, global_array_count: 2400, negative_initial_value: false });
    m.push_new("2kb", MemoryBlockConfig { global_array_capacity: KB_1 * 2, global_array_count: 1200, negative_initial_value: false });
    m.push_new("4kb", MemoryBlockConfig { global_array_capacity: KB_1 * 4, global_array_count: 600, negative_initial_value: false });
    m.push_new("6kb", MemoryBlockConfig { global_array_capacity: KB_1 * 6, global_array_count: 200, negative_initial_value: false });
    m.push_new("8kb", MemoryBlockConfig { global_array_capacity: KB_1 * 8, global_array_count: 200, negative_initial_value: false });
    m.push_new("128_kb", MemoryBlockConfig { global_array_capacity: KB_1 * 128, global_array_count: 500, negative_initial_value: false });
    m.push_new("512_kb", MemoryBlockConfig { global_array_capacity: KB_1 * 512, global_array_count: 200, negative_initial_value: false });
    m.push_new(MB_1_S, MemoryBlockConfig { global_array_capacity: MB_1, global_array_count: 10, negative_initial_value: false });
    m.push_new("2mb", MemoryBlockConfig { global_array_capacity: MB_1 * 2, global_array_count: 10, negative_initial_value: false });
    m.push_new("9mb", MemoryBlockConfig { global_array_capacity: MB_1 * 9, global_array_count: 10, negative_initial_value: false });
    assert(m@ =~= default_config_seq());
    m
}

/// A memory block with the standard layout and no key handed out.
pub fn default_memory_block() -> (b: MemoryBlock)
    ensures
        b.configs() == default_config_seq(),
        b.keys() == Seq::<(Seq<char>, u64)>::empty(),
{
    MemoryBlock::new(default_memory_block_config())
}

} // verus!
