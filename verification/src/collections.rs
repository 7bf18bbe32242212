//! Insertion-ordered maps (`indexmap::IndexMap`) keyed by strings.
//!
//! The contents of each map are modelled as the sequence of its entries in
//! order, each key taken by its view.
use vstd::prelude::*;

use indexmap::IndexMap;

use crate::model::job::{Job, JobView, StringOrVec};
use crate::model::variables::{VariableValue, VariableView};

verus! {

#[verifier::external_type_specification]
#[verifier::external_body]
#[verifier::reject_recursive_types(K)]
#[verifier::reject_recursive_types(V)]
#[verifier::reject_recursive_types(S)]
pub struct ExIndexMap<K, V, S>(IndexMap<K, V, S>);

/// `IndexMap::clone`, as called by the clones of the model types that hold maps.
/// Nothing is stated of the result here; `vars_clone` states what a variables
/// map's clone holds.
pub assume_specification<K: Clone, V: Clone, S: Clone>[ <IndexMap<K, V, S> as Clone>::clone ](
    m: &IndexMap<K, V, S>,
) -> IndexMap<K, V, S>;

/// Index of the first entry whose key is `k`, or `-1`.
pub open spec fn key_index<K, V>(s: Seq<(K, V)>, k: K) -> int
    decreases s.len(),
{
    if s.len() == 0 {
        -1
    } else {
        let j = key_index(s.drop_last(), k);
        if j >= 0 {
            j
        } else if s.last().0 == k {
            s.len() - 1
        } else {
            -1
        }
    }
}

/// Whether some entry has key `k`.
pub open spec fn has_key<K, V>(s: Seq<(K, V)>, k: K) -> bool {
    key_index(s, k) >= 0
}

/// The value of the first entry with key `k`.
pub open spec fn lookup<K, V>(s: Seq<(K, V)>, k: K) -> Option<V> {
    if key_index(s, k) >= 0 {
        Some(s[key_index(s, k)].1)
    } else {
        None
    }
}

/// `IndexMap::insert`: an existing key keeps its place and takes the new value;
/// a new key goes last.
pub open spec fn entries_insert<K, V>(s: Seq<(K, V)>, k: K, v: V) -> Seq<(K, V)> {
    if key_index(s, k) >= 0 {
        s.update(key_index(s, k), (k, v))
    } else {
        s.push((k, v))
    }
}

/// Inserting every entry of `t`, in order, into `s`.
pub open spec fn entries_insert_all<K, V>(s: Seq<(K, V)>, t: Seq<(K, V)>) -> Seq<(K, V)>
    decreases t.len(),
{
    if t.len() == 0 {
        s
    } else {
        entries_insert(entries_insert_all(s, t.drop_last()), t.last().0, t.last().1)
    }
}

pub proof fn lemma_key_index_bounds<K, V>(s: Seq<(K, V)>, k: K)
    ensures
        -1 <= key_index(s, k) < s.len(),
        key_index(s, k) >= 0 ==> s[key_index(s, k)].0 == k,
        key_index(s, k) >= 0 ==> forall|j: int| 0 <= j < key_index(s, k) ==> s[j].0 != k,
        key_index(s, k) == -1 ==> forall|j: int| 0 <= j < s.len() ==> s[j].0 != k,
    decreases s.len(),
{
    if s.len() > 0 {
        lemma_key_index_bounds(s.drop_last(), k);
        let j = key_index(s.drop_last(), k);
        if j >= 0 {
            assert(s[j] == s.drop_last()[j]);
            assert forall|i: int| 0 <= i < j implies s[i].0 != k by {
                assert(s[i] == s.drop_last()[i]);
            }
        } else {
            assert forall|i: int| 0 <= i < s.len() - 1 implies s[i].0 != k by {
                assert(s[i] == s.drop_last()[i]);
            }
        }
    }
}

/// Characterizes `key_index` by the first position holding the key.
pub proof fn lemma_key_index_is<K, V>(s: Seq<(K, V)>, k: K, i: int)
    requires
        -1 <= i < s.len(),
        i >= 0 ==> s[i].0 == k,
        i >= 0 ==> forall|j: int| 0 <= j < i ==> s[j].0 != k,
        i == -1 ==> forall|j: int| 0 <= j < s.len() ==> s[j].0 != k,
    ensures
        key_index(s, k) == i,
{
    lemma_key_index_bounds(s, k);
    let r = key_index(s, k);
    if r >= 0 && i >= 0 {
        if r < i {
            assert(s[r].0 != k);
        } else if i < r {
            assert(s[i].0 != k);
        }
    } else if r >= 0 {
        assert(s[r].0 != k);
    } else if i >= 0 {
        assert(s[i].0 != k);
    }
}

/// No key occurs twice.
pub open spec fn unique_keys<K, V>(s: Seq<(K, V)>) -> bool {
    forall|i: int, j: int| 0 <= i < j < s.len() ==> s[i].0 != s[j].0
}

/// Inserting keeps keys unique, and the key then sits at its index.
pub proof fn lemma_insert_unique<K, V>(s: Seq<(K, V)>, k: K, v: V)
    requires
        unique_keys(s),
    ensures
        unique_keys(entries_insert(s, k, v)),
        key_index(entries_insert(s, k, v), k) >= 0,
{
    lemma_key_index_bounds(s, k);
    let t = entries_insert(s, k, v);
    if key_index(s, k) >= 0 {
        assert forall|i: int, j: int| 0 <= i < j < t.len() implies t[i].0 != t[j].0 by {
            if i == key_index(s, k) || j == key_index(s, k) {
            } else {
            }
        }
        lemma_key_index_bounds(t, k);
        assert(t[key_index(s, k)].0 == k);
    } else {
        lemma_key_index_bounds(t, k);
        assert(t[s.len() as int].0 == k);
    }
}

// ---------------------------------------------------------------------------
// IndexMap<String, VariableValue>
// ---------------------------------------------------------------------------
/// The entries of a variables map, in order.
pub uninterp spec fn var_entries(m: IndexMap<String, VariableValue>) -> Seq<
    (Seq<char>, VariableView),
>;

/// `IndexMap::new`: an empty map (whose keys, like those of every `IndexMap`, are
/// unique).
#[verifier::external_body]
pub fn vars_new() -> (m: IndexMap<String, VariableValue>)
    ensures
        var_entries(m) == Seq::<(Seq<char>, VariableView)>::empty(),
        unique_keys(var_entries(m)),
{
    IndexMap::new()
}

/// `IndexMap::insert`: the key's entry takes the value, or a new entry goes last; no key
/// then occurs twice, as in every `IndexMap`.
#[verifier::external_body]
pub fn vars_insert(m: &mut IndexMap<String, VariableValue>, k: String, v: VariableValue)
    ensures
        var_entries(*final(m)) == entries_insert(var_entries(*old(m)), k@, v@),
        unique_keys(var_entries(*final(m))),
{
    m.insert(k, v);
}

/// `IndexMap::len`.
#[verifier::external_body]
pub fn vars_len(m: &IndexMap<String, VariableValue>) -> (n: usize)
    ensures
        n == var_entries(*m).len(),
{
    m.len()
}

/// `IndexMap::get_index` at a valid index.
#[verifier::external_body]
pub fn vars_get_index(m: &IndexMap<String, VariableValue>, i: usize) -> (r: (
    &String,
    &VariableValue,
))
    requires
        i < var_entries(*m).len(),
    ensures
        r.0@ == var_entries(*m)[i as int].0,
        r.1@ == var_entries(*m)[i as int].1,
{
    m.get_index(i).unwrap()
}

/// `IndexMap::get_index_of`: the position of the key, whose entry is the first
/// (and only) one with that key.
#[verifier::external_body]
pub fn vars_index_of(m: &IndexMap<String, VariableValue>, k: &str) -> (r: Option<usize>)
    ensures
        match r {
            Some(i) => i as int == key_index(var_entries(*m), k@),
            None => key_index(var_entries(*m), k@) == -1,
        },
{
    m.get_index_of(k)
}

/// `IndexMap::clone`: the same entries, in the same order, keys unique.
#[verifier::external_body]
pub fn vars_clone(m: &IndexMap<String, VariableValue>) -> (r: IndexMap<String, VariableValue>)
    ensures
        var_entries(r) == var_entries(*m),
        unique_keys(var_entries(r)),
{
    m.clone()
}

// ---------------------------------------------------------------------------
// IndexMap<String, Job>
// ---------------------------------------------------------------------------
/// The entries of a job map, in order.
pub uninterp spec fn job_entries(m: IndexMap<String, Job>) -> Seq<(Seq<char>, JobView)>;

/// `IndexMap::new`: an empty map (whose keys, like those of every `IndexMap`, are
/// unique).
#[verifier::external_body]
pub fn jobs_new() -> (m: IndexMap<String, Job>)
    ensures
        job_entries(m) == Seq::<(Seq<char>, JobView)>::empty(),
        unique_keys(job_entries(m)),
{
    IndexMap::new()
}

/// `IndexMap::insert`: the key's entry takes the value, or a new entry goes last; no key
/// then occurs twice, as in every `IndexMap`.
#[verifier::external_body]
pub fn jobs_insert(m: &mut IndexMap<String, Job>, k: String, v: Job)
    ensures
        job_entries(*final(m)) == entries_insert(job_entries(*old(m)), k@, v@),
        unique_keys(job_entries(*final(m))),
{
    m.insert(k, v);
}

/// `IndexMap::len`.
#[verifier::external_body]
pub fn jobs_len(m: &IndexMap<String, Job>) -> (n: usize)
    ensures
        n == job_entries(*m).len(),
{
    m.len()
}

/// `IndexMap::get_index_mut` at a valid index, its value replaced: the entry keeps its
/// key and place.
#[verifier::external_body]
pub fn jobs_set_value(m: &mut IndexMap<String, Job>, i: usize, v: Job)
    requires
        i < job_entries(*old(m)).len(),
    ensures
        job_entries(*final(m)) == job_entries(*old(m)).update(
            i as int,
            (job_entries(*old(m))[i as int].0, v@),
        ),
{
    *m.get_index_mut(i).unwrap().1 = v;
}

/// `IndexMap::get_index` at a valid index.
#[verifier::external_body]
pub fn jobs_get_index(m: &IndexMap<String, Job>, i: usize) -> (r: (&String, &Job))
    requires
        i < job_entries(*m).len(),
    ensures
        r.0@ == job_entries(*m)[i as int].0,
        r.1@ == job_entries(*m)[i as int].1,
{
    m.get_index(i).unwrap()
}

/// `IndexMap::get_index_of`.
#[verifier::external_body]
pub fn jobs_index_of(m: &IndexMap<String, Job>, k: &str) -> (r: Option<usize>)
    ensures
        match r {
            Some(i) => i as int == key_index(job_entries(*m), k@),
            None => key_index(job_entries(*m), k@) == -1,
        },
{
    m.get_index_of(k)
}

// ---------------------------------------------------------------------------
// IndexMap<String, StringOrVec>
// ---------------------------------------------------------------------------
/// The entries of one `parallel:matrix` row, in order.
pub uninterp spec fn matrix_entries(m: IndexMap<String, StringOrVec>) -> Seq<
    (Seq<char>, Seq<Seq<char>>),
>;

/// `IndexMap::len`.
#[verifier::external_body]
pub fn matrix_len(m: &IndexMap<String, StringOrVec>) -> (n: usize)
    ensures
        n == matrix_entries(*m).len(),
{
    m.len()
}

/// `IndexMap::get_index` at a valid index.
#[verifier::external_body]
pub fn matrix_get_index(m: &IndexMap<String, StringOrVec>, i: usize) -> (r: (
    &String,
    &StringOrVec,
))
    requires
        i < matrix_entries(*m).len(),
    ensures
        r.0@ == matrix_entries(*m)[i as int].0,
        r.1.items() == matrix_entries(*m)[i as int].1,
{
    m.get_index(i).unwrap()
}

/// `IndexMap::clone`: the same entries, in the same order, keys unique.
#[verifier::external_body]
pub fn matrix_clone(m: &IndexMap<String, StringOrVec>) -> (r: IndexMap<String, StringOrVec>)
    ensures
        matrix_entries(r) == matrix_entries(*m),
        unique_keys(matrix_entries(r)),
{
    m.clone()
}

// ---------------------------------------------------------------------------
// IndexMap<String, String>
// ---------------------------------------------------------------------------
/// The entries of a string map, each key and value taken by its view.
pub uninterp spec fn str_entries(m: IndexMap<String, String>) -> Seq<(Seq<char>, Seq<char>)>;

/// `IndexMap::new`: an empty map (whose keys, like those of every `IndexMap`, are
/// unique).
#[verifier::external_body]
pub fn strs_new() -> (m: IndexMap<String, String>)
    ensures
        str_entries(m) == Seq::<(Seq<char>, Seq<char>)>::empty(),
        unique_keys(str_entries(m)),
{
    IndexMap::new()
}

/// `IndexMap::insert`: the key's entry takes the value, or a new entry goes last; no key
/// then occurs twice, as in every `IndexMap`.
#[verifier::external_body]
pub fn strs_insert(m: &mut IndexMap<String, String>, k: String, v: String)
    ensures
        str_entries(*final(m)) == entries_insert(str_entries(*old(m)), k@, v@),
        unique_keys(str_entries(*final(m))),
{
    m.insert(k, v);
}

/// `IndexMap::len`.
#[verifier::external_body]
pub fn strs_len(m: &IndexMap<String, String>) -> (n: usize)
    ensures
        n == str_entries(*m).len(),
{
    m.len()
}

/// `IndexMap::get_index` at a valid index.
#[verifier::external_body]
pub fn strs_get_index(m: &IndexMap<String, String>, i: usize) -> (r: (&String, &String))
    requires
        i < str_entries(*m).len(),
    ensures
        r.0@ == str_entries(*m)[i as int].0,
        r.1@ == str_entries(*m)[i as int].1,
{
    m.get_index(i).unwrap()
}

/// `IndexMap::clone`: the same entries, in the same order, keys unique.
#[verifier::external_body]
pub fn strs_clone(m: &IndexMap<String, String>) -> (r: IndexMap<String, String>)
    ensures
        str_entries(r) == str_entries(*m),
        unique_keys(str_entries(r)),
{
    m.clone()
}

/// `IndexMap::get_index_of`.
#[verifier::external_body]
pub fn strs_index_of(m: &IndexMap<String, String>, k: &str) -> (r: Option<usize>)
    ensures
        match r {
            Some(i) => i as int == key_index(str_entries(*m), k@),
            None => key_index(str_entries(*m), k@) == -1,
        },
{
    m.get_index_of(k)
}

} // verus!
