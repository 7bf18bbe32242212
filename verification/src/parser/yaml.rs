//! A YAML document tree and the GitLab-specific resolution passes over it.
use vstd::prelude::*;

use crate::collections::{entries_insert, key_index, lemma_key_index_bounds};
use crate::text::{str_eq, views};

verus! {

/// A YAML node. Mappings keep their entries in document order.
#[derive(Debug)]
pub enum Yaml {
    Null,
    Bool(bool),
    /// An integer scalar.
    Int(i128),
    /// A floating-point scalar, kept in its textual form.
    Float(String),
    String(String),
    Sequence(Vec<Yaml>),
    Mapping(Vec<(Yaml, Yaml)>),
    /// A node with an explicit tag, the tag written with its `!` (`!reference`).
    Tagged(String, Box<Yaml>),
}

/// What a YAML node holds, as mathematical values.
pub enum YamlView {
    Null,
    Bool(bool),
    Int(int),
    Float(Seq<char>),
    Str(Seq<char>),
    List(Seq<YamlView>),
    Dict(Seq<(YamlView, YamlView)>),
    Tagged(Seq<char>, Box<YamlView>),
}

pub open spec fn yaml_view(y: Yaml) -> YamlView
    decreases y,
{
    match y {
        Yaml::Null => YamlView::Null,
        Yaml::Bool(b) => YamlView::Bool(b),
        Yaml::Int(i) => YamlView::Int(i as int),
        Yaml::Float(f) => YamlView::Float(f@),
        Yaml::String(s) => YamlView::Str(s@),
        Yaml::Sequence(items) => YamlView::List(
            Seq::new(
                items@.len(),
                |i: int|
                    if 0 <= i < items@.len() {
                        yaml_view(items@[i])
                    } else {
                        YamlView::Null
                    },
            ),
        ),
        Yaml::Mapping(entries) => YamlView::Dict(
            Seq::new(
                entries@.len(),
                |i: int|
                    if 0 <= i < entries@.len() {
                        (yaml_view(entries@[i].0), yaml_view(entries@[i].1))
                    } else {
                        (YamlView::Null, YamlView::Null)
                    },
            ),
        ),
        Yaml::Tagged(t, inner) => YamlView::Tagged(t@, Box::new(yaml_view(*inner))),
    }
}

impl View for Yaml {
    type V = YamlView;

    open spec fn view(&self) -> YamlView {
        yaml_view(*self)
    }
}

impl Yaml {
    /// A deep copy of this node.
    #[verifier::loop_isolation(false)]
    pub fn deep_copy(&self) -> (r: Yaml)
        ensures
            r@ == self@,
        decreases self,
    {
        match self {
            Yaml::Null => Yaml::Null,
            Yaml::Bool(b) => Yaml::Bool(*b),
            Yaml::Int(i) => Yaml::Int(*i),
            Yaml::Float(f) => Yaml::Float(f.clone()),
            Yaml::String(s) => Yaml::String(s.clone()),
            Yaml::Sequence(items) => {
                let mut v: Vec<Yaml> = Vec::new();
                let mut i: usize = 0;
                while i < items.len()
                    invariant
                        i <= items@.len(),
                        v@.len() == i,
                        forall|j: int| 0 <= j < i ==> #[trigger] v@[j]@ == items@[j]@,
                    decreases items@.len() - i,
                {
                    proof {
                        assert(decreases_to!(*self => *items));
                        assert(decreases_to!(*items => items@));
                        assert(decreases_to!(items@ => items@[i as int]));
                        assert(decreases_to!(*self => items@[i as int]));
                    }
                    v.push(items[i].deep_copy());
                    i = i + 1;
                }
                let r = Yaml::Sequence(v);
                assert(r@ == self@) by {
                    let a = yaml_view(r)->List_0;
                    let b = yaml_view(*self)->List_0;
                    assert(a.len() == b.len());
                    assert forall|j: int| 0 <= j < a.len() implies a[j] == b[j] by {
                        assert(a[j] == yaml_view(v@[j]));
                        assert(b[j] == yaml_view(items@[j]));
                        assert(v@[j]@ == items@[j]@);
                    }
                    assert(a =~= b);
                }
                r
            },
            Yaml::Mapping(entries) => {
                let mut v: Vec<(Yaml, Yaml)> = Vec::new();
                let mut i: usize = 0;
                while i < entries.len()
                    invariant
                        i <= entries@.len(),
                        v@.len() == i,
                        forall|j: int|
                            0 <= j < i ==> #[trigger] v@[j].0@ == entries@[j].0@ && v@[j].1@
                                == entries@[j].1@,
                    decreases entries@.len() - i,
                {
                    proof {
                        assert(decreases_to!(*self => *entries));
                        assert(decreases_to!(*entries => entries@));
                        assert(decreases_to!(entries@ => entries@[i as int]));
                        assert(decreases_to!(entries@[i as int] => entries@[i as int].0));
                        assert(decreases_to!(entries@[i as int] => entries@[i as int].1));
                        assert(decreases_to!(*self => entries@[i as int].0));
                        assert(decreases_to!(*self => entries@[i as int].1));
                    }
                    let k = entries[i].0.deep_copy();
                    let val = entries[i].1.deep_copy();
                    v.push((k, val));
                    i = i + 1;
                }
                let r = Yaml::Mapping(v);
                assert(r@ == self@) by {
                    let a = yaml_view(r)->Dict_0;
                    let b = yaml_view(*self)->Dict_0;
                    assert(a.len() == b.len());
                    assert forall|j: int| 0 <= j < a.len() implies a[j] == b[j] by {
                        assert(a[j] == (yaml_view(v@[j].0), yaml_view(v@[j].1)));
                        assert(b[j] == (yaml_view(entries@[j].0), yaml_view(entries@[j].1)));
                        assert(v@[j].0@ == entries@[j].0@ && v@[j].1@ == entries@[j].1@);
                    }
                    assert(a =~= b);
                }
                r
            },
            Yaml::Tagged(t, inner) => Yaml::Tagged(t.clone(), Box::new((**inner).deep_copy())),
        }
    }
}

impl Clone for Yaml {
    fn clone(&self) -> (r: Yaml)
        ensures
            r@ == self@,
    {
        self.deep_copy()
    }
}

/// The views of a sequence's items.
pub open spec fn item_views(v: Seq<Yaml>) -> Seq<YamlView> {
    Seq::new(v.len(), |i: int| v[i]@)
}

/// The views of a mapping's entries.
pub open spec fn entry_views(v: Seq<(Yaml, Yaml)>) -> Seq<(YamlView, YamlView)> {
    Seq::new(v.len(), |i: int| (v[i].0@, v[i].1@))
}

pub proof fn lemma_sequence_view(items: Vec<Yaml>)
    ensures
        Yaml::Sequence(items)@ == YamlView::List(item_views(items@)),
{
    assert(yaml_view(Yaml::Sequence(items))->List_0 =~= item_views(items@));
}

pub proof fn lemma_mapping_view(entries: Vec<(Yaml, Yaml)>)
    ensures
        Yaml::Mapping(entries)@ == YamlView::Dict(entry_views(entries@)),
{
    assert(yaml_view(Yaml::Mapping(entries))->Dict_0 =~= entry_views(entries@));
}

/// The view of a string node.
pub open spec fn str_node(s: Seq<char>) -> YamlView {
    YamlView::Str(s)
}

/// Whether two nodes are equal, compared by what they hold.
#[verifier::loop_isolation(false)]
pub fn yaml_eq(a: &Yaml, b: &Yaml) -> (r: bool)
    ensures
        r == (a@ == b@),
    decreases a,
{
    match a {
        Yaml::Null => match b {
            Yaml::Null => true,
            _ => false,
        },
        Yaml::Bool(x) => match b {
            Yaml::Bool(y) => *x == *y,
            _ => false,
        },
        Yaml::Int(x) => match b {
            Yaml::Int(y) => *x == *y,
            _ => false,
        },
        Yaml::Float(x) => match b {
            Yaml::Float(y) => str_eq(x.as_str(), y.as_str()),
            _ => false,
        },
        Yaml::String(x) => match b {
            Yaml::String(y) => str_eq(x.as_str(), y.as_str()),
            _ => false,
        },
        Yaml::Sequence(x) => match b {
            Yaml::Sequence(y) => {
                proof {
                    lemma_sequence_view(*x);
                    lemma_sequence_view(*y);
                }
                if x.len() != y.len() {
                    assert(item_views(x@).len() != item_views(y@).len());
                    return false;
                }
                let mut i: usize = 0;
                while i < x.len()
                    invariant
                        x@.len() == y@.len(),
                        i <= x@.len(),
                        forall|j: int| 0 <= j < i ==> #[trigger] x@[j]@ == y@[j]@,
                    decreases x@.len() - i,
                {
                    proof {
                        assert(decreases_to!(*a => *x));
                        assert(decreases_to!(*x => x@));
                        assert(decreases_to!(x@ => x@[i as int]));
                    }
                    if !yaml_eq(&x[i], &y[i]) {
                        assert(item_views(x@)[i as int] != item_views(y@)[i as int]);
                        return false;
                    }
                    i = i + 1;
                }
                assert(item_views(x@) =~= item_views(y@));
                true
            },
            _ => false,
        },
        Yaml::Mapping(x) => match b {
            Yaml::Mapping(y) => {
                proof {
                    lemma_mapping_view(*x);
                    lemma_mapping_view(*y);
                }
                if x.len() != y.len() {
                    assert(entry_views(x@).len() != entry_views(y@).len());
                    return false;
                }
                let mut i: usize = 0;
                while i < x.len()
                    invariant
                        x@.len() == y@.len(),
                        i <= x@.len(),
                        forall|j: int|
                            #![trigger x@[j]]
                            0 <= j < i ==> x@[j].0@ == y@[j].0@ && x@[j].1@ == y@[j].1@,
                    decreases x@.len() - i,
                {
                    proof {
                        assert(decreases_to!(*a => *x));
                        assert(decreases_to!(*x => x@));
                        assert(decreases_to!(x@ => x@[i as int]));
                        assert(decreases_to!(x@[i as int] => x@[i as int].0));
                        assert(decreases_to!(x@[i as int] => x@[i as int].1));
                    }
                    let e0 = yaml_eq(&x[i].0, &y[i].0);
                    let e1 = yaml_eq(&x[i].1, &y[i].1);
                    if !e0 || !e1 {
                        assert(entry_views(x@)[i as int] != entry_views(y@)[i as int]);
                        return false;
                    }
                    assert(x@[i as int].0@ == y@[i as int].0@ && x@[i as int].1@ == y@[i as int].1@);
                    i = i + 1;
                }
                assert(entry_views(x@) =~= entry_views(y@));
                true
            },
            _ => false,
        },
        Yaml::Tagged(t, x) => match b {
            Yaml::Tagged(u, y) => {
                proof {
                    assert(decreases_to!(*a => *x));
                }
                str_eq(t.as_str(), u.as_str()) && yaml_eq(&**x, &**y)
            },
            _ => false,
        },
    }
}

/// Position of the entry with key `k`, as `Mapping::get` finds it.
pub fn find_key(m: &Vec<(Yaml, Yaml)>, k: &Yaml) -> (r: Option<usize>)
    ensures
        match r {
            Some(i) => i < m@.len() && i as int == key_index(entry_views(m@), k@),
            None => key_index(entry_views(m@), k@) == -1,
        },
{
    let ghost e = entry_views(m@);
    proof {
        lemma_key_index_bounds(e, k@);
    }
    let mut i: usize = 0;
    while i < m.len()
        invariant
            e == entry_views(m@),
            i <= m@.len(),
            forall|j: int| 0 <= j < i ==> #[trigger] e[j].0 != k@,
            -1 <= key_index(e, k@) < e.len(),
            key_index(e, k@) >= 0 ==> e[key_index(e, k@)].0 == k@,
            key_index(e, k@) >= 0 ==> forall|j: int| 0 <= j < key_index(e, k@) ==> e[j].0 != k@,
            key_index(e, k@) == -1 ==> forall|j: int| 0 <= j < e.len() ==> e[j].0 != k@,
        decreases m@.len() - i,
    {
        if yaml_eq(&m[i].0, k) {
            assert(e[i as int].0 == k@);
            return Some(i);
        }
        i = i + 1;
    }
    None
}

/// `Mapping::insert`: a present key takes the new value in its place, a new key goes
/// last.
pub fn map_insert(m: &mut Vec<(Yaml, Yaml)>, k: Yaml, v: Yaml)
    ensures
        entry_views(final(m)@) == entries_insert(entry_views(old(m)@), k@, v@),
{
    let ghost e = entry_views(m@);
    match find_key(m, &k) {
        Some(i) => {
            m.set(i, (k, v));
            assert(entry_views(m@) =~= e.update(i as int, (k@, v@)));
        },
        None => {
            m.push((k, v));
            assert(entry_views(m@) =~= e.push((k@, v@)));
        },
    }
}

/// `m` without its `i`-th entry, the last one taking its place (`swap_remove`).
pub open spec fn swap_removed<A>(m: Seq<A>, i: int) -> Seq<A> {
    m.update(i, m.last()).drop_last()
}

/// `Mapping::remove`: the entry with key `k` leaves, the last entry taking its place.
pub fn map_remove(m: &mut Vec<(Yaml, Yaml)>, k: &Yaml) -> (r: Option<Yaml>)
    ensures
        key_index(entry_views(old(m)@), k@) == -1 ==> r is None && final(m)@ == old(m)@,
        key_index(entry_views(old(m)@), k@) >= 0 ==> r is Some && r->0@ == entry_views(
            old(m)@,
        )[key_index(entry_views(old(m)@), k@)].1 && entry_views(final(m)@) == swap_removed(
            entry_views(old(m)@),
            key_index(entry_views(old(m)@), k@),
        ),
{
    let ghost e = entry_views(m@);
    match find_key(m, k) {
        Some(i) => {
            let (_, v) = m.swap_remove(i);
            assert(entry_views(m@) =~= swap_removed(e, i as int));
            Some(v)
        },
        None => None,
    }
}

// ---------------------------------------------------------------------------
// Merge keys (`<<`)
// ---------------------------------------------------------------------------
/// The merge key `<<`.
pub open spec fn merge_key() -> YamlView {
    YamlView::Str("<<"@)
}

/// The entries of `src` whose keys `m` lacks, added in order at the end of `m`.
pub open spec fn add_missing(m: Seq<(YamlView, YamlView)>, src: Seq<(YamlView, YamlView)>) -> Seq<
    (YamlView, YamlView),
>
    decreases src.len(),
{
    if src.len() == 0 {
        m
    } else {
        let m1 = add_missing(m, src.drop_last());
        if key_index(m1, src.last().0) >= 0 {
            m1
        } else {
            m1.push(src.last())
        }
    }
}

/// `add_missing` for each mapping among the merge sources, in order; other sources
/// add nothing.
pub open spec fn add_missing_from(m: Seq<(YamlView, YamlView)>, sources: Seq<YamlView>) -> Seq<
    (YamlView, YamlView),
>
    decreases sources.len(),
{
    if sources.len() == 0 {
        m
    } else {
        let m1 = add_missing_from(m, sources.drop_last());
        match sources.last() {
            YamlView::Dict(src) => add_missing(m1, src),
            _ => m1,
        }
    }
}

/// The sources a merge value names: itself when it is a mapping, its items when it is
/// a sequence, none otherwise.
pub open spec fn merge_sources(v: YamlView) -> Seq<YamlView> {
    match v {
        YamlView::Dict(_) => seq![v],
        YamlView::List(items) => items,
        _ => Seq::empty(),
    }
}

/// A mapping with its `<<` entry taken out and the keys of its sources merged in, the
/// mapping's own keys winning.
pub open spec fn merged_entries(m: Seq<(YamlView, YamlView)>) -> Seq<(YamlView, YamlView)> {
    let i = key_index(m, merge_key());
    if i < 0 {
        m
    } else {
        add_missing_from(swap_removed(m, i), merge_sources(m[i].1))
    }
}

/// The entries of a mapping with their values' merge keys resolved.
pub open spec fn values_with_merge_keys(m: Seq<(YamlView, YamlView)>) -> Seq<(YamlView, YamlView)>
    decreases m,
{
    Seq::new(
        m.len(),
        |i: int|
            if 0 <= i < m.len() {
                (m[i].0, with_merge_keys(m[i].1))
            } else {
                (YamlView::Null, YamlView::Null)
            },
    )
}

/// A node with every `<<` merge key resolved, innermost mappings first.
pub open spec fn with_merge_keys(y: YamlView) -> YamlView
    decreases y,
{
    match y {
        YamlView::Dict(m) => YamlView::Dict(merged_entries(values_with_merge_keys(m))),
        YamlView::List(s) => YamlView::List(
            Seq::new(
                s.len(),
                |i: int|
                    if 0 <= i < s.len() {
                        with_merge_keys(s[i])
                    } else {
                        YamlView::Null
                    },
            ),
        ),
        _ => y,
    }
}

pub fn add_missing_exec(m: &mut Vec<(Yaml, Yaml)>, src: &Vec<(Yaml, Yaml)>)
    ensures
        entry_views(final(m)@) == add_missing(entry_views(old(m)@), entry_views(src@)),
{
    let ghost start = entry_views(m@);
    let ghost sv = entry_views(src@);
    let mut i: usize = 0;
    assert(sv.take(0) =~= Seq::<(YamlView, YamlView)>::empty());
    while i < src.len()
        invariant
            sv == entry_views(src@),
            i <= src@.len(),
            entry_views(m@) == add_missing(start, sv.take(i as int)),
        decreases src@.len() - i,
    {
        assert(sv.take(i + 1).drop_last() =~= sv.take(i as int));
        assert(sv.take(i + 1).last() == sv[i as int]);
        if find_key(m, &src[i].0).is_none() {
            let k = src[i].0.deep_copy();
            let v = src[i].1.deep_copy();
            let ghost before = entry_views(m@);
            m.push((k, v));
            assert(entry_views(m@) =~= before.push(sv[i as int]));
        }
        i = i + 1;
    }
    assert(sv.take(src@.len() as int) =~= sv);
}

/// Resolve the `<<` entry of a mapping whose values are already resolved.
fn merge_entries(m: &mut Vec<(Yaml, Yaml)>)
    ensures
        entry_views(final(m)@) == merged_entries(entry_views(old(m)@)),
{
    let key = Yaml::String(String::from_str("<<"));
    assert(key@ == merge_key());
    let ghost old_m = entry_views(m@);
    match map_remove(m, &key) {
        None => {},
        Some(v) => {
            match v {
                Yaml::Mapping(src) => {
                    proof {
                        lemma_mapping_view(src);
                    }
                    let ghost before = entry_views(m@);
                    let ghost d = YamlView::Dict(entry_views(src@));
                    add_missing_exec(m, &src);
                    assert(merge_sources(d) =~= seq![d]);
                    assert(seq![d].drop_last() =~= Seq::<YamlView>::empty());
                    assert(add_missing_from(before, Seq::<YamlView>::empty()) == before);
                    assert(add_missing_from(before, seq![d]) == add_missing(before, entry_views(src@)));
                },
                Yaml::Sequence(items) => {
                    proof {
                        lemma_sequence_view(items);
                    }
                    let ghost start = entry_views(m@);
                    let ghost iv = item_views(items@);
                    let mut i: usize = 0;
                    assert(iv.take(0) =~= Seq::<YamlView>::empty());
                    while i < items.len()
                        invariant
                            iv == item_views(items@),
                            i <= items@.len(),
                            entry_views(m@) == add_missing_from(start, iv.take(i as int)),
                        decreases items@.len() - i,
                    {
                        assert(iv.take(i + 1).drop_last() =~= iv.take(i as int));
                        assert(iv.take(i + 1).last() == items@[i as int]@);
                        match &items[i] {
                            Yaml::Mapping(src) => {
                                proof {
                                    lemma_mapping_view(*src);
                                }
                                add_missing_exec(m, src);
                            },
                            _ => {},
                        }
                        i = i + 1;
                    }
                    assert(iv.take(items@.len() as int) =~= iv);
                },
                _ => {
                    assert(merge_sources(v@) =~= Seq::<YamlView>::empty());
                },
            }
        },
    }
}

/// A copy of `y` with every `<<` merge key resolved.
#[verifier::loop_isolation(false)]
pub fn merge_keys_resolved(y: &Yaml) -> (r: Yaml)
    ensures
        r@ == with_merge_keys(y@),
    decreases y,
{
    match y {
        Yaml::Mapping(entries) => {
            proof {
                lemma_mapping_view(*entries);
            }
            let ghost ev = entry_views(entries@);
            let mut out: Vec<(Yaml, Yaml)> = Vec::new();
            let mut i: usize = 0;
            while i < entries.len()
                invariant
                    ev == entry_views(entries@),
                    i <= entries@.len(),
                    out@.len() == i,
                    forall|j: int|
                        0 <= j < i ==> #[trigger] out@[j].0@ == ev[j].0 && out@[j].1@
                            == with_merge_keys(ev[j].1),
                decreases entries@.len() - i,
            {
                proof {
                    assert(decreases_to!(*y => *entries));
                    assert(decreases_to!(*entries => entries@));
                    assert(decreases_to!(entries@ => entries@[i as int]));
                    assert(decreases_to!(entries@[i as int] => entries@[i as int].1));
                }
                let k = entries[i].0.deep_copy();
                let v = merge_keys_resolved(&entries[i].1);
                out.push((k, v));
                i = i + 1;
            }
            let ghost inner = values_with_merge_keys(ev);
            assert(entry_views(out@) =~= inner);
            assert(y@ == YamlView::Dict(ev));
            merge_entries(&mut out);
            proof {
                lemma_mapping_view(out);
            }
            Yaml::Mapping(out)
        },
        Yaml::Sequence(items) => {
            proof {
                lemma_sequence_view(*items);
            }
            let ghost iv = item_views(items@);
            let mut out: Vec<Yaml> = Vec::new();
            let mut i: usize = 0;
            while i < items.len()
                invariant
                    iv == item_views(items@),
                    i <= items@.len(),
                    out@.len() == i,
                    forall|j: int| 0 <= j < i ==> #[trigger] out@[j]@ == with_merge_keys(iv[j]),
                decreases items@.len() - i,
            {
                proof {
                    assert(decreases_to!(*y => *items));
                    assert(decreases_to!(*items => items@));
                    assert(decreases_to!(items@ => items@[i as int]));
                }
                let v = merge_keys_resolved(&items[i]);
                out.push(v);
                i = i + 1;
            }
            proof {
                lemma_sequence_view(out);
                assert(item_views(out@) =~= with_merge_keys(y@)->List_0);
            }
            Yaml::Sequence(out)
        },
        _ => y.deep_copy(),
    }
}

/// Resolve every `<<` merge key of a document in place: the keys of the merged mappings
/// that the mapping lacks are added after its own, and `<<` leaves.
pub fn resolve_merge_keys(value: &mut Yaml)
    ensures
        final(value)@ == with_merge_keys(old(value)@),
{
    let r = merge_keys_resolved(value);
    *value = r;
}

// ---------------------------------------------------------------------------
// `!reference` tags
// ---------------------------------------------------------------------------
/// The string items of a sequence, in order; other items are skipped.
pub open spec fn str_items(s: Seq<YamlView>) -> Seq<Seq<char>>
    decreases s.len(),
{
    if s.len() == 0 {
        Seq::empty()
    } else {
        str_items(s.drop_last()) + match s.last() {
            YamlView::Str(t) => seq![t],
            _ => Seq::empty(),
        }
    }
}

/// The node reached from `root` by following `keys` through mappings, if any.
pub open spec fn lookup_path(root: YamlView, keys: Seq<Seq<char>>) -> Option<YamlView>
    decreases keys.len(),
{
    if keys.len() == 0 {
        Some(root)
    } else {
        match lookup_path(root, keys.drop_last()) {
            Some(YamlView::Dict(m)) => if key_index(m, str_node(keys.last())) >= 0 {
                Some(m[key_index(m, str_node(keys.last()))].1)
            } else {
                None
            },
            _ => None,
        }
    }
}

/// The items of a sequence once resolved: an item that is a sequence gives its items in
/// its place, any other item stays.
pub open spec fn flatten_once(items: Seq<YamlView>) -> Seq<YamlView>
    decreases items.len(),
{
    if items.len() == 0 {
        Seq::empty()
    } else {
        flatten_once(items.drop_last()) + match items.last() {
            YamlView::List(inner) => inner,
            other => seq![other],
        }
    }
}

pub open spec fn values_with_refs(m: Seq<(YamlView, YamlView)>, root: YamlView) -> Seq<
    (YamlView, YamlView),
>
    decreases m,
{
    Seq::new(
        m.len(),
        |i: int|
            if 0 <= i < m.len() {
                (m[i].0, with_refs(m[i].1, root))
            } else {
                (YamlView::Null, YamlView::Null)
            },
    )
}

pub open spec fn items_with_refs(s: Seq<YamlView>, root: YamlView) -> Seq<YamlView>
    decreases s,
{
    Seq::new(
        s.len(),
        |i: int|
            if 0 <= i < s.len() {
                with_refs(s[i], root)
            } else {
                YamlView::Null
            },
    )
}

/// A node with its `!reference [k1, k2, …]` tags replaced by what the path names in
/// `root` (a tag whose path names nothing stays), mapping values and sequence items
/// resolved in turn, and sequence items that are sequences spliced into their parent.
pub open spec fn with_refs(y: YamlView, root: YamlView) -> YamlView
    decreases y,
{
    match y {
        YamlView::Tagged(t, inner) => if t == "!reference"@ {
            match *inner {
                YamlView::List(path) => match lookup_path(root, str_items(path)) {
                    Some(r) => r,
                    None => y,
                },
                _ => y,
            }
        } else {
            y
        },
        YamlView::Dict(m) => YamlView::Dict(values_with_refs(m, root)),
        YamlView::List(s) => YamlView::List(flatten_once(items_with_refs(s, root))),
        _ => y,
    }
}

/// The string items of a sequence.
pub fn string_items(items: &Vec<Yaml>) -> (r: Vec<String>)
    ensures
        views(r@) == str_items(item_views(items@)),
{
    let ghost iv = item_views(items@);
    let mut out: Vec<String> = Vec::new();
    let mut i: usize = 0;
    assert(views(out@) =~= str_items(iv.take(0)));
    while i < items.len()
        invariant
            iv == item_views(items@),
            i <= items@.len(),
            views(out@) == str_items(iv.take(i as int)),
        decreases items@.len() - i,
    {
        assert(iv.take(i + 1).drop_last() =~= iv.take(i as int));
        assert(iv.take(i + 1).last() == items@[i as int]@);
        match &items[i] {
            Yaml::String(t) => {
                let ghost before = views(out@);
                out.push(t.clone());
                assert(views(out@) =~= before + seq![t@]);
            },
            _ => {
                assert(str_items(iv.take(i + 1)) =~= str_items(iv.take(i as int)));
            },
        }
        i = i + 1;
    }
    assert(iv.take(items@.len() as int) =~= iv);
    out
}

/// The node reached from `root` by following `keys` through mappings.
pub fn lookup_path_in<'a>(root: &'a Yaml, keys: &Vec<String>) -> (r: Option<&'a Yaml>)
    ensures
        match r {
            Some(v) => lookup_path(root@, views(keys@)) == Some(v@),
            None => lookup_path(root@, views(keys@)) is None,
        },
{
    let ghost kv = views(keys@);
    let mut cur: &Yaml = root;
    let mut i: usize = 0;
    assert(kv.take(0) =~= Seq::<Seq<char>>::empty());
    while i < keys.len()
        invariant
            kv == views(keys@),
            i <= keys@.len(),
            lookup_path(root@, kv.take(i as int)) == Some(cur@),
        decreases keys@.len() - i,
    {
        assert(kv.take(i + 1).drop_last() =~= kv.take(i as int));
        assert(kv.take(i + 1).last() == keys@[i as int]@);
        match cur {
            Yaml::Mapping(m) => {
                proof {
                    lemma_mapping_view(*m);
                }
                let k = Yaml::String(keys[i].clone());
                match find_key(m, &k) {
                    Some(j) => {
                        cur = &m[j].1;
                    },
                    None => {
                        proof {
                            lemma_lookup_none_extends(root@, kv, i + 1);
                        }
                        return None;
                    },
                }
            },
            _ => {
                proof {
                    lemma_lookup_none_extends(root@, kv, i + 1);
                }
                return None;
            },
        }
        i = i + 1;
    }
    assert(kv.take(keys@.len() as int) =~= kv);
    Some(cur)
}

/// A path that names nothing keeps naming nothing when it grows.
proof fn lemma_lookup_none_extends(root: YamlView, keys: Seq<Seq<char>>, n: int)
    requires
        0 <= n <= keys.len(),
        lookup_path(root, keys.take(n)) is None || !(lookup_path(root, keys.take(n))->0 is Dict),
        n < keys.len() || lookup_path(root, keys.take(n)) is None,
    ensures
        lookup_path(root, keys) is None,
    decreases keys.len() - n,
{
    if n < keys.len() {
        assert(keys.take(n + 1).drop_last() =~= keys.take(n));
        lemma_lookup_none_extends(root, keys, n + 1);
    } else {
        assert(keys.take(n) =~= keys);
    }
}

/// A copy of `y` with its `!reference` tags resolved against `root`.
#[verifier::loop_isolation(false)]
pub fn references_resolved(y: &Yaml, root: &Yaml) -> (r: Yaml)
    ensures
        r@ == with_refs(y@, root@),
    decreases y,
{
    match y {
        Yaml::Tagged(t, inner) => {
            if str_eq(t.as_str(), "!reference") {
                match &**inner {
                    Yaml::Sequence(path) => {
                        proof {
                            lemma_sequence_view(*path);
                        }
                        let keys = string_items(path);
                        assert(y@ == YamlView::Tagged(t@, Box::new(YamlView::List(item_views(path@)))));
                        match lookup_path_in(root, &keys) {
                            Some(v) => v.deep_copy(),
                            None => y.deep_copy(),
                        }
                    },
                    _ => {
                        assert(!(yaml_view(**inner) is List));
                        y.deep_copy()
                    },
                }
            } else {
                y.deep_copy()
            }
        },
        Yaml::Mapping(entries) => {
            proof {
                lemma_mapping_view(*entries);
            }
            let ghost ev = entry_views(entries@);
            let mut out: Vec<(Yaml, Yaml)> = Vec::new();
            let mut i: usize = 0;
            while i < entries.len()
                invariant
                    ev == entry_views(entries@),
                    i <= entries@.len(),
                    out@.len() == i,
                    forall|j: int|
                        0 <= j < i ==> #[trigger] out@[j].0@ == ev[j].0 && out@[j].1@ == with_refs(
                            ev[j].1,
                            root@,
                        ),
                decreases entries@.len() - i,
            {
                proof {
                    assert(decreases_to!(*y => *entries));
                    assert(decreases_to!(*entries => entries@));
                    assert(decreases_to!(entries@ => entries@[i as int]));
                    assert(decreases_to!(entries@[i as int] => entries@[i as int].1));
                }
                let k = entries[i].0.deep_copy();
                let v = references_resolved(&entries[i].1, root);
                out.push((k, v));
                i = i + 1;
            }
            assert(entry_views(out@) =~= values_with_refs(ev, root@));
            proof {
                lemma_mapping_view(out);
            }
            Yaml::Mapping(out)
        },
        Yaml::Sequence(items) => {
            proof {
                lemma_sequence_view(*items);
            }
            let ghost iv = item_views(items@);
            let ghost resolved = items_with_refs(iv, root@);
            let mut out: Vec<Yaml> = Vec::new();
            let mut i: usize = 0;
            assert(item_views(out@) =~= flatten_once(resolved.take(0)));
            while i < items.len()
                invariant
                    iv == item_views(items@),
                    resolved == items_with_refs(iv, root@),
                    i <= items@.len(),
                    item_views(out@) == flatten_once(resolved.take(i as int)),
                decreases items@.len() - i,
            {
                proof {
                    assert(decreases_to!(*y => *items));
                    assert(decreases_to!(*items => items@));
                    assert(decreases_to!(items@ => items@[i as int]));
                }
                let v = references_resolved(&items[i], root);
                assert(resolved.take(i + 1).drop_last() =~= resolved.take(i as int));
                assert(resolved.take(i + 1).last() == v@);
                let ghost before = item_views(out@);
                match v {
                    Yaml::Sequence(inner) => {
                        proof {
                            lemma_sequence_view(inner);
                        }
                        let ghost inv = item_views(inner@);
                        let mut rest = inner;
                        let ghost total = rest@.len();
                        assert(inv.take(0) =~= Seq::<YamlView>::empty());
                        while rest.len() > 0
                            invariant
                                inv.len() == total,
                                rest@.len() <= total,
                                forall|j: int|
                                    0 <= j < rest@.len() ==> #[trigger] rest@[j]@ == inv[total
                                        - rest@.len() + j],
                                item_views(out@) == before + inv.take(total - rest@.len()),
                            decreases rest@.len(),
                        {
                            let ghost done = total - rest@.len();
                            let ghost old_rest = rest@;
                            let x = rest.remove(0);
                            assert(x@ == inv[done]);
                            assert forall|j: int| 0 <= j < rest@.len() implies #[trigger] rest@[j]@
                                == inv[total - rest@.len() + j] by {
                                assert(rest@[j] == old_rest[j + 1]);
                            }
                            let ghost mid = item_views(out@);
                            out.push(x);
                            assert(item_views(out@) =~= mid.push(inv[done]));
                            assert(inv.take(done + 1) =~= inv.take(done).push(inv[done]));
                        }
                        assert(inv.take(total as int) =~= inv);
                    },
                    other => {
                        out.push(other);
                        assert(item_views(out@) =~= before + seq![other@]);
                    },
                }
                i = i + 1;
            }
            assert(resolved.take(items@.len() as int) =~= resolved);
            proof {
                lemma_sequence_view(out);
            }
            Yaml::Sequence(out)
        },
        _ => y.deep_copy(),
    }
}

/// Resolve every `!reference` tag of a document against the document as it stands.
pub fn resolve_reference_tags(root: &mut Yaml)
    ensures
        final(root)@ == with_refs(old(root)@, old(root)@),
{
    let snapshot = root.deep_copy();
    let r = references_resolved(&snapshot, &snapshot);
    *root = r;
}

// ---------------------------------------------------------------------------
// `extends`
// ---------------------------------------------------------------------------
/// `source` merged into `target` entry by entry: where both hold a mapping under the
/// same key the two are merged in turn, otherwise the source's value is inserted.
pub open spec fn deep_merge(target: Seq<(YamlView, YamlView)>, source: Seq<(YamlView, YamlView)>) -> Seq<
    (YamlView, YamlView),
>
    decreases source,
{
    if source.len() == 0 {
        target
    } else {
        let t = deep_merge(target, source.drop_last());
        let k = source.last().0;
        let sv = source.last().1;
        let i = key_index(t, k);
        if i >= 0 && t[i].1 is Dict && sv is Dict {
            proof {
                assert(decreases_to!(source => source[source.len() - 1]));
            }
            entries_insert(t, k, YamlView::Dict(deep_merge(t[i].1->Dict_0, sv->Dict_0)))
        } else {
            entries_insert(t, k, sv)
        }
    }
}

/// A copy of mapping entries.
pub fn entries_copy(v: &Vec<(Yaml, Yaml)>) -> (r: Vec<(Yaml, Yaml)>)
    ensures
        entry_views(r@) == entry_views(v@),
{
    let mut out: Vec<(Yaml, Yaml)> = Vec::new();
    let mut i: usize = 0;
    while i < v.len()
        invariant
            i <= v@.len(),
            out@.len() == i,
            forall|j: int|
                0 <= j < i ==> #[trigger] out@[j].0@ == v@[j].0@ && out@[j].1@ == v@[j].1@,
        decreases v@.len() - i,
    {
        out.push((v[i].0.deep_copy(), v[i].1.deep_copy()));
        i = i + 1;
    }
    assert(entry_views(out@) =~= entry_views(v@));
    out
}

/// Merge `source` into `target` (`deep_merge_mapping`).
#[verifier::loop_isolation(false)]
pub fn deep_merge_mapping(target: &mut Vec<(Yaml, Yaml)>, source: &Vec<(Yaml, Yaml)>)
    ensures
        entry_views(final(target)@) == deep_merge(entry_views(old(target)@), entry_views(source@)),
    decreases source@,
{
    let ghost start = entry_views(target@);
    let ghost sv = entry_views(source@);
    let mut i: usize = 0;
    assert(sv.take(0) =~= Seq::<(YamlView, YamlView)>::empty());
    while i < source.len()
        invariant
            sv == entry_views(source@),
            i <= source@.len(),
            entry_views(target@) == deep_merge(start, sv.take(i as int)),
        decreases source@.len() - i,
    {
        let ghost t = entry_views(target@);
        let ghost pre = sv.take(i + 1);
        assert(pre.drop_last() =~= sv.take(i as int));
        assert(pre.last() == (source@[i as int].0@, source@[i as int].1@));
        let k = &source[i].0;
        let val = &source[i].1;
        let mut done = false;
        match find_key(target, k) {
            Some(j) => {
                match (&target[j].1, val) {
                    (Yaml::Mapping(existing), Yaml::Mapping(incoming)) => {
                        proof {
                            lemma_mapping_view(*existing);
                            lemma_mapping_view(*incoming);
                            assert(decreases_to!(source@ => source@[i as int]));
                            assert(decreases_to!(source@[i as int] => source@[i as int].1));
                            assert(decreases_to!(source@[i as int].1 => *incoming));
                            assert(decreases_to!(*incoming => incoming@));
                        }
                        let mut merged = entries_copy(existing);
                        deep_merge_mapping(&mut merged, incoming);
                        proof {
                            lemma_mapping_view(merged);
                        }
                        map_insert(target, k.deep_copy(), Yaml::Mapping(merged));
                        done = true;
                    },
                    _ => {},
                }
            },
            None => {},
        }
        if !done {
            map_insert(target, k.deep_copy(), val.deep_copy());
        }
        i = i + 1;
    }
    assert(sv.take(source@.len() as int) =~= sv);
}

/// The `extends` key.
pub open spec fn extends_key() -> YamlView {
    str_node("extends"@)
}

/// The base names an `extends` value lists: a string names one base, a sequence its
/// string items.
pub open spec fn extends_names(v: YamlView) -> Seq<Seq<char>> {
    match v {
        YamlView::Str(s) => seq![s],
        YamlView::List(items) => str_items(items),
        _ => Seq::empty(),
    }
}

/// The named bases that are mappings in `m`, deep-merged in order.
pub open spec fn merge_bases(m: Seq<(YamlView, YamlView)>, names: Seq<Seq<char>>) -> Seq<
    (YamlView, YamlView),
>
    decreases names.len(),
{
    if names.len() == 0 {
        Seq::empty()
    } else {
        let acc = merge_bases(m, names.drop_last());
        let i = key_index(m, str_node(names.last()));
        if i >= 0 && m[i].1 is Dict {
            deep_merge(acc, m[i].1->Dict_0)
        } else {
            acc
        }
    }
}

/// The entry `key` of the top-level mapping once its bases are merged under it, and
/// whether it changed. A job mapping that holds `extends` is replaced by its bases and
/// itself merged in that order, without `extends`; it always changes, since it held
/// `extends` and the result does not. Other entries stay.
pub open spec fn extend_one(m: Seq<(YamlView, YamlView)>, key: YamlView) -> (
    Seq<(YamlView, YamlView)>,
    bool,
) {
    let i = key_index(m, key);
    if i < 0 || !(m[i].1 is Dict) {
        (m, false)
    } else {
        let job = m[i].1->Dict_0;
        let e = key_index(job, extends_key());
        if e < 0 {
            (m, false)
        } else {
            let merged = deep_merge(merge_bases(m, extends_names(job[e].1)), job);
            let r = key_index(merged, extends_key());
            let result = if r >= 0 {
                swap_removed(merged, r)
            } else {
                merged
            };
            (entries_insert(m, key, YamlView::Dict(result)), true)
        }
    }
}

/// One pass over the given keys, in order.
pub open spec fn extends_pass(m: Seq<(YamlView, YamlView)>, keys: Seq<YamlView>) -> (
    Seq<(YamlView, YamlView)>,
    bool,
)
    decreases keys.len(),
{
    if keys.len() == 0 {
        (m, false)
    } else {
        let p = extends_pass(m, keys.drop_last());
        let q = extend_one(p.0, keys.last());
        (q.0, p.1 || q.1)
    }
}

/// Up to `n` passes, stopping after a pass that changed nothing.
pub open spec fn extends_rounds(m: Seq<(YamlView, YamlView)>, keys: Seq<YamlView>, n: nat) -> Seq<
    (YamlView, YamlView),
>
    decreases n,
{
    if n == 0 {
        m
    } else {
        let p = extends_pass(m, keys);
        if p.1 {
            extends_rounds(p.0, keys, (n - 1) as nat)
        } else {
            p.0
        }
    }
}

/// The keys of the entries, in order.
pub open spec fn entry_key_views(m: Seq<(YamlView, YamlView)>) -> Seq<YamlView> {
    m.map_values(|e: (YamlView, YamlView)| e.0)
}

fn extend_one_exec(m: &mut Vec<(Yaml, Yaml)>, key: &Yaml) -> (changed: bool)
    ensures
        (entry_views(final(m)@), changed) == extend_one(entry_views(old(m)@), key@),
{
    let ghost mv = entry_views(m@);
    let i = match find_key(m, key) {
        Some(i) => i,
        None => return false,
    };
    let job = match &m[i].1 {
        Yaml::Mapping(job) => {
            proof {
                lemma_mapping_view(*job);
            }
            job
        },
        _ => return false,
    };
    let ext_key = Yaml::String(String::from_str("extends"));
    assert(ext_key@ == extends_key());
    let e = match find_key(job, &ext_key) {
        Some(e) => e,
        None => return false,
    };
    let names: Vec<String> = match &job[e].1 {
        Yaml::String(s) => {
            let mut v: Vec<String> = Vec::new();
            v.push(s.clone());
            assert(views(v@) =~= seq![s@]);
            v
        },
        Yaml::Sequence(items) => {
            proof {
                lemma_sequence_view(*items);
            }
            string_items(items)
        },
        _ => {
            let v: Vec<String> = Vec::new();
            assert(views(v@) =~= Seq::<Seq<char>>::empty());
            v
        },
    };
    assert(views(names@) == extends_names(job@[e as int].1@));
    let ghost nv = views(names@);
    let mut merged: Vec<(Yaml, Yaml)> = Vec::new();
    let mut b: usize = 0;
    assert(entry_views(merged@) =~= merge_bases(mv, nv.take(0)));
    while b < names.len()
        invariant
            nv == views(names@),
            mv == entry_views(m@),
            b <= nv.len(),
            entry_views(merged@) == merge_bases(mv, nv.take(b as int)),
        decreases nv.len() - b,
    {
        assert(nv.take(b + 1).drop_last() =~= nv.take(b as int));
        assert(nv.take(b + 1).last() == names@[b as int]@);
        let base_key = Yaml::String(names[b].clone());
        match find_key(m, &base_key) {
            Some(j) => match &m[j].1 {
                Yaml::Mapping(base) => {
                    proof {
                        lemma_mapping_view(*base);
                    }
                    deep_merge_mapping(&mut merged, base);
                },
                _ => {},
            },
            None => {},
        }
        b = b + 1;
    }
    assert(nv.take(nv.len() as int) =~= nv);
    deep_merge_mapping(&mut merged, job);
    map_remove(&mut merged, &ext_key);
    proof {
        lemma_mapping_view(merged);
    }
    map_insert(m, key.deep_copy(), Yaml::Mapping(merged));
    true
}

/// Merge the bases a job `extends` into it, in up to ten passes over the top-level keys
/// as they were at the start (`resolve_extends`).
pub fn resolve_extends(mapping: &mut Vec<(Yaml, Yaml)>)
    ensures
        entry_views(final(mapping)@) == extends_rounds(
            entry_views(old(mapping)@),
            entry_key_views(entry_views(old(mapping)@)),
            10,
        ),
{
    let ghost keys = entry_key_views(entry_views(mapping@));
    let mut job_keys: Vec<Yaml> = Vec::new();
    let mut i: usize = 0;
    while i < mapping.len()
        invariant
            keys == entry_key_views(entry_views(mapping@)),
            i <= mapping@.len(),
            job_keys@.len() == i,
            forall|j: int| 0 <= j < i ==> #[trigger] job_keys@[j]@ == keys[j],
        decreases mapping@.len() - i,
    {
        job_keys.push(mapping[i].0.deep_copy());
        i = i + 1;
    }
    assert(item_views(job_keys@) =~= keys);
    let ghost start = entry_views(mapping@);
    let mut round: usize = 0;
    while round < 10
        invariant
            item_views(job_keys@) == keys,
            start == entry_views(old(mapping)@),
            keys == entry_key_views(start),
            round <= 10,
            extends_rounds(start, keys, 10) == extends_rounds(
                entry_views(mapping@),
                keys,
                (10 - round) as nat,
            ),
        decreases 10 - round,
    {
        let ghost before = entry_views(mapping@);
        let mut changed = false;
        let mut k: usize = 0;
        assert(keys.take(0) =~= Seq::<YamlView>::empty());
        while k < job_keys.len()
            invariant
                item_views(job_keys@) == keys,
                k <= keys.len(),
                extends_pass(before, keys.take(k as int)) == (entry_views(mapping@), changed),
            decreases keys.len() - k,
        {
            assert(keys.take(k + 1).drop_last() =~= keys.take(k as int));
            assert(keys.take(k + 1).last() == job_keys@[k as int]@);
            let c = extend_one_exec(mapping, &job_keys[k]);
            changed = changed || c;
            k = k + 1;
        }
        assert(keys.take(keys.len() as int) =~= keys);
        let ghost n = (10 - round) as nat;
        assert(extends_rounds(before, keys, n) == (if changed {
            extends_rounds(entry_views(mapping@), keys, (n - 1) as nat)
        } else {
            entry_views(mapping@)
        }));
        if !changed {
            return;
        }
        round = round + 1;
    }
}


} // verus!
