//! CI/CD variables and their expansion.
use vstd::prelude::*;

use indexmap::IndexMap;

use crate::collections::{
    entries_insert, entries_insert_all, key_index, lemma_key_index_bounds, lookup, str_entries,
    strs_insert, strs_new, var_entries, vars_clone, vars_get_index, vars_index_of, vars_insert,
    vars_len, vars_new,
};
use crate::text::{
    char_is_name, chars_of, clone_strings, is_name_char, push_char, string_of_range, views,
};

verus! {

/// A reference to a variable in a text: `$NAME` or `${NAME}`, the name in group 1.
pub const VAR_REFERENCE_PATTERN: &'static str = "\\$\\{?([A-Za-z_][A-Za-z0-9_]*)\\}?";

/// CI/CD variables map, in declaration order.
pub type Variables = IndexMap<String, VariableValue>;

/// A CI/CD variable value with optional metadata.
#[derive(Debug)]
pub enum VariableValue {
    /// Simple string value.
    Simple(String),
    /// Detailed variable with description and options.
    Detailed {
        value: String,
        description: Option<String>,
        expand: bool,
        options: Option<Vec<String>>,
    },
}

/// What a variable value holds, with every string taken by its view.
pub struct VariableView {
    pub value: Seq<char>,
    pub description: Option<Seq<char>>,
    pub expand: bool,
    pub options: Option<Seq<Seq<char>>>,
    pub detailed: bool,
}

pub open spec fn opt_view(o: Option<String>) -> Option<Seq<char>> {
    match o {
        Some(s) => Some(s@),
        None => None,
    }
}

pub open spec fn opt_views(o: Option<Vec<String>>) -> Option<Seq<Seq<char>>> {
    match o {
        Some(v) => Some(views(v@)),
        None => None,
    }
}

impl View for VariableValue {
    type V = VariableView;

    open spec fn view(&self) -> VariableView {
        match self {
            VariableValue::Simple(v) => VariableView {
                value: v@,
                description: None,
                expand: true,
                options: None,
                detailed: false,
            },
            VariableValue::Detailed { value, description, expand, options } => VariableView {
                value: value@,
                description: opt_view(*description),
                expand: *expand,
                options: opt_views(*options),
                detailed: true,
            },
        }
    }
}

impl Clone for VariableValue {
    fn clone(&self) -> (r: VariableValue)
        ensures
            r@ == self@,
    {
        match self {
            VariableValue::Simple(v) => VariableValue::Simple(v.clone()),
            VariableValue::Detailed { value, description, expand, options } => {
                let d = match description {
                    Some(t) => Some(t.clone()),
                    None => None,
                };
                let o = match options {
                    Some(v) => Some(clone_strings(v)),
                    None => None,
                };
                VariableValue::Detailed {
                    value: value.clone(),
                    description: d,
                    expand: *expand,
                    options: o,
                }
            },
        }
    }
}

impl VariableValue {
    pub open spec fn value_spec(&self) -> Seq<char> {
        self@.value
    }

    pub fn value(&self) -> (r: &str)
        ensures
            r@ == self@.value,
    {
        match self {
            VariableValue::Simple(v) => v.as_str(),
            VariableValue::Detailed { value, .. } => value.as_str(),
        }
    }

    pub fn should_expand(&self) -> (r: bool)
        ensures
            r == self@.expand,
    {
        match self {
            VariableValue::Simple(_) => true,
            VariableValue::Detailed { expand, .. } => *expand,
        }
    }

    /// A plain variable holding `s` (the conversion from a string).
    pub fn from(s: &str) -> (r: VariableValue)
        ensures
            r@.value == s@,
            r@.expand,
            !r@.detailed,
            r@.description is None,
            r@.options is None,
    {
        VariableValue::Simple(String::from_str(s))
    }
}

/// The value stored for `name`, by the value of its first entry.
pub open spec fn lookup_value(vars: Seq<(Seq<char>, VariableView)>, name: Seq<char>) -> Option<
    Seq<char>,
> {
    match lookup(vars, name) {
        Some(v) => Some(v.value),
        None => None,
    }
}

/// The value of variable `name`, if defined.
pub fn get_value<'a>(vars: &'a Variables, name: &str) -> (r: Option<&'a str>)
    ensures
        match lookup_value(var_entries(*vars), name@) {
            Some(v) => r matches Some(x) && x@ == v,
            None => r is None,
        },
{
    match vars_index_of(vars, name) {
        Some(i) => {
            proof {
                lemma_key_index_bounds(var_entries(*vars), name@);
            }
            let (_, v) = vars_get_index(vars, i);
            Some(v.value())
        },
        None => None,
    }
}

/// Whether `name` is defined.
pub fn contains_var(vars: &Variables, name: &str) -> (r: bool)
    ensures
        r == (key_index(var_entries(*vars), name@) >= 0),
{
    vars_index_of(vars, name).is_some()
}

/// Nested expansions beyond this depth are left as they are.
pub const MAX_EXPANSION_DEPTH: u32 = 10;

/// The longest prefix of `s` made of variable-name characters `[A-Za-z0-9_]`.
pub open spec fn name_prefix(s: Seq<char>) -> Seq<char>
    decreases s.len(),
{
    if s.len() > 0 && is_name_char(s[0]) {
        seq![s[0]] + name_prefix(s.drop_first())
    } else {
        Seq::<char>::empty()
    }
}

/// The characters of `s` before the first `c`.
pub open spec fn up_to(s: Seq<char>, c: char) -> Seq<char>
    decreases s.len(),
{
    if s.len() == 0 || s[0] == c {
        Seq::<char>::empty()
    } else {
        seq![s[0]] + up_to(s.drop_first(), c)
    }
}

pub proof fn lemma_name_prefix_len(s: Seq<char>)
    ensures
        name_prefix(s).len() <= s.len(),
    decreases s.len(),
{
    if s.len() > 0 && is_name_char(s[0]) {
        lemma_name_prefix_len(s.drop_first());
    }
}

pub proof fn lemma_up_to_len(s: Seq<char>, c: char)
    ensures
        up_to(s, c).len() <= s.len(),
    decreases s.len(),
{
    if s.len() > 0 && s[0] != c {
        lemma_up_to_len(s.drop_first(), c);
    }
}

/// `name_prefix` of a suffix is the run of name characters that starts it.
proof fn lemma_name_prefix_is(s: Seq<char>, a: int, j: int)
    requires
        0 <= a <= j <= s.len(),
        forall|k: int| a <= k < j ==> is_name_char(#[trigger] s[k]),
        j < s.len() ==> !is_name_char(s[j]),
    ensures
        name_prefix(s.skip(a)) == s.subrange(a, j),
    decreases j - a,
{
    if a < j {
        assert(s.skip(a)[0] == s[a]);
        assert(s.skip(a).drop_first() =~= s.skip(a + 1));
        lemma_name_prefix_is(s, a + 1, j);
        assert(s.subrange(a, j) =~= seq![s[a]] + s.subrange(a + 1, j));
    } else {
        if j < s.len() {
            assert(s.skip(a)[0] == s[j]);
        }
        assert(s.subrange(a, j) =~= Seq::<char>::empty());
    }
}

proof fn lemma_up_to_is(s: Seq<char>, a: int, j: int, c: char)
    requires
        0 <= a <= j <= s.len(),
        forall|k: int| a <= k < j ==> #[trigger] s[k] != c,
        j < s.len() ==> s[j] == c,
    ensures
        up_to(s.skip(a), c) == s.subrange(a, j),
    decreases j - a,
{
    if a < j {
        assert(s.skip(a)[0] == s[a]);
        assert(s.skip(a).drop_first() =~= s.skip(a + 1));
        lemma_up_to_is(s, a + 1, j, c);
        assert(s.subrange(a, j) =~= seq![s[a]] + s.subrange(a + 1, j));
    } else {
        if j < s.len() {
            assert(s.skip(a)[0] == s[j]);
        }
        assert(s.subrange(a, j) =~= Seq::<char>::empty());
    }
}

/// Expansion of `$VAR`, `${VAR}` and `$$` in `s`, at nesting depth `depth`:
/// - `$$` is a literal `$`;
/// - `${NAME}` (the name runs to the next `}` or the end) becomes the expansion of
///   the value of `NAME` one level deeper, or nothing when `NAME` is undefined;
/// - `$NAME` (the longest run of `[A-Za-z0-9_]`) becomes the expansion of its value
///   one level deeper, or stays as written when undefined;
/// - a `$` followed by no name stays.
/// At depth `MAX_EXPANSION_DEPTH` the text is left as it is.
pub open spec fn expand_spec(
    s: Seq<char>,
    vars: Seq<(Seq<char>, VariableView)>,
    depth: nat,
) -> Seq<char>
    decreases MAX_EXPANSION_DEPTH - depth, s.len(),
{
    if depth >= MAX_EXPANSION_DEPTH {
        s
    } else if s.len() == 0 {
        s
    } else if s[0] != '$' {
        seq![s[0]] + expand_spec(s.drop_first(), vars, depth)
    } else if s.len() >= 2 && s[1] == '$' {
        seq!['$'] + expand_spec(s.skip(2), vars, depth)
    } else if s.len() >= 2 && s[1] == '{' {
        let body = s.skip(2);
        let name = up_to(body, '}');
        proof {
            lemma_up_to_len(body, '}');
        }
        let rest = if name.len() < body.len() {
            body.skip(name.len() + 1 as int)
        } else {
            Seq::<char>::empty()
        };
        let value = match lookup_value(vars, name) {
            Some(v) => expand_spec(v, vars, depth + 1),
            None => Seq::<char>::empty(),
        };
        value + expand_spec(rest, vars, depth)
    } else {
        let name = name_prefix(s.drop_first());
        proof {
            lemma_name_prefix_len(s.drop_first());
        }
        let rest = s.skip(name.len() + 1 as int);
        if name.len() == 0 {
            seq!['$'] + expand_spec(rest, vars, depth)
        } else {
            match lookup_value(vars, name) {
                Some(v) => expand_spec(v, vars, depth + 1) + expand_spec(rest, vars, depth),
                None => seq!['$'] + name + expand_spec(rest, vars, depth),
            }
        }
    }
}

/// Expand `$VAR` and `${VAR}` references in a string; `$$` is a literal `$`.
/// Expansion is recursive: variable values may themselves contain references.
pub fn expand_variables(input: &str, vars: &Variables) -> (r: String)
    ensures
        r@ == expand_spec(input@, var_entries(*vars), 0),
{
    expand_recursive(input, vars, 0)
}

fn expand_recursive(input: &str, vars: &Variables, depth: u32) -> (r: String)
    ensures
        r@ == expand_spec(input@, var_entries(*vars), depth as nat),
    decreases MAX_EXPANSION_DEPTH - depth,
{
    if depth >= MAX_EXPANSION_DEPTH {
        return String::from_str(input);
    }
    let ghost e = var_entries(*vars);
    let ghost d = depth as nat;
    let v = chars_of(input);
    let n = v.len();
    let mut result = String::new();
    let mut i: usize = 0;
    assert(input@.skip(0) =~= input@);
    while i < n
        invariant
            v@ == input@,
            n == v@.len(),
            i <= n,
            depth < MAX_EXPANSION_DEPTH,
            e == var_entries(*vars),
            d == depth as nat,
            result@ + expand_spec(input@.skip(i as int), e, d) == expand_spec(input@, e, d),
        decreases n - i,
    {
        let ghost s = input@.skip(i as int);
        let ghost before = result@;
        assert(s[0] == v@[i as int]);
        let ch = v[i];
        if ch != '$' {
            push_char(&mut result, ch);
            assert(s.drop_first() =~= input@.skip(i + 1));
            i = i + 1;
            assert(result@ + expand_spec(input@.skip(i as int), e, d) =~= before + (seq![ch]
                + expand_spec(s.drop_first(), e, d)));
        } else if i + 1 < n && v[i + 1] == '$' {
            assert(s[1] == v@[i + 1]);
            push_char(&mut result, '$');
            assert(s.skip(2) =~= input@.skip(i + 2));
            i = i + 2;
            assert(result@ + expand_spec(input@.skip(i as int), e, d) =~= before + (seq!['$']
                + expand_spec(s.skip(2), e, d)));
        } else if i + 1 < n && v[i + 1] == '{' {
            assert(s[1] == v@[i + 1]);
            let start = i + 2;
            let mut j = start;
            while j < n && v[j] != '}'
                invariant
                    v@ == input@,
                    n == v@.len(),
                    start <= j <= n,
                    forall|k: int| start <= k < j ==> #[trigger] v@[k] != '}',
                decreases n - j,
            {
                j = j + 1;
            }
            let name = string_of_range(&v, start, j);
            proof {
                lemma_up_to_is(input@, start as int, j as int, '}');
                assert(s.skip(2) =~= input@.skip(start as int));
            }
            let next = if j < n {
                j + 1
            } else {
                n
            };
            let ghost body = s.skip(2);
            assert(name@ == up_to(body, '}'));
            proof {
                if j < n {
                    assert(body.skip(name@.len() + 1 as int) =~= input@.skip(next as int));
                } else {
                    assert(input@.skip(next as int) =~= Seq::<char>::empty());
                }
            }
            match get_value(vars, name.as_str()) {
                Some(val) => {
                    let expanded = expand_recursive(val, vars, depth + 1);
                    result.append(expanded.as_str());
                },
                None => {},
            }
            i = next;
            assert(result@ + expand_spec(input@.skip(i as int), e, d) =~= before + expand_spec(
                s,
                e,
                d,
            ));
        } else {
            let start = i + 1;
            let mut j = start;
            while j < n && char_is_name(v[j])
                invariant
                    v@ == input@,
                    n == v@.len(),
                    start <= j <= n,
                    forall|k: int| start <= k < j ==> is_name_char(#[trigger] v@[k]),
                decreases n - j,
            {
                j = j + 1;
            }
            let name = string_of_range(&v, start, j);
            proof {
                lemma_name_prefix_is(input@, start as int, j as int);
                assert(s.drop_first() =~= input@.skip(start as int));
                assert(s.skip(name@.len() + 1 as int) =~= input@.skip(j as int));
                if i + 1 < n {
                    assert(s[1] == v@[i + 1]);
                }
            }
            if j == start {
                push_char(&mut result, '$');
            } else {
                match get_value(vars, name.as_str()) {
                    Some(val) => {
                        let expanded = expand_recursive(val, vars, depth + 1);
                        result.append(expanded.as_str());
                    },
                    None => {
                        push_char(&mut result, '$');
                        result.append(name.as_str());
                    },
                }
            }
            i = j;
            assert(result@ + expand_spec(input@.skip(i as int), e, d) =~= before + expand_spec(
                s,
                e,
                d,
            ));
        }
    }
    assert(input@.skip(n as int) =~= Seq::<char>::empty());
    assert(result@ + Seq::<char>::empty() =~= result@);
    result
}

/// The merge of several variable maps: every entry of each source, in order,
/// inserted into an empty map, so later sources override earlier ones.
pub open spec fn merge_spec(sources: Seq<Seq<(Seq<char>, VariableView)>>) -> Seq<
    (Seq<char>, VariableView),
>
    decreases sources.len(),
{
    if sources.len() == 0 {
        Seq::empty()
    } else {
        entries_insert_all(merge_spec(sources.drop_last()), sources.last())
    }
}

/// Insert every entry of `src`, in order, into `dst`.
pub fn insert_all(dst: &mut Variables, src: &Variables)
    ensures
        var_entries(*final(dst)) == entries_insert_all(var_entries(*old(dst)), var_entries(*src)),
{
    let n = vars_len(src);
    let mut i: usize = 0;
    let ghost t = var_entries(*src);
    let ghost s0 = var_entries(*dst);
    assert(t.subrange(0, 0) =~= Seq::<(Seq<char>, VariableView)>::empty());
    while i < n
        invariant
            n == t.len(),
            t == var_entries(*src),
            i <= n,
            var_entries(*dst) == entries_insert_all(s0, t.subrange(0, i as int)),
        decreases n - i,
    {
        let (k, v) = vars_get_index(src, i);
        vars_insert(dst, k.clone(), v.clone());
        i = i + 1;
        assert(t.subrange(0, i as int).drop_last() =~= t.subrange(0, i - 1));
    }
    assert(t.subrange(0, n as int) =~= t);
}

/// Merge multiple variable sources; later sources override earlier ones.
pub fn merge_variables(sources: &[&Variables]) -> (r: Variables)
    ensures
        var_entries(r) == merge_spec(sources@.map_values(|m: &Variables| var_entries(*m))),
{
    let mut merged = vars_new();
    let mut i: usize = 0;
    let ghost all = sources@.map_values(|m: &Variables| var_entries(*m));
    assert(all.subrange(0, 0) =~= Seq::<Seq<(Seq<char>, VariableView)>>::empty());
    while i < sources.len()
        invariant
            all == sources@.map_values(|m: &Variables| var_entries(*m)),
            i <= sources@.len(),
            var_entries(merged) == merge_spec(all.subrange(0, i as int)),
        decreases sources@.len() - i,
    {
        insert_all(&mut merged, sources[i]);
        i = i + 1;
        assert(all.subrange(0, i as int).drop_last() =~= all.subrange(0, i - 1));
    }
    assert(all.subrange(0, sources@.len() as int) =~= all);
    merged
}

/// The flat string map of a variables map: every entry, in order, with its value.
pub open spec fn env_spec(vars: Seq<(Seq<char>, VariableView)>) -> Seq<(Seq<char>, Seq<char>)>
    decreases vars.len(),
{
    if vars.len() == 0 {
        Seq::empty()
    } else {
        entries_insert(env_spec(vars.drop_last()), vars.last().0, vars.last().1.value)
    }
}

/// Build the flat string map from Variables for passing to containers.
pub fn to_env_map(vars: &Variables) -> (r: IndexMap<String, String>)
    ensures
        str_entries(r) == env_spec(var_entries(*vars)),
{
    let mut m = strs_new();
    let n = vars_len(vars);
    let ghost t = var_entries(*vars);
    assert(t.subrange(0, 0) =~= Seq::<(Seq<char>, VariableView)>::empty());
    let mut i: usize = 0;
    while i < n
        invariant
            n == t.len(),
            t == var_entries(*vars),
            i <= n,
            str_entries(m) == env_spec(t.subrange(0, i as int)),
        decreases n - i,
    {
        let (k, v) = vars_get_index(vars, i);
        strs_insert(&mut m, k.clone(), String::from_str(v.value()));
        i = i + 1;
        assert(t.subrange(0, i as int).drop_last() =~= t.subrange(0, i - 1));
    }
    assert(t.subrange(0, n as int) =~= t);
    m
}

} // verus!
