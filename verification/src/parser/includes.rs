//! The `include:` keyword: which files a document includes, and how their content is
//! merged into it. Fetching the files is left to the caller.
use vstd::prelude::*;

use crate::collections::{entries_insert, key_index};
use crate::error::{error_message, LabError};
use crate::model::rules::{evaluate_if_expression, if_expr_holds};
use crate::collections::{vars_new, var_entries};
use crate::parser::yaml::{
    add_missing, add_missing_exec, entries_copy, entry_views, find_key, item_views, lemma_mapping_view,
    lemma_sequence_view, map_insert, map_remove, str_items, str_node, swap_removed, Yaml,
    YamlView,
};
use crate::paths::{join_path, path_join};
use crate::text::{
    char_pos, chars_of, concat, concat3, find_char, join_strings, joined, lemma_char_pos,
    replace, replace_spec, starts_with, string_of_range, strings_range, views,
};

verus! {

/// One file an `include:` entry names.
#[derive(Debug)]
pub enum IncludeEntry {
    Local(String),
    Remote(String),
    Template(String),
    Project { project: String, file: String, git_ref: Option<String> },
    /// A CI component: `host/group/project/name@version`.
    Component { fqdn: String },
}

pub enum IncludeView {
    Local(Seq<char>),
    Remote(Seq<char>),
    Template(Seq<char>),
    Project { project: Seq<char>, file: Seq<char>, git_ref: Option<Seq<char>> },
    Component { fqdn: Seq<char> },
}

impl View for IncludeEntry {
    type V = IncludeView;

    open spec fn view(&self) -> IncludeView {
        match self {
            IncludeEntry::Local(p) => IncludeView::Local(p@),
            IncludeEntry::Remote(u) => IncludeView::Remote(u@),
            IncludeEntry::Template(n) => IncludeView::Template(n@),
            IncludeEntry::Project { project, file, git_ref } => IncludeView::Project {
                project: project@,
                file: file@,
                git_ref: match git_ref {
                    Some(r) => Some(r@),
                    None => None,
                },
            },
            IncludeEntry::Component { fqdn } => IncludeView::Component { fqdn: fqdn@ },
        }
    }
}

pub open spec fn include_views(v: Seq<IncludeEntry>) -> Seq<IncludeView> {
    v.map_values(|e: IncludeEntry| e@)
}

/// A string include: remote when it is an `http://` or `https://` URL, local otherwise.
pub open spec fn classify(s: Seq<char>) -> IncludeView {
    if "http://"@.is_prefix_of(s) || "https://"@.is_prefix_of(s) {
        IncludeView::Remote(s)
    } else {
        IncludeView::Local(s)
    }
}

pub fn classify_include(s: &str) -> (r: IncludeEntry)
    ensures
        r@ == classify(s@),
{
    if starts_with(s, "http://") || starts_with(s, "https://") {
        IncludeEntry::Remote(String::from_str(s))
    } else {
        IncludeEntry::Local(String::from_str(s))
    }
}

/// The string value of key `k` in `m`, if `m` holds a string there.
pub open spec fn str_at(m: Seq<(YamlView, YamlView)>, k: Seq<char>) -> Option<Seq<char>> {
    let i = key_index(m, str_node(k));
    if i >= 0 && m[i].1 is Str {
        Some(m[i].1->Str_0)
    } else {
        None
    }
}

/// The files a `project` include names under `file`: a string names one, a sequence
/// its string items.
pub open spec fn project_files(m: Seq<(YamlView, YamlView)>) -> Seq<Seq<char>> {
    let i = key_index(m, str_node("file"@));
    if i < 0 {
        Seq::empty()
    } else {
        match m[i].1 {
            YamlView::Str(s) => seq![s],
            YamlView::List(items) => str_items(items),
            _ => Seq::empty(),
        }
    }
}

/// The entries one item of `include:` names. A mapping is read by the first of
/// `local`, `remote`, `template`, `component`, `project` that it holds as a string; a
/// `project` names one entry per file, with its `ref`.
pub open spec fn single_include(v: YamlView) -> Seq<IncludeView> {
    match v {
        YamlView::Str(s) => seq![classify(s)],
        YamlView::Dict(m) => if str_at(m, "local"@) is Some {
            seq![IncludeView::Local(str_at(m, "local"@)->0)]
        } else if str_at(m, "remote"@) is Some {
            seq![IncludeView::Remote(str_at(m, "remote"@)->0)]
        } else if str_at(m, "template"@) is Some {
            seq![IncludeView::Template(str_at(m, "template"@)->0)]
        } else if str_at(m, "component"@) is Some {
            seq![IncludeView::Component { fqdn: str_at(m, "component"@)->0 }]
        } else if str_at(m, "project"@) is Some {
            project_files(m).map_values(
                |f: Seq<char>|
                    IncludeView::Project {
                        project: str_at(m, "project"@)->0,
                        file: f,
                        git_ref: str_at(m, "ref"@),
                    },
            )
        } else {
            Seq::empty()
        },
        _ => Seq::empty(),
    }
}

/// The entries of every item, in order.
pub open spec fn includes_of_items(items: Seq<YamlView>) -> Seq<IncludeView>
    decreases items.len(),
{
    if items.len() == 0 {
        Seq::empty()
    } else {
        includes_of_items(items.drop_last()) + single_include(items.last())
    }
}

/// The entries an `include:` value names: a string one, a sequence those of each item,
/// a mapping its own.
pub open spec fn include_entries(v: YamlView) -> Seq<IncludeView> {
    match v {
        YamlView::Str(s) => seq![classify(s)],
        YamlView::List(items) => includes_of_items(items),
        YamlView::Dict(_) => single_include(v),
        _ => Seq::empty(),
    }
}

fn str_value_at(m: &Vec<(Yaml, Yaml)>, k: &str) -> (r: Option<String>)
    ensures
        match r {
            Some(s) => str_at(entry_views(m@), k@) == Some(s@),
            None => str_at(entry_views(m@), k@) is None,
        },
{
    let key = Yaml::String(String::from_str(k));
    match find_key(m, &key) {
        Some(i) => match &m[i].1 {
            Yaml::String(s) => Some(s.clone()),
            _ => None,
        },
        None => None,
    }
}

/// The entries one item of `include:` names.
pub fn parse_single_include(v: &Yaml) -> (r: Vec<IncludeEntry>)
    ensures
        include_views(r@) == single_include(v@),
{
    let mut out: Vec<IncludeEntry> = Vec::new();
    match v {
        Yaml::String(s) => {
            out.push(classify_include(s.as_str()));
            assert(include_views(out@) =~= single_include(v@));
        },
        Yaml::Mapping(m) => {
            proof {
                lemma_mapping_view(*m);
            }
            let ghost mv = entry_views(m@);
            if let Some(p) = str_value_at(m, "local") {
                out.push(IncludeEntry::Local(p));
            } else if let Some(u) = str_value_at(m, "remote") {
                out.push(IncludeEntry::Remote(u));
            } else if let Some(n) = str_value_at(m, "template") {
                out.push(IncludeEntry::Template(n));
            } else if let Some(c) = str_value_at(m, "component") {
                out.push(IncludeEntry::Component { fqdn: c });
            } else if let Some(project) = str_value_at(m, "project") {
                let git_ref = str_value_at(m, "ref");
                let file_key = Yaml::String(String::from_str("file"));
                let files: Vec<String> = match find_key(m, &file_key) {
                    Some(i) => match &m[i].1 {
                        Yaml::String(s) => {
                            let mut f: Vec<String> = Vec::new();
                            f.push(s.clone());
                            assert(views(f@) =~= seq![s@]);
                            f
                        },
                        Yaml::Sequence(items) => {
                            proof {
                                lemma_sequence_view(*items);
                            }
                            crate::parser::yaml::string_items(items)
                        },
                        _ => {
                            let f: Vec<String> = Vec::new();
                            assert(views(f@) =~= Seq::<Seq<char>>::empty());
                            f
                        },
                    },
                    None => {
                        let f: Vec<String> = Vec::new();
                        assert(views(f@) =~= Seq::<Seq<char>>::empty());
                        f
                    },
                };
                let ghost fv = views(files@);
                assert(fv == project_files(mv));
                let mut i: usize = 0;
                while i < files.len()
                    invariant
                        fv == views(files@),
                        i <= fv.len(),
                        match git_ref {
                            Some(g) => str_at(mv, "ref"@) == Some(g@),
                            None => str_at(mv, "ref"@) is None,
                        },
                        out@.len() == i,
                        forall|j: int|
                            0 <= j < i ==> #[trigger] out@[j]@ == (IncludeView::Project {
                                project: project@,
                                file: fv[j],
                                git_ref: str_at(mv, "ref"@),
                            }),
                    decreases fv.len() - i,
                {
                    let r = match &git_ref {
                        Some(g) => Some(g.clone()),
                        None => None,
                    };
                    out.push(
                        IncludeEntry::Project { project: project.clone(), file: files[i].clone(), git_ref: r },
                    );
                    i = i + 1;
                }
            }
            assert(include_views(out@) =~= single_include(v@));
        },
        _ => {
            assert(include_views(out@) =~= single_include(v@));
        },
    }
    out
}

/// The entries an `include:` value names.
pub fn parse_include_entries(v: &Yaml) -> (r: Vec<IncludeEntry>)
    ensures
        include_views(r@) == include_entries(v@),
{
    match v {
        Yaml::String(s) => {
            let mut out: Vec<IncludeEntry> = Vec::new();
            out.push(classify_include(s.as_str()));
            assert(include_views(out@) =~= include_entries(v@));
            out
        },
        Yaml::Sequence(items) => {
            proof {
                lemma_sequence_view(*items);
            }
            let ghost iv = item_views(items@);
            let mut out: Vec<IncludeEntry> = Vec::new();
            let mut i: usize = 0;
            assert(include_views(out@) =~= includes_of_items(iv.take(0)));
            while i < items.len()
                invariant
                    iv == item_views(items@),
                    i <= iv.len(),
                    include_views(out@) == includes_of_items(iv.take(i as int)),
                decreases iv.len() - i,
            {
                assert(iv.take(i + 1).drop_last() =~= iv.take(i as int));
                assert(iv.take(i + 1).last() == items@[i as int]@);
                let mut more = parse_single_include(&items[i]);
                let ghost before = include_views(out@);
                let ghost mv = include_views(more@);
                out.append(&mut more);
                assert(include_views(out@) =~= before + mv);
                i = i + 1;
            }
            assert(iv.take(iv.len() as int) =~= iv);
            out
        },
        Yaml::Mapping(_) => parse_single_include(v),
        _ => {
            let out: Vec<IncludeEntry> = Vec::new();
            assert(include_views(out@) =~= include_entries(v@));
            out
        },
    }
}

/// Whether a list of `include:rules` lets the include in: some rule is a mapping whose
/// `if` is not a string, or whose `if` expression holds with no variables defined.
pub open spec fn include_rules_hold(rules: Seq<YamlView>) -> bool
    decreases rules.len(),
{
    if rules.len() == 0 {
        false
    } else {
        let rest = include_rules_hold(rules.drop_first());
        match rules[0] {
            YamlView::Dict(m) => match str_at(m, "if"@) {
                Some(e) => if_expr_holds(e, Seq::empty()) || rest,
                None => true,
            },
            _ => rest,
        }
    }
}

/// Whether `include:rules` lets the include in (`evaluate_include_rules`).
pub fn evaluate_include_rules(rules: &Vec<Yaml>) -> (r: bool)
    ensures
        r == include_rules_hold(item_views(rules@)),
{
    let ghost rv = item_views(rules@);
    let empty = vars_new();
    let mut i: usize = 0;
    assert(rv.skip(0) =~= rv);
    while i < rules.len()
        invariant
            rv == item_views(rules@),
            i <= rv.len(),
            var_entries(empty) == Seq::<(Seq<char>, crate::model::variables::VariableView)>::empty(),
            include_rules_hold(rv) == include_rules_hold(rv.skip(i as int)),
        decreases rv.len() - i,
    {
        assert(rv.skip(i as int)[0] == rules@[i as int]@);
        assert(rv.skip(i as int).drop_first() =~= rv.skip(i + 1));
        match &rules[i] {
            Yaml::Mapping(m) => {
                proof {
                    lemma_mapping_view(*m);
                }
                match str_value_at(m, "if") {
                    Some(expr) => {
                        if evaluate_if_expression(expr.as_str(), &empty) {
                            return true;
                        }
                    },
                    None => {
                        return true;
                    },
                }
            },
            _ => {},
        }
        i = i + 1;
    }
    false
}

/// The rules of one raw `include:` item, when it is a mapping with a `rules` sequence.
pub open spec fn item_rules(item: YamlView) -> Option<Seq<YamlView>> {
    match item {
        YamlView::Dict(m) => {
            let i = key_index(m, str_node("rules"@));
            if i >= 0 && m[i].1 is List {
                Some(m[i].1->List_0)
            } else {
                None
            }
        },
        _ => None,
    }
}

/// Whether the entry at position `i` is kept: the raw item at the same position, if
/// any, carries no rules or rules that let it in.
pub open spec fn keeps_entry(raw: Seq<YamlView>, i: int) -> bool {
    !(i < raw.len() && item_rules(raw[i]) is Some && !include_rules_hold(item_rules(raw[i])->0))
}

pub open spec fn kept_entries(entries: Seq<IncludeView>, raw: Seq<YamlView>) -> Seq<IncludeView>
    decreases entries.len(),
{
    if entries.len() == 0 {
        Seq::empty()
    } else {
        kept_entries(entries.drop_last(), raw) + if keeps_entry(raw, entries.len() - 1) {
            seq![entries.last()]
        } else {
            Seq::empty()
        }
    }
}

/// The raw items entries are matched with by position: a sequence's items, or a
/// mapping alone.
pub open spec fn raw_items(raw: YamlView) -> Option<Seq<YamlView>> {
    match raw {
        YamlView::List(s) => Some(s),
        YamlView::Dict(_) => Some(seq![raw]),
        _ => None,
    }
}

/// The entries `include:rules` lets in, each matched with the raw item at its position.
pub open spec fn filtered_includes(entries: Seq<IncludeView>, raw: YamlView) -> Seq<IncludeView> {
    match raw_items(raw) {
        Some(items) => kept_entries(entries, items),
        None => entries,
    }
}

/// The entries `include:rules` lets in (`filter_includes_by_rules`).
pub fn filter_includes_by_rules(entries: Vec<IncludeEntry>, raw_includes: &Yaml) -> (r: Vec<
    IncludeEntry,
>)
    ensures
        include_views(r@) == filtered_includes(include_views(entries@), raw_includes@),
{
    let single: Vec<Yaml>;
    let raw_seq: &Vec<Yaml> = match raw_includes {
        Yaml::Sequence(items) => {
            proof {
                lemma_sequence_view(*items);
            }
            items
        },
        Yaml::Mapping(_) => {
            single = vec![raw_includes.deep_copy()];
            assert(item_views(single@) =~= seq![raw_includes@]);
            &single
        },
        _ => {
            return entries;
        },
    };
    let ghost raw = item_views(raw_seq@);
    assert(raw_items(raw_includes@) == Some(raw));
    let ghost ev = include_views(entries@);
    let n0 = entries.len();
    let mut rest = entries;
    let ghost total = ev.len();
    let mut out: Vec<IncludeEntry> = Vec::new();
    let mut i: usize = 0;
    assert(include_views(out@) =~= kept_entries(ev.take(0), raw));
    while rest.len() > 0
        invariant
            raw == item_views(raw_seq@),
            total == ev.len(),
            total == n0,
            i + rest@.len() == total,
            forall|j: int| 0 <= j < rest@.len() ==> #[trigger] rest@[j]@ == ev[i + j],
            include_views(out@) == kept_entries(ev.take(i as int), raw),
        decreases rest@.len(),
    {
        let ghost old_rest = rest@;
        let entry = rest.remove(0);
        assert(entry@ == ev[i as int]);
        assert forall|j: int| 0 <= j < rest@.len() implies #[trigger] rest@[j]@ == ev[i + 1 + j] by {
            assert(rest@[j] == old_rest[j + 1]);
        }
        assert(ev.take(i + 1).drop_last() =~= ev.take(i as int));
        let mut keep = true;
        if i < raw_seq.len() {
            match &raw_seq[i] {
                Yaml::Mapping(m) => {
                    proof {
                        lemma_mapping_view(*m);
                    }
                    let rules_key = Yaml::String(String::from_str("rules"));
                    match find_key(m, &rules_key) {
                        Some(k) => match &m[k].1 {
                            Yaml::Sequence(rules) => {
                                proof {
                                    lemma_sequence_view(*rules);
                                }
                                if !evaluate_include_rules(rules) {
                                    keep = false;
                                }
                            },
                            _ => {},
                        },
                        None => {},
                    }
                },
                _ => {},
            }
        }
        assert(keep == keeps_entry(raw, i as int));
        let ghost before = include_views(out@);
        if keep {
            out.push(entry);
            assert(include_views(out@) =~= before + seq![ev[i as int]]);
        } else {
            assert(kept_entries(ev.take(i + 1), raw) =~= before);
        }
        i = i + 1;
    }
    assert(ev.take(total as int) =~= ev);
    out
}

/// `included` merged into the main document: a key the main document lacks is added
/// with its value; where both hold mappings, the included one fills the keys the main
/// one lacks; otherwise the main document keeps its value.
pub open spec fn merge_included(main: Seq<(YamlView, YamlView)>, inc: Seq<(YamlView, YamlView)>) -> Seq<
    (YamlView, YamlView),
>
    decreases inc.len(),
{
    if inc.len() == 0 {
        main
    } else {
        let m = merge_included(main, inc.drop_last());
        let k = inc.last().0;
        let iv = inc.last().1;
        let i = key_index(m, k);
        if i >= 0 && m[i].1 is Dict && iv is Dict {
            entries_insert(m, k, YamlView::Dict(add_missing(m[i].1->Dict_0, iv->Dict_0)))
        } else if i < 0 {
            m.push((k, iv))
        } else {
            m
        }
    }
}

/// Merge an included document's mapping into the main one (`deep_merge_included`).
pub fn deep_merge_included(main: &mut Vec<(Yaml, Yaml)>, included: &Vec<(Yaml, Yaml)>)
    ensures
        entry_views(final(main)@) == merge_included(entry_views(old(main)@), entry_views(included@)),
{
    let ghost start = entry_views(main@);
    let ghost iv = entry_views(included@);
    let mut i: usize = 0;
    assert(iv.take(0) =~= Seq::<(YamlView, YamlView)>::empty());
    while i < included.len()
        invariant
            iv == entry_views(included@),
            i <= iv.len(),
            entry_views(main@) == merge_included(start, iv.take(i as int)),
        decreases iv.len() - i,
    {
        assert(iv.take(i + 1).drop_last() =~= iv.take(i as int));
        assert(iv.take(i + 1).last() == (included@[i as int].0@, included@[i as int].1@));
        let k = &included[i].0;
        let val = &included[i].1;
        match find_key(main, k) {
            Some(j) => {
                let merged: Option<Vec<(Yaml, Yaml)>> = match (&main[j].1, val) {
                    (Yaml::Mapping(existing), Yaml::Mapping(incoming)) => {
                        proof {
                            lemma_mapping_view(*existing);
                            lemma_mapping_view(*incoming);
                        }
                        let mut merged = entries_copy(existing);
                        add_missing_exec(&mut merged, incoming);
                        Some(merged)
                    },
                    _ => None,
                };
                match merged {
                    Some(mm) => {
                        proof {
                            lemma_mapping_view(mm);
                        }
                        map_insert(main, k.deep_copy(), Yaml::Mapping(mm));
                    },
                    None => {},
                }
            },
            None => {
                let ghost before = entry_views(main@);
                main.push((k.deep_copy(), val.deep_copy()));
                assert(entry_views(main@) =~= before.push((k@, val@)));
            },
        }
        i = i + 1;
    }
    assert(iv.take(iv.len() as int) =~= iv);
}

/// The `include` key.
pub open spec fn include_key() -> YamlView {
    str_node("include"@)
}

/// The entries a document includes, once `include:rules` are applied.
pub open spec fn document_includes(root: YamlView) -> Seq<IncludeView> {
    match root {
        YamlView::Dict(m) => {
            let i = key_index(m, include_key());
            if i < 0 {
                Seq::empty()
            } else {
                filtered_includes(include_entries(m[i].1), m[i].1)
            }
        },
        _ => Seq::empty(),
    }
}

/// The document without its `include` key.
pub open spec fn without_includes(root: YamlView) -> YamlView {
    match root {
        YamlView::Dict(m) => {
            let i = key_index(m, include_key());
            if i < 0 {
                root
            } else {
                YamlView::Dict(swap_removed(m, i))
            }
        },
        _ => root,
    }
}

/// Take the `include` key out of a document and return the entries it names that its
/// rules let in, in order (the first half of `resolve_includes`; the caller fetches each
/// entry and merges it with `deep_merge_included`).
pub fn take_includes(root: &mut Yaml) -> (r: Vec<IncludeEntry>)
    ensures
        final(root)@ == without_includes(old(root)@),
        include_views(r@) == document_includes(old(root)@),
{
    let key = Yaml::String(String::from_str("include"));
    assert(key@ == include_key());
    match root {
        Yaml::Mapping(m) => {
            proof {
                lemma_mapping_view(*m);
            }
            let ghost mv = entry_views(m@);
            match map_remove(m, &key) {
                Some(v) => {
                    proof {
                        lemma_mapping_view(*m);
                    }
                    let entries = parse_include_entries(&v);
                    filter_includes_by_rules(entries, &v)
                },
                None => {
                    let out: Vec<IncludeEntry> = Vec::new();
                    assert(include_views(out@) =~= Seq::<IncludeView>::empty());
                    out
                },
            }
        },
        _ => {
            let out: Vec<IncludeEntry> = Vec::new();
            assert(include_views(out@) =~= Seq::<IncludeView>::empty());
            out
        },
    }
}

// ---------------------------------------------------------------------------
// Where included files come from
// ---------------------------------------------------------------------------
/// The file a local include names, under the document's directory; a leading `/` means
/// the same directory.
pub fn local_include_path(base_dir: &str, path: &str) -> (r: String)
    ensures
        r@ == path_join(
            base_dir@,
            if path@.len() > 0 && path@[0] == '/' {
                crate::text::drop_leading(path@, '/')
            } else {
                path@
            },
        ),
{
    let v = chars_of(path);
    if v.len() > 0 && v[0] == '/' {
        let t = crate::text::trim_start_char(path, '/');
        join_path(base_dir, t.as_str())
    } else {
        join_path(base_dir, path)
    }
}

/// The URL of a GitLab CI template.
pub fn template_url(name: &str) -> (r: String)
    ensures
        r@ == "https://gitlab.com/gitlab-org/gitlab/-/raw/master/lib/gitlab/ci/templates/"@ + name@,
{
    concat("https://gitlab.com/gitlab-org/gitlab/-/raw/master/lib/gitlab/ci/templates/", name)
}

/// The ref a project include reads when it names none.
pub fn project_ref(git_ref: Option<&str>) -> (r: String)
    ensures
        r@ == match git_ref {
            Some(g) => g@,
            None => "HEAD"@,
        },
{
    match git_ref {
        Some(g) => String::from_str(g),
        None => String::from_str("HEAD"),
    }
}

/// The GitLab API path of a file of a project at a ref.
pub fn project_file_api_path(project: &str, file_path: &str, git_ref: &str) -> (r: String)
    ensures
        r@ == "projects/"@ + replace_spec(project@, "/"@, "%2F"@) + "/repository/files/"@
            + replace_spec(crate::text::drop_leading(file_path@, '/'), "/"@, "%2F"@)
            + "/raw?ref="@ + git_ref@,
{
    proof {
        reveal_strlit("/");
    }
    let p = replace(project, "/", "%2F");
    let trimmed = crate::text::trim_start_char(file_path, '/');
    let f = replace(trimmed.as_str(), "/", "%2F");
    let a = concat3("projects/", p.as_str(), "/repository/files/");
    let b = concat3(a.as_str(), f.as_str(), "/raw?ref=");
    concat(b.as_str(), git_ref)
}

/// Where a CI component comes from.
pub struct ComponentRef {
    pub hostname: String,
    pub project_path: String,
    pub component_name: String,
    pub version: String,
}

/// The parts of `host/group/project/name`: the text before each of the first three `/`
/// and the rest; `None` with fewer than three `/`.
pub open spec fn component_parts(path: Seq<char>) -> Option<
    (Seq<char>, Seq<char>, Seq<char>, Seq<char>),
> {
    let i1 = char_pos(path, '/');
    if i1 < 0 {
        None
    } else {
        let s1 = path.skip(i1 + 1);
        let i2 = char_pos(s1, '/');
        if i2 < 0 {
            None
        } else {
            let s2 = s1.skip(i2 + 1);
            let i3 = char_pos(s2, '/');
            if i3 < 0 {
                None
            } else {
                Some((path.take(i1), s1.take(i2), s2.take(i3), s2.skip(i3 + 1)))
            }
        }
    }
}

/// The message of a component reference without `@`.
pub open spec fn bad_reference_message(fqdn: Seq<char>) -> Seq<char> {
    "invalid component reference '"@ + fqdn
        + "' \u{2014} expected format: gitlab.com/group/project/name@version"@
}

/// The message of a component path with fewer than four parts.
pub open spec fn bad_path_message(path: Seq<char>) -> Seq<char> {
    "invalid component path '"@ + path + "' \u{2014} expected: hostname/group/project/component-name"@
}

/// Read `host/group/project/name@version`: the host, `group/project`, the component's
/// name (the rest of the path) and the version.
pub fn parse_component(fqdn: &str) -> (r: Result<ComponentRef, LabError>)
    ensures
        char_pos(fqdn@, '@') < 0 ==> (r matches Err(e) && e is Other && error_message(e)
            == bad_reference_message(fqdn@)),
        char_pos(fqdn@, '@') >= 0 ==> {
            let path = fqdn@.take(char_pos(fqdn@, '@'));
            let version = fqdn@.skip(char_pos(fqdn@, '@') + 1);
            match component_parts(path) {
                None => (r matches Err(e) && e is Other && error_message(e) == bad_path_message(
                    path,
                )),
                Some(p) => (r matches Ok(c) && c.hostname@ == p.0 && c.project_path@ == p.1
                    + "/"@ + p.2 && c.component_name@ == p.3 && c.version@ == version),
            }
        },
{
    let (path, version) = match crate::text::split_once_char(fqdn, '@') {
        Some(pv) => pv,
        None => {
            return Err(
                LabError::Other(
                    concat3(
                        "invalid component reference '",
                        fqdn,
                        "' \u{2014} expected format: gitlab.com/group/project/name@version",
                    ),
                ),
            );
        },
    };
    let bad = concat3(
        "invalid component path '",
        path.as_str(),
        "' \u{2014} expected: hostname/group/project/component-name",
    );
    let (host, s1) = match crate::text::split_once_char(path.as_str(), '/') {
        Some(p) => p,
        None => return Err(LabError::Other(bad)),
    };
    let (group, s2) = match crate::text::split_once_char(s1.as_str(), '/') {
        Some(p) => p,
        None => return Err(LabError::Other(bad)),
    };
    let (project, name) = match crate::text::split_once_char(s2.as_str(), '/') {
        Some(p) => p,
        None => return Err(LabError::Other(bad)),
    };
    let project_path = concat3(group.as_str(), "/", project.as_str());
    Ok(ComponentRef { hostname: host, project_path, component_name: name, version })
}

/// The raw URL of a component's template, for public projects.
pub fn component_raw_url(c: &ComponentRef) -> (r: String)
    ensures
        r@ == "https://"@ + c.hostname@ + "/"@ + c.project_path@ + "/-/raw/"@ + c.version@ + "/"@
            + c.component_name@ + "/template.yml"@,
{
    let a = concat3("https://", c.hostname.as_str(), "/");
    let b = concat3(a.as_str(), c.project_path.as_str(), "/-/raw/");
    let d = concat3(b.as_str(), c.version.as_str(), "/");
    concat3(d.as_str(), c.component_name.as_str(), "/template.yml")
}

/// The file of a component's template within its project.
pub fn component_file_path(c: &ComponentRef) -> (r: String)
    ensures
        r@ == c.component_name@ + "/template.yml"@,
{
    concat(c.component_name.as_str(), "/template.yml")
}

} // verus!
