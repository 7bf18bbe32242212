//! Properties that hold across the library's functions, each proved over the spec
//! functions their contracts use.
use vstd::prelude::*;

use crate::analyze::{by_severity, of_severity, FindingView, Severity};
use crate::config::insert_missing;
use crate::model::rules::{
    and_spec, and_tail, if_expr_holds, lemma_run_while_is, not_spec, or_spec, or_tail, primary_spec,
    skip_ws, value_spec, var_ref_spec, ws_pred, name_pred,
};
use crate::model::variables::{lookup_value, name_prefix};
use crate::model::job::{inherit_default, JobView};
use crate::parser::schema::{inherits, with_defaults, DefaultsView};
use crate::planner::dag::{combo_vars, insert_matrix_jobs, matrix_job, matrix_name, simple_var};
use crate::text::{is_ascii_ws, is_name_char};
use crate::collections::{
    entries_insert, entries_insert_all, has_key, key_index, lemma_key_index_bounds,
    lemma_key_index_is, lookup, unique_keys,
};
use crate::parser::includes::merge_included;
use crate::parser::yaml::{
    add_missing, add_missing_from, extend_one, extends_key, extends_pass, merge_key, merge_sources,
    merged_entries, swap_removed, YamlView,
};
use crate::model::variables::{expand_spec, merge_spec, VariableView, MAX_EXPANSION_DEPTH};
use crate::runner::job_plan::public_env;
use crate::secrets::{
    all_masks, base64_standard, byte_len, dedup, env_entries, env_line, insert_by_len, lemma_insert_by_len,
    longest_first, masked, masks_for, references_var, scoped_entries, secrets_file_body,
    secrets_file_entry, secrets_file_text, simple_view, missing_secrets, pipeline_defines,
    predefined_name,
};
use crate::text::{
    char_pos, is_ws, lead_ws, lemma_char_pos, split_on, trail_ws, trim_spec,
    all_digits, contains_seq, decimal, digit_char, digits_value, occurs_at, replace_spec,
    u64_parse_spec,
};

verus! {

// ---------------------------------------------------------------------------
// Variables
// ---------------------------------------------------------------------------
/// Expanding a text that holds no `$` gives the text back.
pub proof fn law_expand_plain_text(s: Seq<char>, vars: Seq<(Seq<char>, VariableView)>, depth: nat)
    requires
        !s.contains('$'),
    ensures
        expand_spec(s, vars, depth) == s,
    decreases s.len(),
{
    if depth < MAX_EXPANSION_DEPTH && s.len() > 0 {
        assert(s[0] != '$') by {
            assert(s.contains(s[0]) || true);
            if s[0] == '$' {
                assert(s.contains('$'));
            }
        }
        let t = s.drop_first();
        assert(!t.contains('$')) by {
            if t.contains('$') {
                let j = choose|j: int| 0 <= j < t.len() && t[j] == '$';
                assert(s[j + 1] == '$');
            }
        }
        law_expand_plain_text(t, vars, depth);
        assert(seq![s[0]] + t =~= s);
    }
}

/// Inserting a key and then looking any key up: the inserted key gives the inserted
/// value, every other key what it gave before.
pub proof fn lemma_lookup_insert<K, V>(m: Seq<(K, V)>, k: K, v: V, q: K)
    ensures
        lookup(entries_insert(m, k, v), q) == if q == k {
            Some(v)
        } else {
            lookup(m, q)
        },
{
    lemma_key_index_bounds(m, k);
    lemma_key_index_bounds(m, q);
    let t = entries_insert(m, k, v);
    if q == k {
        if key_index(m, k) >= 0 {
            lemma_key_index_is(t, k, key_index(m, k));
        } else {
            lemma_key_index_is(t, k, m.len() as int);
        }
    } else {
        let i = key_index(m, q);
        assert forall|j: int| 0 <= j < t.len() && j != m.len() implies t[j].0 == m[j].0 || (
        t[j].0 == k && m[j].0 == k) by {}
        if i >= 0 {
            assert(t[i].0 == q);
            lemma_key_index_is(t, q, i);
        } else {
            lemma_key_index_is(t, q, -1);
        }
    }
}

/// Inserting every entry of `t` into `m`, then looking `q` up: `t`'s last value for `q`
/// when `t` has `q`, else what `m` gave.
pub proof fn law_insert_all_lookup<K, V>(m: Seq<(K, V)>, t: Seq<(K, V)>, q: K)
    requires
        unique_keys(t),
    ensures
        lookup(entries_insert_all(m, t), q) == if has_key(t, q) {
            lookup(t, q)
        } else {
            lookup(m, q)
        },
    decreases t.len(),
{
    if t.len() > 0 {
        let p = t.drop_last();
        assert(unique_keys(p));
        law_insert_all_lookup(m, p, q);
        lemma_lookup_insert(entries_insert_all(m, p), t.last().0, t.last().1, q);
        lemma_key_index_bounds(t, q);
        lemma_key_index_bounds(p, q);
        if q == t.last().0 {
            lemma_key_index_is(t, q, t.len() - 1);
        } else if key_index(p, q) >= 0 {
            assert(p[key_index(p, q)] == t[key_index(p, q)]);
            lemma_key_index_is(t, q, key_index(p, q));
        } else {
            assert forall|j: int| 0 <= j < t.len() implies t[j].0 != q by {
                if j < p.len() {
                    assert(p[j] == t[j]);
                }
            }
            lemma_key_index_is(t, q, -1);
        }
    }
}

/// The value of `q` in the last source that defines it, if any.
pub open spec fn last_value(
    sources: Seq<Seq<(Seq<char>, VariableView)>>,
    q: Seq<char>,
) -> Option<VariableView>
    decreases sources.len(),
{
    if sources.len() == 0 {
        None
    } else if has_key(sources.last(), q) {
        lookup(sources.last(), q)
    } else {
        last_value(sources.drop_last(), q)
    }
}

/// Merging variable maps (`merge_variables`): each name takes its value from the last
/// source that defines it.
pub proof fn law_merge_precedence(sources: Seq<Seq<(Seq<char>, VariableView)>>, q: Seq<char>)
    requires
        forall|i: int| 0 <= i < sources.len() ==> unique_keys(#[trigger] sources[i]),
    ensures
        lookup(merge_spec(sources), q) == last_value(sources, q),
    decreases sources.len(),
{
    if sources.len() > 0 {
        let p = sources.drop_last();
        assert forall|i: int| 0 <= i < p.len() implies unique_keys(#[trigger] p[i]) by {
            assert(p[i] == sources[i]);
        }
        law_merge_precedence(p, q);
        law_insert_all_lookup(merge_spec(p), sources.last(), q);
    }
}

// ---------------------------------------------------------------------------
// Secrets
// ---------------------------------------------------------------------------
/// Replacing a pattern that does not occur gives the text back.
pub proof fn lemma_replace_absent(s: Seq<char>, from: Seq<char>, to: Seq<char>)
    requires
        !contains_seq(s, from),
    ensures
        replace_spec(s, from, to) == s,
    decreases s.len(),
{
    if from.len() > 0 && s.len() >= from.len() {
        if s.subrange(0, from.len() as int) == from {
            assert(occurs_at(s, from, 0));
        }
        let t = s.drop_first();
        assert(!contains_seq(t, from)) by {
            if contains_seq(t, from) {
                let i = choose|i: int| 0 <= i <= t.len() && #[trigger] occurs_at(t, from, i);
                assert(s.subrange(i + 1, i + 1 + from.len()) =~= t.subrange(i, i + from.len()));
                assert(occurs_at(s, from, i + 1));
            }
        }
        lemma_replace_absent(t, from, to);
        assert(seq![s[0]] + t =~= s);
    }
}

/// Masking a text in which no registered value occurs leaves it as it is.
pub proof fn law_mask_clean_text(text: Seq<char>, secrets: Seq<Seq<char>>)
    requires
        forall|i: int| 0 <= i < secrets.len() ==> !contains_seq(text, #[trigger] secrets[i]),
    ensures
        masked(text, secrets) == text,
    decreases secrets.len(),
{
    if secrets.len() > 0 {
        let p = secrets.drop_last();
        assert forall|i: int| 0 <= i < p.len() implies !contains_seq(text, #[trigger] p[i]) by {
            assert(p[i] == secrets[i]);
        }
        law_mask_clean_text(text, p);
        lemma_replace_absent(text, secrets.last(), "[MASKED]"@);
    }
}

/// A job is given exactly the secrets its texts reference, each with its value.
pub proof fn law_scoped_secrets_mentioned(
    e: Seq<(Seq<char>, VariableView)>,
    text: Seq<char>,
    q: Seq<char>,
)
    requires
        unique_keys(e),
    ensures
        lookup(scoped_entries(e, text), q) == if references_var(text, q) {
            lookup(e, q)
        } else {
            None
        },
    decreases e.len(),
{
    if e.len() == 0 {
    } else {
        let p = e.drop_last();
        assert(unique_keys(p));
        law_scoped_secrets_mentioned(p, text, q);
        lemma_key_index_bounds(e, q);
        lemma_key_index_bounds(p, q);
        if references_var(text, e.last().0) {
            lemma_lookup_insert(scoped_entries(p, text), e.last().0, e.last().1, q);
        }
        if q == e.last().0 {
            lemma_key_index_is(e, q, e.len() - 1);
            if !references_var(text, q) {
                lemma_key_index_bounds(scoped_entries(p, text), q);
                assert(lookup(p, q) is None) by {
                    assert forall|j: int| 0 <= j < p.len() implies p[j].0 != q by {
                        assert(p[j] == e[j]);
                    }
                    lemma_key_index_is(p, q, -1);
                }
            }
        } else if key_index(p, q) >= 0 {
            assert(p[key_index(p, q)] == e[key_index(p, q)]);
            lemma_key_index_is(e, q, key_index(p, q));
        } else {
            assert forall|j: int| 0 <= j < e.len() implies e[j].0 != q by {
                if j < p.len() {
                    assert(p[j] == e[j]);
                }
            }
            lemma_key_index_is(e, q, -1);
        }
    }
}

// ---------------------------------------------------------------------------
// Numbers
// ---------------------------------------------------------------------------
/// The decimal writing of a number reads back as that number.
pub proof fn law_decimal_reads_back(n: nat)
    requires
        n <= u64::MAX,
    ensures
        u64_parse_spec(decimal(n)) == Some(n as int),
{
    lemma_decimal_digits(n);
    assert(decimal(n)[0] != '+');
}

proof fn lemma_decimal_digits(n: nat)
    ensures
        decimal(n).len() > 0,
        all_digits(decimal(n)),
        digits_value(decimal(n)) == n,
        decimal(n)[0] != '+',
    decreases n,
{
    if n < 10 {
        let d = decimal(n);
        assert(d.drop_last() =~= Seq::<char>::empty());
        assert(digit_char(n as int) as int - '0' as int == n);
        assert(digits_value(d) == digits_value(d.drop_last()) * 10 + (d.last() as int - '0' as int));
    } else {
        lemma_decimal_digits(n / 10);
        let d = decimal(n);
        let h = decimal(n / 10);
        assert(d.drop_last() =~= h);
        assert(digit_char((n % 10) as int) as int - '0' as int == n % 10);
        assert((n / 10) * 10 + n % 10 == n) by (nonlinear_arith);
        assert(digits_value(d) == digits_value(h) * 10 + (d.last() as int - '0' as int));
        assert forall|i: int| 0 <= i < d.len() implies crate::text::is_ascii_digit(#[trigger] d[i]) by {
            if i < h.len() {
                assert(d[i] == h[i]);
            }
        }
        assert(d[0] == h[0]);
    }
}

// ---------------------------------------------------------------------------
// Analysis
// ---------------------------------------------------------------------------
/// The rank of a severity: critical first.
pub open spec fn rank(s: Severity) -> int {
    match s {
        Severity::Critical => 0,
        Severity::Warning => 1,
        Severity::Info => 2,
    }
}

proof fn lemma_of_severity_all(f: Seq<FindingView>, s: Severity)
    ensures
        forall|i: int| 0 <= i < of_severity(f, s).len() ==> (#[trigger] of_severity(f, s)[i]).severity == s,
    decreases f.len(),
{
    if f.len() > 0 {
        lemma_of_severity_all(f.drop_last(), s);
        let p = of_severity(f.drop_last(), s);
        assert forall|i: int| 0 <= i < of_severity(f, s).len() implies (#[trigger] of_severity(
            f,
            s,
        )[i]).severity == s by {
            if i < p.len() {
                assert(of_severity(f, s)[i] == p[i]);
            }
        }
    }
}

/// The findings come critical first, then warnings, then infos.
pub proof fn law_findings_sorted(f: Seq<FindingView>)
    ensures
        forall|i: int, j: int|
            0 <= i < j < by_severity(f).len() ==> rank((#[trigger] by_severity(f)[i]).severity) <= rank(
                (#[trigger] by_severity(f)[j]).severity,
            ),
{
    let c = of_severity(f, Severity::Critical);
    let w = of_severity(f, Severity::Warning);
    let n = of_severity(f, Severity::Info);
    lemma_of_severity_all(f, Severity::Critical);
    lemma_of_severity_all(f, Severity::Warning);
    lemma_of_severity_all(f, Severity::Info);
    let r = by_severity(f);
    assert forall|i: int| 0 <= i < r.len() implies rank((#[trigger] r[i]).severity) == if i < c.len() {
        0int
    } else if i < c.len() + w.len() {
        1int
    } else {
        2int
    } by {
        if i < c.len() {
            assert(r[i] == c[i]);
        } else if i < c.len() + w.len() {
            assert(r[i] == w[i - c.len()]);
        } else {
            assert(r[i] == n[i - c.len() - w.len()]);
        }
    }
}

proof fn lemma_of_severity_concat(a: Seq<FindingView>, b: Seq<FindingView>, s: Severity)
    ensures
        of_severity(a + b, s) == of_severity(a, s) + of_severity(b, s),
    decreases b.len(),
{
    if b.len() == 0 {
        assert(a + b =~= a);
        assert(of_severity(a, s) + of_severity(b, s) =~= of_severity(a, s));
    } else {
        assert((a + b).drop_last() =~= a + b.drop_last());
        assert((a + b).last() == b.last());
        lemma_of_severity_concat(a, b.drop_last(), s);
        assert(of_severity(a + b, s) =~= of_severity(a, s) + of_severity(b, s));
    }
}

proof fn lemma_of_severity_twice(f: Seq<FindingView>, t: Severity, s: Severity)
    ensures
        of_severity(of_severity(f, t), s) == if t == s {
            of_severity(f, s)
        } else {
            Seq::<FindingView>::empty()
        },
    decreases f.len(),
{
    if f.len() > 0 {
        let d = f.drop_last();
        lemma_of_severity_twice(d, t, s);
        let tail = if f.last().severity == t {
            seq![f.last()]
        } else {
            Seq::<FindingView>::empty()
        };
        lemma_of_severity_concat(of_severity(d, t), tail, s);
        if f.last().severity == t {
            assert(seq![f.last()].drop_last() =~= Seq::<FindingView>::empty());
            assert(of_severity(Seq::<FindingView>::empty(), s) =~= Seq::<FindingView>::empty());
        }
        assert(of_severity(of_severity(f, t), s) =~= if t == s {
            of_severity(f, s)
        } else {
            Seq::<FindingView>::empty()
        });
    } else {
        assert(of_severity(f, t) =~= Seq::<FindingView>::empty());
    }
}

proof fn lemma_of_severity_multiset(f: Seq<FindingView>)
    ensures
        of_severity(f, Severity::Critical).to_multiset().add(
            of_severity(f, Severity::Warning).to_multiset(),
        ).add(of_severity(f, Severity::Info).to_multiset()) =~= f.to_multiset(),
    decreases f.len(),
{
    broadcast use vstd::multiset::group_multiset_axioms, vstd::seq_lib::group_to_multiset_ensures;

    if f.len() == 0 {
        assert(of_severity(f, Severity::Critical) =~= Seq::<FindingView>::empty());
        assert(of_severity(f, Severity::Warning) =~= Seq::<FindingView>::empty());
        assert(of_severity(f, Severity::Info) =~= Seq::<FindingView>::empty());
    } else {
        let d = f.drop_last();
        let x = f.last();
        lemma_of_severity_multiset(d);
        assert(d.push(x) =~= f);
        let c = of_severity(d, Severity::Critical);
        let w = of_severity(d, Severity::Warning);
        let n = of_severity(d, Severity::Info);
        match x.severity {
            Severity::Critical => {
                assert(of_severity(f, Severity::Critical) =~= c.push(x));
                assert(of_severity(f, Severity::Warning) =~= w);
                assert(of_severity(f, Severity::Info) =~= n);
            },
            Severity::Warning => {
                assert(of_severity(f, Severity::Critical) =~= c);
                assert(of_severity(f, Severity::Warning) =~= w.push(x));
                assert(of_severity(f, Severity::Info) =~= n);
            },
            Severity::Info => {
                assert(of_severity(f, Severity::Critical) =~= c);
                assert(of_severity(f, Severity::Warning) =~= w);
                assert(of_severity(f, Severity::Info) =~= n.push(x));
            },
        }
    }
}

/// Ordering findings by severity is a stable permutation: the same findings, as many
/// times each, with the findings of each severity in the order the checks gave them.
pub proof fn law_findings_stable_permutation(f: Seq<FindingView>)
    ensures
        by_severity(f).to_multiset() == f.to_multiset(),
        forall|s: Severity| #[trigger] of_severity(by_severity(f), s) == of_severity(f, s),
{
    broadcast use vstd::seq_lib::lemma_multiset_commutative;

    let c = of_severity(f, Severity::Critical);
    let w = of_severity(f, Severity::Warning);
    let n = of_severity(f, Severity::Info);
    lemma_of_severity_multiset(f);
    assert((c + w + n).to_multiset() =~= c.to_multiset().add(w.to_multiset()).add(n.to_multiset()));
    assert forall|s: Severity| #[trigger] of_severity(by_severity(f), s) == of_severity(f, s) by {
        lemma_of_severity_concat(c + w, n, s);
        lemma_of_severity_concat(c, w, s);
        lemma_of_severity_twice(f, Severity::Critical, s);
        lemma_of_severity_twice(f, Severity::Warning, s);
        lemma_of_severity_twice(f, Severity::Info, s);
        assert(of_severity(by_severity(f), s) =~= of_severity(f, s));
    }
}

// ---------------------------------------------------------------------------
// The secrets file
// ---------------------------------------------------------------------------
/// The first `c` of `a + [c] + b`, when `a` holds none, is at `a`'s end.
proof fn lemma_char_pos_at(a: Seq<char>, b: Seq<char>, c: char)
    requires
        !a.contains(c),
    ensures
        char_pos(a + seq![c] + b, c) == a.len(),
{
    let s = a + seq![c] + b;
    lemma_char_pos(s, c);
    assert(s[a.len() as int] == c);
    let p = char_pos(s, c);
    if 0 <= p < a.len() {
        assert(s[p] == a[p]);
        assert(a.contains(a[p]));
    }
}

/// Splitting at `c` a text joined at a `c` gives the pieces of each side.
pub proof fn lemma_split_join(a: Seq<char>, b: Seq<char>, c: char)
    ensures
        split_on(a + seq![c] + b, c) == split_on(a, c) + split_on(b, c),
    decreases a.len(),
{
    let s = a + seq![c] + b;
    if !a.contains(c) {
        lemma_char_pos_at(a, b, c);
        lemma_char_pos(a, c);
        if char_pos(a, c) >= 0 {
            assert(a.contains(a[char_pos(a, c)]));
        }
        assert(s.take(a.len() as int) =~= a);
        assert(s.skip(a.len() as int + 1) =~= b);
    } else {
        lemma_char_pos(a, c);
        let p = char_pos(a, c);
        if p < 0 {
            let j = choose|j: int| 0 <= j < a.len() && a[j] == c;
            assert(false);
        }
        let a1 = a.take(p);
        let a2 = a.skip(p + 1);
        assert(!a1.contains(c)) by {
            if a1.contains(c) {
                let j = choose|j: int| 0 <= j < a1.len() && a1[j] == c;
                assert(a[j] == c);
            }
        }
        assert(a =~= a1 + seq![c] + a2);
        assert(s =~= a1 + seq![c] + (a2 + seq![c] + b));
        lemma_char_pos_at(a1, a2 + seq![c] + b, c);
        lemma_char_pos_at(a1, a2, c);
        assert(s.take(p) =~= a1);
        assert(s.skip(p + 1) =~= a2 + seq![c] + b);
        lemma_split_join(a2, b, c);
        assert(split_on(a, c) == seq![a1] + split_on(a2, c)) by {
            assert(a.take(p) =~= a1);
            assert(a.skip(p + 1) =~= a2);
        }
        assert(split_on(s, c) == seq![a1] + split_on(a2 + seq![c] + b, c));
    }
}

/// Whether a text has no whitespace at either end.
pub open spec fn trimmed(s: Seq<char>) -> bool {
    s.len() == 0 || (!is_ws(s[0]) && !is_ws(s.last()))
}

proof fn lemma_trimmed(s: Seq<char>)
    requires
        trimmed(s),
    ensures
        trim_spec(s) == s,
{
    if s.len() > 0 {
        assert(lead_ws(s) == 0);
        assert(s.skip(0) =~= s);
        assert(trail_ws(s) == 0);
        assert(s.take(s.len() as int) =~= s);
    } else {
        assert(s.skip(lead_ws(s) as int) =~= s);
    }
}

/// An entry the secrets file writes and reads back unchanged: a non-empty key with no
/// whitespace at its ends, not starting with `#`, holding no `=` and no newline; a
/// value with no whitespace at its ends, no newline, and not wrapped in double quotes
/// (a double quote elsewhere in it is kept).
pub open spec fn round_trips(k: Seq<char>, v: Seq<char>) -> bool {
    &&& k.len() > 0 && trimmed(k) && k[0] != '#' && !k.contains('=') && !k.contains('\n')
    &&& trimmed(v) && !v.contains('\n') && !(v.len() >= 2 && v[0] == '"' && v.last() == '"')
}

/// Lines, each followed by a newline.
pub open spec fn lines_text(lines: Seq<Seq<char>>) -> Seq<char>
    decreases lines.len(),
{
    if lines.len() == 0 {
        Seq::empty()
    } else {
        lines[0] + seq!['\n'] + lines_text(lines.drop_first())
    }
}

/// The comment line written before a value that holds a double quote.
pub open spec fn note_line(k: Seq<char>) -> Seq<char> {
    "# "@ + k + " (contains special chars, stored as-is)"@
}

/// The lines one entry is written as: `KEY=VALUE`, after the comment line when the
/// value holds a double quote.
pub open spec fn entry_block(k: Seq<char>, v: Seq<char>) -> Seq<Seq<char>> {
    if v.contains('"') {
        seq![note_line(k), k + "="@ + v]
    } else {
        seq![k + "="@ + v]
    }
}

/// The lines the entries are written as.
pub open spec fn entry_lines(e: Seq<(Seq<char>, VariableView)>) -> Seq<Seq<char>>
    decreases e.len(),
{
    if e.len() == 0 {
        Seq::empty()
    } else {
        entry_lines(e.drop_last()) + entry_block(e.last().0, e.last().1.value)
    }
}

proof fn lemma_lines_text_one(l: Seq<char>)
    ensures
        lines_text(seq![l]) == l + seq!['\n'],
{
    assert(seq![l].drop_first() =~= Seq::<Seq<char>>::empty());
    assert(lines_text(Seq::<Seq<char>>::empty()) == Seq::<char>::empty());
    assert(lines_text(seq![l]) =~= l + seq!['\n']);
}

proof fn lemma_lines_text_two(a: Seq<char>, b: Seq<char>)
    ensures
        lines_text(seq![a, b]) == a + seq!['\n'] + (b + seq!['\n']),
{
    assert(seq![a, b] =~= seq![a] + seq![b]);
    lemma_lines_text_concat(seq![a], seq![b]);
    lemma_lines_text_one(a);
    lemma_lines_text_one(b);
}

/// The comment line is read as no entry and holds no newline.
proof fn lemma_note_line(k: Seq<char>)
    requires
        !k.contains('\n'),
    ensures
        env_line(note_line(k)) is None,
        !note_line(k).contains('\n'),
        secrets_file_entry_note(k) == note_line(k) + seq!['\n'],
{
    reveal_strlit("# ");
    reveal_strlit(" (contains special chars, stored as-is)\n");
    reveal_strlit(" (contains special chars, stored as-is)");
    let n = note_line(k);
    assert(" (contains special chars, stored as-is)\n"@ =~= " (contains special chars, stored as-is)"@
        + seq!['\n']);
    assert(secrets_file_entry_note(k) =~= n + seq!['\n']);
    assert(!n.contains('\n')) by {
        if n.contains('\n') {
            let j = choose|j: int| 0 <= j < n.len() && n[j] == '\n';
            if 2 <= j < 2 + k.len() {
                assert(k[j - 2] == '\n');
            } else if j < 2 {
                assert("# "@[j] == '\n');
            } else {
                assert(" (contains special chars, stored as-is)"@[j - 2 - k.len()] == '\n');
            }
        }
    }
    assert(n[0] == '#');
    assert(n.last() == ')');
    assert(trimmed(n));
    lemma_trimmed(n);
}

/// The comment written before a value holding a double quote, with its newline.
pub open spec fn secrets_file_entry_note(k: Seq<char>) -> Seq<char> {
    "# "@ + k + " (contains special chars, stored as-is)\n"@
}

proof fn lemma_lines_text_concat(a: Seq<Seq<char>>, b: Seq<Seq<char>>)
    ensures
        lines_text(a + b) == lines_text(a) + lines_text(b),
    decreases a.len(),
{
    if a.len() == 0 {
        assert(a + b =~= b);
        assert(lines_text(a) + lines_text(b) =~= lines_text(b));
    } else {
        assert((a + b).drop_first() =~= a.drop_first() + b);
        assert((a + b)[0] == a[0]);
        lemma_lines_text_concat(a.drop_first(), b);
        assert(lines_text(a + b) =~= lines_text(a) + lines_text(b));
    }
}

proof fn lemma_no_newline(l: Seq<char>)
    requires
        !l.contains('\n'),
    ensures
        split_on(l, '\n') == seq![l],
{
    lemma_char_pos(l, '\n');
    if char_pos(l, '\n') >= 0 {
        assert(l.contains(l[char_pos(l, '\n')]));
    }
}

proof fn lemma_split_lines(lines: Seq<Seq<char>>)
    requires
        forall|i: int| 0 <= i < lines.len() ==> !(#[trigger] lines[i]).contains('\n'),
    ensures
        split_on(lines_text(lines), '\n') == lines + seq![Seq::<char>::empty()],
    decreases lines.len(),
{
    if lines.len() == 0 {
        lemma_no_newline(Seq::<char>::empty());
        assert(lines + seq![Seq::<char>::empty()] =~= seq![Seq::<char>::empty()]);
    } else {
        let rest = lines.drop_first();
        assert forall|i: int| 0 <= i < rest.len() implies !(#[trigger] rest[i]).contains('\n') by {
            assert(rest[i] == lines[i + 1]);
        }
        lemma_split_lines(rest);
        lemma_split_join(lines[0], lines_text(rest), '\n');
        lemma_no_newline(lines[0]);
        assert(lines + seq![Seq::<char>::empty()] =~= seq![lines[0]] + (rest + seq![Seq::<char>::empty()]));
    }
}

proof fn lemma_entry_line(k: Seq<char>, v: Seq<char>)
    requires
        round_trips(k, v),
    ensures
        secrets_file_entry(k, v) == lines_text(entry_block(k, v)),
        env_line(k + "="@ + v) == Some((k, v)),
        !(k + "="@ + v).contains('\n'),
        v.contains('"') ==> env_line(note_line(k)) is None && !note_line(k).contains('\n'),
{
    reveal_strlit("=");
    reveal_strlit("\n");
    assert("="@ =~= seq!['=']);
    assert("\n"@ =~= seq!['\n']);
    let l = k + "="@ + v;
    assert(!l.contains('\n')) by {
        if l.contains('\n') {
            let j = choose|j: int| 0 <= j < l.len() && l[j] == '\n';
            if j < k.len() {
                assert(k[j] == '\n');
            } else if j > k.len() {
                assert(v[j - k.len() - 1] == '\n');
            }
        }
    }
    lemma_entry_text(k, v);
    assert(trimmed(l)) by {
        assert(l[0] == k[0]);
        if v.len() > 0 {
            assert(l.last() == v.last());
        }
    }
    lemma_trimmed(l);
    assert(l =~= k + seq!['='] + v);
    lemma_char_pos_at(k, v, '=');
    assert(l.take(k.len() as int) =~= k);
    assert(l.skip(k.len() as int + 1) =~= v);
    lemma_trimmed(k);
    lemma_trimmed(v);
}

proof fn lemma_entry_text(k: Seq<char>, v: Seq<char>)
    requires
        !k.contains('\n'),
        !v.contains('\n'),
    ensures
        secrets_file_entry(k, v) == lines_text(entry_block(k, v)),
        v.contains('"') ==> env_line(note_line(k)) is None && !note_line(k).contains('\n'),
{
    reveal_strlit("\n");
    assert("\n"@ =~= seq!['\n']);
    let l = k + "="@ + v;
    if v.contains('"') {
        lemma_note_line(k);
        lemma_lines_text_two(note_line(k), l);
        assert(secrets_file_entry(k, v) =~= secrets_file_entry_note(k) + (l + seq!['\n']));
    } else {
        lemma_lines_text_one(l);
        assert(secrets_file_entry(k, v) =~= l + seq!['\n']);
    }
}

proof fn lemma_body_lines(e: Seq<(Seq<char>, VariableView)>)
    requires
        forall|i: int| 0 <= i < e.len() ==> round_trips((#[trigger] e[i]).0, e[i].1.value),
    ensures
        secrets_file_body(e) == lines_text(entry_lines(e)),
        forall|i: int| 0 <= i < entry_lines(e).len() ==> !(#[trigger] entry_lines(e)[i]).contains('\n'),
    decreases e.len(),
{
    if e.len() == 0 {
        assert(entry_lines(e) =~= Seq::<Seq<char>>::empty());
    } else {
        let p = e.drop_last();
        assert forall|i: int| 0 <= i < p.len() implies round_trips((#[trigger] p[i]).0, p[i].1.value) by {
            assert(p[i] == e[i]);
        }
        lemma_body_lines(p);
        let (k, vv) = e.last();
        assert(round_trips(k, vv.value)) by {
            assert(e[e.len() - 1] == e.last());
        }
        lemma_entry_line(k, vv.value);
        let block = entry_block(k, vv.value);
        lemma_lines_text_concat(entry_lines(p), block);
        let all = entry_lines(e);
        assert forall|i: int| 0 <= i < all.len() implies !(#[trigger] all[i]).contains('\n') by {
            if i < entry_lines(p).len() {
                assert(all[i] == entry_lines(p)[i]);
            } else {
                assert(all[i] == block[i - entry_lines(p).len()]);
            }
        }
    }
}

/// Reading entries, each line defining its own new key, gives the entries back.
proof fn lemma_read_lines(e: Seq<(Seq<char>, VariableView)>, pre: Seq<Seq<char>>)
    requires
        forall|i: int| 0 <= i < e.len() ==> round_trips((#[trigger] e[i]).0, e[i].1.value),
        unique_keys(e),
        env_entries(pre) == Seq::<(Seq<char>, VariableView)>::empty(),
    ensures
        env_entries(pre + entry_lines(e)) == e.map_values(
            |p: (Seq<char>, VariableView)| (p.0, simple_view(p.1.value)),
        ),
    decreases e.len(),
{
    let f = |p: (Seq<char>, VariableView)| (p.0, simple_view(p.1.value));
    if e.len() == 0 {
        assert(pre + entry_lines(e) =~= pre);
        assert(e.map_values(f) =~= Seq::<(Seq<char>, VariableView)>::empty());
    } else {
        let p = e.drop_last();
        assert forall|i: int| 0 <= i < p.len() implies round_trips((#[trigger] p[i]).0, p[i].1.value) by {
            assert(p[i] == e[i]);
        }
        assert(unique_keys(p));
        lemma_read_lines(p, pre);
        let (k, vv) = e.last();
        assert(round_trips(k, vv.value)) by {
            assert(e[e.len() - 1] == e.last());
        }
        lemma_entry_line(k, vv.value);
        let l = k + "="@ + vv.value;
        let before = pre + entry_lines(p);
        let all = pre + entry_lines(e);
        if vv.value.contains('"') {
            let n = note_line(k);
            assert(all =~= before.push(n).push(l));
            assert(all.drop_last() =~= before.push(n));
            assert(before.push(n).drop_last() =~= before);
            assert(env_entries(before.push(n)) == env_entries(before));
        } else {
            assert(all =~= before.push(l));
            assert(all.drop_last() =~= before);
        }
        assert(all.last() == l);
        let m = p.map_values(f);
        lemma_key_index_bounds(m, k);
        assert forall|j: int| 0 <= j < m.len() implies m[j].0 != k by {
            assert(m[j].0 == p[j].0);
            assert(p[j] == e[j]);
            assert(e[e.len() - 1].0 == k);
        }
        lemma_key_index_is(m, k, -1);
        assert(e.map_values(f) =~= m.push((k, simple_view(vv.value))));
    }
}

/// What `save_secrets_file` writes, `load_env_file` reads back: every variable, in order,
/// with its value, for keys and values that the file format carries unchanged (see
/// `round_trips`).
pub proof fn law_secrets_file_round_trip(e: Seq<(Seq<char>, VariableView)>)
    requires
        forall|i: int| 0 <= i < e.len() ==> round_trips((#[trigger] e[i]).0, e[i].1.value),
        unique_keys(e),
    ensures
        env_entries(split_on(secrets_file_text(e), '\n')) == e.map_values(
            |p: (Seq<char>, VariableView)| (p.0, simple_view(p.1.value)),
        ),
{
    reveal_strlit("# Generated by `lab secrets pull`\n\n");
    let h1: Seq<char> = "# Generated by `lab secrets pull`\n\n"@.take(33);
    let pre = seq![h1, Seq::<char>::empty()];
    assert(!h1.contains('\n')) by {
        if h1.contains('\n') {
            let j = choose|j: int| 0 <= j < h1.len() && h1[j] == '\n';
            assert("# Generated by `lab secrets pull`\n\n"@[j] == '\n');
        }
    }
    lemma_lines_text_two(h1, Seq::<char>::empty());
    assert(lines_text(pre) =~= "# Generated by `lab secrets pull`\n\n"@);
    let body = secrets_file_body(e);
    lemma_body_lines(e);
    lemma_lines_text_concat(pre, entry_lines(e));
    assert(secrets_file_text(e) == lines_text(pre + entry_lines(e)));
    let lines = pre + entry_lines(e);
    assert forall|i: int| 0 <= i < lines.len() implies !(#[trigger] lines[i]).contains('\n') by {
        if i >= 2 {
            assert(lines[i] == entry_lines(e)[i - 2]);
        } else if i == 1 {
            assert(!Seq::<char>::empty().contains('\n'));
        }
    }
    lemma_split_lines(lines);
    assert(trimmed(h1) && h1[0] == '#');
    lemma_trimmed(h1);
    lemma_trimmed(Seq::<char>::empty());
    assert(env_line(h1) is None);
    assert(env_line(Seq::<char>::empty()) is None);
    assert(pre.drop_last() =~= seq![h1]);
    assert(seq![h1].drop_last() =~= Seq::<Seq<char>>::empty());
    assert(env_entries(Seq::<Seq<char>>::empty()) == Seq::<(Seq<char>, VariableView)>::empty());
    assert(seq![h1].last() == h1);
    assert(env_entries(seq![h1]) == Seq::<(Seq<char>, VariableView)>::empty());
    assert(pre.last() == Seq::<char>::empty());
    assert(env_entries(pre) == Seq::<(Seq<char>, VariableView)>::empty());
    lemma_read_lines(e, pre);
    let all = lines + seq![Seq::<char>::empty()];
    assert(all.drop_last() =~= lines);
}

// ---------------------------------------------------------------------------
// YAML merge keys
// ---------------------------------------------------------------------------
/// Entries merged in after a mapping's own leave the values of its own keys alone.
proof fn lemma_add_missing_keeps<V>(m: Seq<(YamlView, V)>, src: Seq<(YamlView, V)>, k: YamlView)
    requires
        has_key(m, k),
    ensures
        has_key(add_missing_any(m, src), k),
        lookup(add_missing_any(m, src), k) == lookup(m, k),
    decreases src.len(),
{
    if src.len() > 0 {
        lemma_add_missing_keeps(m, src.drop_last(), k);
        let m1 = add_missing_any(m, src.drop_last());
        if key_index(m1, src.last().0) < 0 {
            lemma_key_index_bounds(m1, k);
            lemma_key_index_bounds(m1, src.last().0);
            let t = m1.push(src.last());
            assert(t[key_index(m1, k)] == m1[key_index(m1, k)]);
            assert(src.last().0 != k);
            lemma_key_index_is(t, k, key_index(m1, k));
        }
    }
}

/// `add_missing` over any value type (the same definition).
pub open spec fn add_missing_any<V>(m: Seq<(YamlView, V)>, src: Seq<(YamlView, V)>) -> Seq<(YamlView, V)>
    decreases src.len(),
{
    if src.len() == 0 {
        m
    } else {
        let m1 = add_missing_any(m, src.drop_last());
        if key_index(m1, src.last().0) >= 0 {
            m1
        } else {
            m1.push(src.last())
        }
    }
}

proof fn lemma_add_missing_same(m: Seq<(YamlView, YamlView)>, src: Seq<(YamlView, YamlView)>)
    ensures
        add_missing(m, src) == add_missing_any(m, src),
    decreases src.len(),
{
    if src.len() > 0 {
        lemma_add_missing_same(m, src.drop_last());
    }
}

proof fn lemma_add_missing_from_keeps(m: Seq<(YamlView, YamlView)>, sources: Seq<YamlView>, k: YamlView)
    requires
        has_key(m, k),
    ensures
        has_key(add_missing_from(m, sources), k),
        lookup(add_missing_from(m, sources), k) == lookup(m, k),
    decreases sources.len(),
{
    if sources.len() > 0 {
        lemma_add_missing_from_keeps(m, sources.drop_last(), k);
        let m1 = add_missing_from(m, sources.drop_last());
        match sources.last() {
            YamlView::Dict(src) => {
                lemma_add_missing_same(m1, src);
                lemma_add_missing_keeps(m1, src, k);
            },
            _ => {},
        }
    }
}

/// Taking an entry out by swapping the last one into its place leaves every other key
/// with its value, when keys are unique.
proof fn lemma_swap_removed_lookup(m: Seq<(YamlView, YamlView)>, i: int, k: YamlView)
    requires
        unique_keys(m),
        0 <= i < m.len(),
        m[i].0 != k,
        has_key(m, k),
    ensures
        has_key(swap_removed(m, i), k),
        lookup(swap_removed(m, i), k) == lookup(m, k),
{
    let t = swap_removed(m, i);
    lemma_key_index_bounds(m, k);
    let j = key_index(m, k);
    let nj = if j == m.len() - 1 {
        i
    } else {
        j
    };
    assert(j != i);
    assert(t[nj] == m[j]);
    assert forall|q: int| 0 <= q < nj implies t[q].0 != k by {
        if q == i {
            assert(t[q] == m.last());
            assert(m.len() - 1 != j);
        } else {
            assert(t[q] == m[q]);
        }
    }
    lemma_key_index_is(t, k, nj);
}

/// A mapping's own keys keep their values when its `<<` merge key is resolved: merged
/// mappings only add the keys it lacks.
pub proof fn law_merge_keys_own_keys_win(m: Seq<(YamlView, YamlView)>, k: YamlView)
    requires
        unique_keys(m),
        has_key(m, k),
        k != merge_key(),
    ensures
        lookup(merged_entries(m), k) == lookup(m, k),
{
    let i = key_index(m, merge_key());
    if i >= 0 {
        lemma_key_index_bounds(m, merge_key());
        lemma_swap_removed_lookup(m, i, k);
        lemma_add_missing_from_keeps(swap_removed(m, i), merge_sources(m[i].1), k);
    }
}

/// Where the main document holds a value that is not a mapping, an included document
/// does not change it: the main document takes precedence.
pub proof fn law_main_document_wins(
    main: Seq<(YamlView, YamlView)>,
    inc: Seq<(YamlView, YamlView)>,
    k: YamlView,
)
    requires
        has_key(main, k),
        !(lookup(main, k)->0 is Dict),
    ensures
        has_key(merge_included(main, inc), k),
        lookup(merge_included(main, inc), k) == lookup(main, k),
    decreases inc.len(),
{
    if inc.len() > 0 {
        law_main_document_wins(main, inc.drop_last(), k);
        let m = merge_included(main, inc.drop_last());
        let kk = inc.last().0;
        let i = key_index(m, kk);
        lemma_key_index_bounds(m, k);
        lemma_key_index_bounds(m, kk);
        if i >= 0 && m[i].1 is Dict && inc.last().1 is Dict {
            assert(kk != k);
            lemma_lookup_insert(m, kk, YamlView::Dict(add_missing(m[i].1->Dict_0, inc.last().1->Dict_0)), k);
        } else if i < 0 {
            assert(kk != k);
            let t = m.push((kk, inc.last().1));
            assert(t[key_index(m, k)] == m[key_index(m, k)]);
            lemma_key_index_is(t, k, key_index(m, k));
        }
    }
}

// ---------------------------------------------------------------------------
// Containers
// ---------------------------------------------------------------------------

/// The environment a container is given holds no value that masking would change:
/// secret values reach a job only through its secrets file.
pub proof fn law_container_env_has_no_secrets(
    env: Seq<(Seq<char>, Seq<char>)>,
    masks: Seq<Seq<char>>,
)
    ensures
        forall|i: int|
            0 <= i < public_env(env, masks).len() ==> masked(
                #[trigger] public_env(env, masks)[i].1,
                masks,
            ) == public_env(env, masks)[i].1,
    decreases env.len(),
{
    if env.len() > 0 {
        law_container_env_has_no_secrets(env.drop_last(), masks);
        let prev = public_env(env.drop_last(), masks);
        let (k, v) = env.last();
        if masked(v, masks) == v {
            lemma_key_index_bounds(prev, k);
            let t = entries_insert(prev, k, v);
            assert forall|i: int| 0 <= i < t.len() implies masked(#[trigger] t[i].1, masks) == t[i].1 by {
                if i < prev.len() && i != key_index(prev, k) {
                    assert(t[i] == prev[i]);
                }
            }
        }
    }
}

// ---------------------------------------------------------------------------
// Masking
// ---------------------------------------------------------------------------

proof fn lemma_insert_by_len_contains(sorted: Seq<Seq<char>>, x: Seq<char>, y: Seq<char>)
    ensures
        insert_by_len(sorted, x).contains(y) <==> (sorted.contains(y) || y == x),
    decreases sorted.len(),
{
    if sorted.len() == 0 {
        assert(insert_by_len(sorted, x) =~= seq![x]);
        assert(seq![x][0] == x);
    } else if byte_len(sorted[0]) < byte_len(x) {
        let t = seq![x] + sorted;
        assert(t[0] == x);
        if sorted.contains(y) {
            let k = choose|k: int| 0 <= k < sorted.len() && sorted[k] == y;
            assert(t[k + 1] == y);
        }
        if t.contains(y) {
            let k = choose|k: int| 0 <= k < t.len() && t[k] == y;
            if k > 0 {
                assert(sorted[k - 1] == y);
            }
        }
    } else {
        let rest = sorted.drop_first();
        lemma_insert_by_len_contains(rest, x, y);
        let t = seq![sorted[0]] + insert_by_len(rest, x);
        if t.contains(y) {
            let k = choose|k: int| 0 <= k < t.len() && t[k] == y;
            if k == 0 {
                assert(sorted[0] == y);
            } else {
                assert(insert_by_len(rest, x)[k - 1] == y);
                if rest.contains(y) {
                    let m = choose|m: int| 0 <= m < rest.len() && rest[m] == y;
                    assert(sorted[m + 1] == y);
                }
            }
        }
        if sorted.contains(y) {
            let k = choose|k: int| 0 <= k < sorted.len() && sorted[k] == y;
            if k == 0 {
                assert(t[0] == y);
            } else {
                assert(rest[k - 1] == y);
                let m = choose|m: int| 0 <= m < insert_by_len(rest, x).len() && insert_by_len(rest, x)[m] == y;
                assert(t[m + 1] == y);
            }
        }
        if y == x {
            let m = choose|m: int| 0 <= m < insert_by_len(rest, x).len() && insert_by_len(rest, x)[m] == y;
            assert(t[m + 1] == y);
        }
    }
}

proof fn lemma_longest_first_contains(s: Seq<Seq<char>>, y: Seq<char>)
    ensures
        longest_first(s).contains(y) <==> s.contains(y),
    decreases s.len(),
{
    if s.len() > 0 {
        lemma_longest_first_contains(s.drop_last(), y);
        lemma_insert_by_len_contains(longest_first(s.drop_last()), s.last(), y);
        if s.contains(y) && y != s.last() {
            let k = choose|k: int| 0 <= k < s.len() && s[k] == y;
            assert(s.drop_last()[k] == y);
        }
        if s.drop_last().contains(y) {
            let k = choose|k: int| 0 <= k < s.drop_last().len() && s.drop_last()[k] == y;
            assert(s[k] == y);
        }
        assert(s[s.len() - 1] == s.last());
    }
}

proof fn lemma_dedup_contains(s: Seq<Seq<char>>, y: Seq<char>)
    ensures
        dedup(s).contains(y) <==> s.contains(y),
    decreases s.len(),
{
    if s.len() > 0 {
        let d = s.drop_last();
        lemma_dedup_contains(d, y);
        if s.contains(y) && y != s.last() {
            let k = choose|k: int| 0 <= k < s.len() && s[k] == y;
            assert(d[k] == y);
        }
        if d.contains(y) {
            let k = choose|k: int| 0 <= k < d.len() && d[k] == y;
            assert(s[k] == y);
        }
        assert(s[s.len() - 1] == s.last());
        if s.len() >= 2 && s[s.len() - 1] == s[s.len() - 2] {
            assert(d[s.len() - 2] == s.last());
        } else {
            let t = dedup(d).push(s.last());
            assert(t[t.len() - 1] == s.last());
            if t.contains(y) {
                let k = choose|k: int| 0 <= k < t.len() && t[k] == y;
                if k < t.len() - 1 {
                    assert(dedup(d)[k] == y);
                }
            }
            if dedup(d).contains(y) {
                let k = choose|k: int| 0 <= k < dedup(d).len() && dedup(d)[k] == y;
                assert(t[k] == y);
            }
        }
    }
}

proof fn lemma_all_masks_contains(e: Seq<(Seq<char>, VariableView)>, i: int, y: Seq<char>)
    requires
        0 <= i < e.len(),
        masks_for(e[i].1.value).contains(y),
    ensures
        all_masks(e).contains(y),
    decreases e.len(),
{
    let prev = all_masks(e.drop_last());
    let m = masks_for(e.last().1.value);
    if i == e.len() - 1 {
        let k = choose|k: int| 0 <= k < m.len() && m[k] == y;
        assert((prev + m)[prev.len() + k] == y);
    } else {
        assert(e.drop_last()[i] == e[i]);
        lemma_all_masks_contains(e.drop_last(), i, y);
        let k = choose|k: int| 0 <= k < prev.len() && prev[k] == y;
        assert((prev + m)[k] == y);
    }
}

/// Every secret of four bytes or more (once trimmed) is masked, and so is its base64
/// encoding: both are among the masks a masker built from the secrets applies.
pub proof fn law_every_secret_masked(e: Seq<(Seq<char>, VariableView)>, i: int)
    requires
        0 <= i < e.len(),
        byte_len(trim_spec(e[i].1.value)) >= 4,
    ensures
        dedup(longest_first(all_masks(e))).contains(trim_spec(e[i].1.value)),
        dedup(longest_first(all_masks(e))).contains(
            base64_standard(vstd::utf8::encode_utf8(trim_spec(e[i].1.value))),
        ),
{
    let t = trim_spec(e[i].1.value);
    let b = base64_standard(vstd::utf8::encode_utf8(t));
    let m = masks_for(e[i].1.value);
    assert(m[0] == t);
    assert(m.contains(t));
    if b == t {
        assert(m.contains(b));
    } else {
        assert(m[1] == b);
        assert(m.contains(b));
    }
    lemma_all_masks_contains(e, i, t);
    lemma_all_masks_contains(e, i, b);
    lemma_longest_first_contains(all_masks(e), t);
    lemma_longest_first_contains(all_masks(e), b);
    lemma_dedup_contains(longest_first(all_masks(e)), t);
    lemma_dedup_contains(longest_first(all_masks(e)), b);
}


/// Values ordered longest first, by their length in bytes.
pub open spec fn longest_to_shortest(s: Seq<Seq<char>>) -> bool {
    forall|i: int, j: int| 0 <= i < j < s.len() ==> byte_len(#[trigger] s[i]) >= byte_len(#[trigger] s[j])
}

/// No value directly followed by the same value.
pub open spec fn no_repeated_neighbours(s: Seq<Seq<char>>) -> bool {
    forall|i: int| 0 <= i < s.len() - 1 ==> #[trigger] s[i] != s[i + 1]
}

proof fn lemma_insert_by_len_ordered(sorted: Seq<Seq<char>>, x: Seq<char>)
    requires
        longest_to_shortest(sorted),
    ensures
        longest_to_shortest(insert_by_len(sorted, x)),
    decreases sorted.len(),
{
    let t = insert_by_len(sorted, x);
    if sorted.len() == 0 {
        assert(t =~= seq![x]);
    } else if byte_len(sorted[0]) < byte_len(x) {
        assert forall|i: int, j: int| 0 <= i < j < t.len() implies byte_len(#[trigger] t[i]) >= byte_len(
            #[trigger] t[j],
        ) by {
            if i == 0 {
                assert(t[j] == sorted[j - 1]);
                if j - 1 > 0 {
                    assert(byte_len(sorted[0]) >= byte_len(sorted[j - 1]));
                }
            } else {
                assert(t[i] == sorted[i - 1] && t[j] == sorted[j - 1]);
            }
        }
    } else {
        let rest = sorted.drop_first();
        assert forall|i: int, j: int| 0 <= i < j < rest.len() implies byte_len(#[trigger] rest[i])
            >= byte_len(#[trigger] rest[j]) by {
            assert(rest[i] == sorted[i + 1] && rest[j] == sorted[j + 1]);
        }
        lemma_insert_by_len_ordered(rest, x);
        let u = insert_by_len(rest, x);
        assert forall|i: int, j: int| 0 <= i < j < t.len() implies byte_len(#[trigger] t[i]) >= byte_len(
            #[trigger] t[j],
        ) by {
            if i == 0 {
                assert(t[j] == u[j - 1]);
                lemma_insert_by_len_contains(rest, x, u[j - 1]);
                assert(u.contains(u[j - 1]));
                if u[j - 1] != x {
                    let k = choose|k: int| 0 <= k < rest.len() && rest[k] == u[j - 1];
                    assert(rest[k] == sorted[k + 1]);
                }
            } else {
                assert(t[i] == u[i - 1] && t[j] == u[j - 1]);
            }
        }
    }
}

proof fn lemma_longest_first_ordered(s: Seq<Seq<char>>)
    ensures
        longest_to_shortest(longest_first(s)),
    decreases s.len(),
{
    if s.len() > 0 {
        lemma_longest_first_ordered(s.drop_last());
        lemma_insert_by_len_ordered(longest_first(s.drop_last()), s.last());
    }
}

proof fn lemma_longest_first_keeps_ordered(s: Seq<Seq<char>>)
    requires
        longest_to_shortest(s),
    ensures
        longest_first(s) == s,
    decreases s.len(),
{
    if s.len() > 0 {
        let d = s.drop_last();
        assert forall|i: int, j: int| 0 <= i < j < d.len() implies byte_len(#[trigger] d[i]) >= byte_len(
            #[trigger] d[j],
        ) by {
            assert(d[i] == s[i] && d[j] == s[j]);
        }
        lemma_longest_first_keeps_ordered(d);
        assert forall|k: int| 0 <= k < d.len() implies byte_len(#[trigger] d[k]) >= byte_len(s.last()) by {
            assert(d[k] == s[k]);
            assert(s.last() == s[s.len() - 1]);
        }
        lemma_insert_by_len(d, s.last(), d.len() as int);
        assert(d.subrange(0, d.len() as int) + seq![s.last()] + d.skip(d.len() as int) =~= s);
    }
}

proof fn lemma_dedup_last(s: Seq<Seq<char>>)
    requires
        s.len() > 0,
    ensures
        dedup(s).len() > 0,
        dedup(s).last() == s.last(),
    decreases s.len(),
{
    if s.len() >= 2 && s[s.len() - 1] == s[s.len() - 2] {
        lemma_dedup_last(s.drop_last());
    }
}

proof fn lemma_dedup_ordered(s: Seq<Seq<char>>)
    requires
        longest_to_shortest(s),
    ensures
        longest_to_shortest(dedup(s)),
        no_repeated_neighbours(dedup(s)),
    decreases s.len(),
{
    if s.len() > 0 {
        let d = s.drop_last();
        assert forall|i: int, j: int| 0 <= i < j < d.len() implies byte_len(#[trigger] d[i]) >= byte_len(
            #[trigger] d[j],
        ) by {
            assert(d[i] == s[i] && d[j] == s[j]);
        }
        lemma_dedup_ordered(d);
        if !(s.len() >= 2 && s[s.len() - 1] == s[s.len() - 2]) {
            let t = dedup(d).push(s.last());
            assert forall|i: int, j: int| 0 <= i < j < t.len() implies byte_len(#[trigger] t[i]) >= byte_len(
                #[trigger] t[j],
            ) by {
                if j == t.len() - 1 {
                    assert(t[i] == dedup(d)[i]);
                    lemma_dedup_contains(d, dedup(d)[i]);
                    assert(dedup(d).contains(dedup(d)[i]));
                    let k = choose|k: int| 0 <= k < d.len() && d[k] == dedup(d)[i];
                    assert(d[k] == s[k]);
                    assert(s.last() == s[s.len() - 1]);
                } else {
                    assert(t[i] == dedup(d)[i] && t[j] == dedup(d)[j]);
                }
            }
            assert forall|i: int| 0 <= i < t.len() - 1 implies #[trigger] t[i] != t[i + 1] by {
                if i == t.len() - 2 {
                    lemma_dedup_last(d);
                    assert(t[i] == dedup(d).last());
                    assert(d.last() == s[s.len() - 2]);
                } else {
                    assert(t[i] == dedup(d)[i] && t[i + 1] == dedup(d)[i + 1]);
                }
            }
        }
    }
}

proof fn lemma_dedup_keeps(s: Seq<Seq<char>>)
    requires
        no_repeated_neighbours(s),
    ensures
        dedup(s) == s,
    decreases s.len(),
{
    if s.len() > 0 {
        let d = s.drop_last();
        assert forall|i: int| 0 <= i < d.len() - 1 implies #[trigger] d[i] != d[i + 1] by {
            assert(d[i] == s[i] && d[i + 1] == s[i + 1]);
        }
        lemma_dedup_keeps(d);
        if s.len() >= 2 {
            assert(s[s.len() - 2] != s[s.len() - 1]);
        }
        assert(d.push(s.last()) =~= s);
    }
}

/// Finalizing a masker orders its values longest first, drops a value repeated right
/// after itself, keeps every value it had and adds none; finalizing again changes
/// nothing.
pub proof fn law_finalize(s: Seq<Seq<char>>)
    ensures
        longest_to_shortest(dedup(longest_first(s))),
        no_repeated_neighbours(dedup(longest_first(s))),
        forall|y: Seq<char>| #[trigger] dedup(longest_first(s)).contains(y) <==> s.contains(y),
        dedup(longest_first(dedup(longest_first(s)))) == dedup(longest_first(s)),
{
    let f = dedup(longest_first(s));
    lemma_longest_first_ordered(s);
    lemma_dedup_ordered(longest_first(s));
    assert forall|y: Seq<char>| #[trigger] f.contains(y) <==> s.contains(y) by {
        lemma_dedup_contains(longest_first(s), y);
        lemma_longest_first_contains(s, y);
    }
    lemma_longest_first_keeps_ordered(f);
    lemma_dedup_keeps(f);
}


/// Whether an occurrence of `m` could overlap the `[MASKED]` marker in some text: some
/// alignment of `m` against the marker shares a position and agrees wherever they meet
/// (a value inside the marker, such as `ASK`, or one ending in `[` or starting with `]`).
pub open spec fn meets_marker(m: Seq<char>) -> bool {
    exists|o: int| -m.len() < o < 8 && #[trigger] aligned_with_marker(m, o)
}

/// Whether `m`, starting `o` places after the start of `[MASKED]`, agrees with it
/// wherever the two meet.
pub open spec fn aligned_with_marker(m: Seq<char>, o: int) -> bool {
    forall|k: int| 0 <= k < m.len() && 0 <= k + o < 8 ==> #[trigger] m[k] == "[MASKED]"@[k + o]
}

/// An occurrence of `m` in `x + "[MASKED]" + y` that reaches into the marker would make
/// `m` meet the marker.
proof fn lemma_overlap_meets(w: Seq<char>, m: Seq<char>, i: int, start: int)
    requires
        occurs_at(w, m, i),
        0 <= start,
        start + 8 <= w.len(),
        w.subrange(start, start + 8) == "[MASKED]"@,
        i < start + 8,
        i + m.len() > start,
    ensures
        meets_marker(m),
{
    reveal_strlit("[MASKED]");
    let o = i - start;
    assert forall|k: int| 0 <= k < m.len() && 0 <= k + o < 8 implies #[trigger] m[k] == "[MASKED]"@[k + o] by {
        assert(w.subrange(i, i + m.len())[k] == w[i + k]);
        assert(w.subrange(start, start + 8)[k + o] == w[start + k + o]);
    }
    assert(aligned_with_marker(m, o));
}

/// Replacing every `s` by `[MASKED]` in `t`, after a prefix `pre = x + tail` already
/// free of `m`, where `x` is empty or ends in the marker and no occurrence of `m` in
/// `tail + t` starts inside `tail`, leaves no occurrence of `m`, when `m` cannot
/// overlap the marker and either `m` is `s` or `t` holds no `m`.
proof fn lemma_replace_leaves_none(
    x: Seq<char>,
    tail: Seq<char>,
    t: Seq<char>,
    s: Seq<char>,
    m: Seq<char>,
)
    requires
        s.len() > 0,
        m.len() > 0,
        !meets_marker(m),
        x.len() == 0 || (x.len() >= 8 && x.subrange(x.len() - 8, x.len() as int) == "[MASKED]"@),
        !contains_seq(x + tail, m),
        forall|q: int| 0 <= q < tail.len() ==> !#[trigger] occurs_at(tail + t, m, q),
        m == s || !contains_seq(t, m),
    ensures
        !contains_seq(x + tail + replace_spec(t, s, "[MASKED]"@), m),
    decreases t.len(),
{
    reveal_strlit("[MASKED]");
    let mk = "[MASKED]"@;
    let pre = x + tail;
    if t.len() < s.len() {
        let w = pre + t;
        assert(x + tail + replace_spec(t, s, mk) == w);
        assert forall|i: int| !#[trigger] occurs_at(w, m, i) by {
            if occurs_at(w, m, i) {
                if i + m.len() <= pre.len() {
                    assert(w.subrange(i, i + m.len()) =~= pre.subrange(i, i + m.len()));
                    assert(occurs_at(pre, m, i));
                } else if i >= x.len() {
                    let q = i - x.len();
                    assert(w.subrange(i, i + m.len()) =~= (tail + t).subrange(q, q + m.len()));
                    assert(occurs_at(tail + t, m, q));
                    if q >= tail.len() {
                        assert((tail + t).subrange(q, q + m.len()) =~= t.subrange(
                            q - tail.len(),
                            q - tail.len() + m.len(),
                        ));
                        assert(occurs_at(t, m, q - tail.len()));
                    }
                } else {
                    assert(w.subrange(x.len() - 8, x.len() as int) =~= x.subrange(
                        x.len() - 8,
                        x.len() as int,
                    ));
                    lemma_overlap_meets(w, m, i, x.len() - 8);
                }
            }
        }
    } else if t.subrange(0, s.len() as int) == s {
        let rest = t.skip(s.len() as int);
        let x2 = pre + mk;
        // the marker after a clean prefix leaves it clean
        assert forall|i: int| !#[trigger] occurs_at(x2, m, i) by {
            if occurs_at(x2, m, i) {
                if i + m.len() <= pre.len() {
                    assert(x2.subrange(i, i + m.len()) =~= pre.subrange(i, i + m.len()));
                    assert(occurs_at(pre, m, i));
                } else {
                    assert(x2.subrange(pre.len() as int, (pre.len() + 8) as int) =~= mk);
                    lemma_overlap_meets(x2, m, i, pre.len() as int);
                }
            }
        }
        assert(x2.subrange(x2.len() - 8, x2.len() as int) =~= mk);
        assert forall|i: int| occurs_at(rest, m, i) implies occurs_at(t, m, i + s.len()) by {
            assert(rest.subrange(i, i + m.len()) =~= t.subrange(i + s.len(), i + s.len() + m.len()));
        }
        assert(x2 + Seq::<char>::empty() =~= x2);
        assert forall|q: int| 0 <= q < 0 implies !#[trigger] occurs_at(Seq::<char>::empty() + rest, m, q) by {}
        lemma_replace_leaves_none(x2, Seq::empty(), rest, s, m);
        assert(x + tail + replace_spec(t, s, mk) =~= x2 + Seq::<char>::empty() + replace_spec(rest, s, mk));
    } else {
        let c = t[0];
        let rest = t.drop_first();
        let tail2 = tail.push(c);
        assert(tail2 + rest =~= tail + t);
        // no occurrence of `m` starts at `c`
        assert(!occurs_at(tail + t, m, tail.len() as int)) by {
            if occurs_at(tail + t, m, tail.len() as int) {
                assert((tail + t).subrange(tail.len() as int, (tail.len() + m.len()) as int) =~= t.subrange(
                    0,
                    m.len() as int,
                ));
                assert(occurs_at(t, m, 0));
            }
        }
        let pre2 = x + tail2;
        assert forall|i: int| !#[trigger] occurs_at(pre2, m, i) by {
            if occurs_at(pre2, m, i) {
                if i + m.len() <= pre.len() {
                    assert(pre2.subrange(i, i + m.len()) =~= pre.subrange(i, i + m.len()));
                    assert(occurs_at(pre, m, i));
                } else if i >= x.len() {
                    let q = i - x.len();
                    assert(pre2.subrange(i, i + m.len()) =~= (tail + t).subrange(q, q + m.len()));
                    assert(occurs_at(tail + t, m, q));
                } else {
                    assert(pre2.subrange(x.len() - 8, x.len() as int) =~= x.subrange(
                        x.len() - 8,
                        x.len() as int,
                    ));
                    lemma_overlap_meets(pre2, m, i, x.len() - 8);
                }
            }
        }
        assert forall|i: int| occurs_at(rest, m, i) implies occurs_at(t, m, i + 1) by {
            assert(rest.subrange(i, i + m.len()) =~= t.subrange(i + 1, i + 1 + m.len()));
        }
        lemma_replace_leaves_none(x, tail2, rest, s, m);
        assert(x + tail + replace_spec(t, s, mk) =~= x + tail2 + replace_spec(rest, s, mk));
    }
}

/// No registered value survives masking: after every value is replaced in turn, none
/// of them occurs in the text, for values that cannot overlap the `[MASKED]` marker
/// (see `meets_marker`).
pub proof fn law_no_secret_survives_masking(text: Seq<char>, secrets: Seq<Seq<char>>)
    requires
        forall|j: int|
            0 <= j < secrets.len() ==> (#[trigger] secrets[j]).len() > 0 && !meets_marker(secrets[j]),
    ensures
        forall|j: int|
            0 <= j < secrets.len() ==> !contains_seq(masked(text, secrets), #[trigger] secrets[j]),
    decreases secrets.len(),
{
    if secrets.len() > 0 {
        let d = secrets.drop_last();
        assert forall|j: int| 0 <= j < d.len() implies (#[trigger] d[j]).len() > 0 && !meets_marker(d[j]) by {
            assert(d[j] == secrets[j]);
        }
        law_no_secret_survives_masking(text, d);
        let t = masked(text, d);
        let s = secrets.last();
        assert(secrets[secrets.len() - 1] == s);
        assert(Seq::<char>::empty() + Seq::<char>::empty() + replace_spec(t, s, "[MASKED]"@)
            =~= replace_spec(t, s, "[MASKED]"@));
        assert forall|j: int| 0 <= j < secrets.len() implies !contains_seq(
            masked(text, secrets),
            #[trigger] secrets[j],
        ) by {
            let m = secrets[j];
            if j < d.len() {
                assert(d[j] == m);
            }
            assert forall|q: int| 0 <= q < 0 implies !#[trigger] occurs_at(Seq::<char>::empty() + t, m, q) by {}
            lemma_replace_leaves_none(Seq::empty(), Seq::empty(), t, s, m);
        }
    }
}


/// Project defaults fill only gaps (`ProjectConfig::apply_to`): every key the
/// configuration already has keeps its value, a key it lacks takes the project's value
/// for it, and no key appears that neither has.
pub proof fn law_project_defaults_fill_gaps(
    base: Seq<(Seq<char>, Seq<char>)>,
    extra: Seq<(Seq<char>, Seq<char>)>,
    q: Seq<char>,
)
    ensures
        lookup(insert_missing(base, extra), q) == if has_key(base, q) {
            lookup(base, q)
        } else {
            lookup(extra, q)
        },
        has_key(insert_missing(base, extra), q) <==> (has_key(base, q) || has_key(extra, q)),
    decreases extra.len(),
{
    if extra.len() > 0 {
        let d = extra.drop_last();
        let e = extra.last();
        let prev = insert_missing(base, d);
        law_project_defaults_fill_gaps(base, d, q);
        lemma_key_index_bounds(prev, q);
        lemma_key_index_bounds(base, q);
        lemma_key_index_bounds(d, q);
        lemma_key_index_bounds(extra, q);
        if key_index(prev, e.0) < 0 {
            let t = prev.push(e);
            assert(t.drop_last() =~= prev);
            lemma_key_index_bounds(t, q);
            if key_index(prev, q) >= 0 {
                assert(t[key_index(prev, q)] == prev[key_index(prev, q)]);
            }
        } else {
            if q == e.0 {
                lemma_key_index_bounds(prev, e.0);
            }
        }
    }
}


/// Resolving `extends:` settles only once no job holds it: when a pass over the jobs
/// changes nothing, it leaves the mapping as it was, and none of the jobs it visited is
/// a mapping that holds an `extends` key.
pub proof fn law_extends_settled(m: Seq<(YamlView, YamlView)>, keys: Seq<YamlView>)
    requires
        !extends_pass(m, keys).1,
    ensures
        extends_pass(m, keys).0 == m,
        forall|j: int|
            0 <= j < keys.len() && key_index(m, #[trigger] keys[j]) >= 0 && m[key_index(m, keys[j])].1 is Dict
                ==> key_index(m[key_index(m, keys[j])].1->Dict_0, extends_key()) < 0,
    decreases keys.len(),
{
    if keys.len() > 0 {
        let d = keys.drop_last();
        law_extends_settled(m, d);
        let k = keys.last();
        assert(!extend_one(m, k).1);
        assert forall|j: int|
            0 <= j < keys.len() && key_index(m, #[trigger] keys[j]) >= 0 && m[key_index(m, keys[j])].1 is Dict
                implies key_index(m[key_index(m, keys[j])].1->Dict_0, extends_key()) < 0 by {
            if j < d.len() {
                assert(d[j] == keys[j]);
            } else {
                assert(keys[j] == k);
            }
        }
    }
}


/// Whether a variable, used alone as a condition, holds: it is defined and not empty.
pub open spec fn var_holds(vars: Seq<(Seq<char>, VariableView)>, name: Seq<char>) -> bool {
    match lookup_value(vars, name) {
        Some(v) => v.len() > 0,
        None => false,
    }
}

/// A variable name: non-empty, of `[A-Za-z0-9_]`.
pub open spec fn var_name(x: Seq<char>) -> bool {
    x.len() > 0 && forall|i: int| 0 <= i < x.len() ==> is_name_char(#[trigger] x[i])
}

/// `$x` written at `p` in `s`, followed by the end of `s` or by one space and then a
/// character that neither is whitespace nor starts a comparison, reads as the condition
/// that `x` holds, ending where that next character stands.
proof fn lemma_var_condition(s: Seq<char>, vars: Seq<(Seq<char>, VariableView)>, p: int, x: Seq<char>)
    requires
        var_name(x),
        0 <= p,
        p + 1 + x.len() <= s.len(),
        s[p] == '$',
        s.subrange(p + 1, p + 1 + x.len()) == x,
        p + 1 + x.len() == s.len() || (p + 2 + x.len() < s.len() && s[p + 1 + x.len()] == ' '
            && !is_ascii_ws(s[p + 2 + x.len()]) && s[p + 2 + x.len()] != '='
            && s[p + 2 + x.len()] != '!'),
    ensures
        primary_spec(s, vars, p) == (var_holds(vars, x), if p + 1 + x.len() == s.len() {
            s.len() as int
        } else {
            p + 2 + x.len()
        }),
{
    let e = p + 1 + x.len();
    lemma_run_while_is(s, p, p, ws_pred());
    assert(skip_ws(s, p) == p);
    assert forall|k: int| p + 1 <= k < e implies (name_pred())(#[trigger] s[k]) by {
        assert(s.subrange(p + 1, e)[k - p - 1] == s[k]);
    }
    if e < s.len() {
        assert(!is_name_char(s[e]));
    }
    lemma_run_while_is(s, p + 1, e, name_pred());
    assert(s[p + 1] == x[0]);
    assert(var_ref_spec(s, vars, p + 1) == (lookup_value(vars, x), e));
    assert(value_spec(s, vars, p) == (lookup_value(vars, x), e));
    if e == s.len() {
        lemma_run_while_is(s, e, e, ws_pred());
    } else {
        lemma_run_while_is(s, e, e + 1, ws_pred());
    }
}

/// A space at `p` followed by `$x`: what `not` reads from `p`.
proof fn lemma_spaced_var(s: Seq<char>, vars: Seq<(Seq<char>, VariableView)>, p: int, x: Seq<char>)
    requires
        var_name(x),
        0 <= p,
        p + 2 + x.len() <= s.len(),
        s[p] == ' ',
        s[p + 1] == '$',
        s.subrange(p + 2, p + 2 + x.len()) == x,
        p + 2 + x.len() == s.len() || (p + 3 + x.len() < s.len() && s[p + 2 + x.len()] == ' '
            && !is_ascii_ws(s[p + 3 + x.len()]) && s[p + 3 + x.len()] != '='
            && s[p + 3 + x.len()] != '!'),
    ensures
        not_spec(s, vars, p) == (var_holds(vars, x), if p + 2 + x.len() == s.len() {
            s.len() as int
        } else {
            p + 3 + x.len()
        }),
{
    lemma_run_while_is(s, p, p + 1, ws_pred());
    lemma_var_condition(s, vars, p + 1, x);
}

/// The places of the characters of `$a || $b && $c`.
proof fn lemma_or_and_layout(a: Seq<char>, b: Seq<char>, c: Seq<char>)
    ensures
        ({
            let s = seq!['$'] + a + seq![' ', '|', '|', ' ', '$'] + b + seq![' ', '&', '&', ' ', '$']
                + c;
            let la = a.len() as int;
            let lb = b.len() as int;
            &&& s.len() == 11 + la + lb + c.len()
            &&& s[0] == '$'
            &&& s.subrange(1, 1 + la) == a
            &&& s[1 + la] == ' ' && s[2 + la] == '|' && s[3 + la] == '|' && s[4 + la] == ' '
            &&& s[5 + la] == '$'
            &&& s.subrange(6 + la, 6 + la + lb) == b
            &&& s[6 + la + lb] == ' ' && s[7 + la + lb] == '&' && s[8 + la + lb] == '&'
            &&& s[9 + la + lb] == ' ' && s[10 + la + lb] == '$'
            &&& s.subrange(11 + la + lb, s.len() as int) == c
        }),
{
    let s = seq!['$'] + a + seq![' ', '|', '|', ' ', '$'] + b + seq![' ', '&', '&', ' ', '$'] + c;
    let la = a.len() as int;
    let lb = b.len() as int;
    assert(s.subrange(1, 1 + la) =~= a);
    assert(s.subrange(6 + la, 6 + la + lb) =~= b);
    assert(s.subrange(11 + la + lb, s.len() as int) =~= c);
}

/// `$b && $c` standing at `p` (after one space) to the end of `s` reads as `b && c`.
proof fn lemma_and_of_two(
    s: Seq<char>,
    vars: Seq<(Seq<char>, VariableView)>,
    p: int,
    b: Seq<char>,
    c: Seq<char>,
)
    requires
        var_name(b),
        var_name(c),
        0 <= p,
        s.len() == p + 7 + b.len() + c.len(),
        s[p] == ' ',
        s[p + 1] == '$',
        s.subrange(p + 2, p + 2 + b.len()) == b,
        s[p + 2 + b.len()] == ' ' && s[p + 3 + b.len()] == '&' && s[p + 4 + b.len()] == '&',
        s[p + 5 + b.len()] == ' ' && s[p + 6 + b.len()] == '$',
        s.subrange(p + 7 + b.len(), s.len() as int) == c,
    ensures
        and_spec(s, vars, p) == (var_holds(vars, b) && var_holds(vars, c), s.len() as int),
{
    let lb = b.len() as int;
    let n = s.len() as int;
    let vb = var_holds(vars, b);
    let vc = var_holds(vars, c);
    lemma_spaced_var(s, vars, p, b);
    lemma_run_while_is(s, p + 3 + lb, p + 3 + lb, ws_pred());
    lemma_spaced_var(s, vars, p + 5 + lb, c);
    lemma_run_while_is(s, n, n, ws_pred());
    assert(and_tail(s, vars, n, vb && vc) == (vb && vc, n));
    assert(and_tail(s, vars, p + 3 + lb, vb) == (vb && vc, n));
}

/// `$a` at the start of `s`, followed by ` ||`, reads as `a` for `and`.
proof fn lemma_lone_var_and(s: Seq<char>, vars: Seq<(Seq<char>, VariableView)>, a: Seq<char>)
    requires
        var_name(a),
        s.len() > 4 + a.len(),
        s[0] == '$',
        s.subrange(1, 1 + a.len() as int) == a,
        s[1 + a.len() as int] == ' ' && s[2 + a.len() as int] == '|' && s[3 + a.len() as int]
            == '|',
    ensures
        and_spec(s, vars, 0) == (var_holds(vars, a), 2 + a.len() as int),
{
    let la = a.len() as int;
    lemma_var_condition(s, vars, 0, a);
    lemma_run_while_is(s, 2 + la, 2 + la, ws_pred());
    assert(and_tail(s, vars, 2 + la, var_holds(vars, a)) == (var_holds(vars, a), 2 + la));
}

/// With `and` reading `x` up to `||` and `y` from after it to the end, `or` reads `x || y`.
proof fn lemma_or_of_two(s: Seq<char>, vars: Seq<(Seq<char>, VariableView)>, la: int, x: bool, y: bool)
    requires
        0 <= la,
        s.len() > 4 + la,
        s[2 + la] == '|' && s[3 + la] == '|',
        and_spec(s, vars, 0) == (x, 2 + la),
        and_spec(s, vars, 4 + la) == (y, s.len() as int),
    ensures
        or_spec(s, vars, 0).0 == (x || y),
{
    let n = s.len() as int;
    lemma_run_while_is(s, 2 + la, 2 + la, ws_pred());
    lemma_run_while_is(s, n, n, ws_pred());
    assert(or_tail(s, vars, n, x || y) == (x || y, n));
    assert(or_tail(s, vars, 2 + la, x) == (x || y, n));
}

/// `&&` binds tighter than `||`: `$a || $b && $c` holds exactly when `a` holds, or
/// both `b` and `c` do (so it holds whenever `a` does, whatever `b` and `c` are).
pub proof fn law_and_binds_tighter_than_or(
    vars: Seq<(Seq<char>, VariableView)>,
    a: Seq<char>,
    b: Seq<char>,
    c: Seq<char>,
)
    requires
        var_name(a),
        var_name(b),
        var_name(c),
    ensures
        if_expr_holds(
            seq!['$'] + a + seq![' ', '|', '|', ' ', '$'] + b + seq![' ', '&', '&', ' ', '$'] + c,
            vars,
        ) == (var_holds(vars, a) || (var_holds(vars, b) && var_holds(vars, c))),
{
    let s = seq!['$'] + a + seq![' ', '|', '|', ' ', '$'] + b + seq![' ', '&', '&', ' ', '$'] + c;
    lemma_or_and_layout(a, b, c);
    lemma_lone_var_and(s, vars, a);
    lemma_and_of_two(s, vars, 4 + a.len() as int, b, c);
    lemma_or_of_two(s, vars, a.len() as int, var_holds(vars, a), var_holds(vars, b) && var_holds(vars, c));
}

/// Different copy numbers give different copy names.
proof fn lemma_matrix_names_differ(name: Seq<char>, i: nat, j: nat, count: nat)
    requires
        i != j,
        count != 1,
    ensures
        matrix_name(name, i, count) != matrix_name(name, j, count),
{
    let x = matrix_name(name, i, count);
    let y = matrix_name(name, j, count);
    if x == y {
        let l = name.len() as int + 1;
        assert(x.subrange(l, x.len() as int) =~= decimal(i + 1));
        assert(y.subrange(l, y.len() as int) =~= decimal(j + 1));
        lemma_decimal_digits(i + 1);
        lemma_decimal_digits(j + 1);
    }
}

/// After the first `m` copies are inserted, copy `k < m` stands under its name with
/// the `k`-th combination.
proof fn lemma_matrix_copy_lookup(
    acc: Seq<(Seq<char>, JobView)>,
    name: Seq<char>,
    job: JobView,
    combos: Seq<Seq<(Seq<char>, Seq<char>)>>,
    m: nat,
    k: nat,
)
    requires
        k < m <= combos.len(),
    ensures
        lookup(insert_matrix_jobs(acc, name, job, combos, m), matrix_name(name, k, combos.len()))
            == Some(matrix_job(job, combos[k as int])),
    decreases m,
{
    let n = combos.len();
    let prev = insert_matrix_jobs(acc, name, job, combos, (m - 1) as nat);
    let key = matrix_name(name, (m - 1) as nat, n);
    lemma_lookup_insert(prev, key, matrix_job(job, combos[m - 1]), matrix_name(name, k, n));
    if k != m - 1 {
        lemma_matrix_names_differ(name, k, (m - 1) as nat, n);
        lemma_matrix_copy_lookup(acc, name, job, combos, (m - 1) as nat, k);
    }
}

/// Each matrix copy carries its own combination: after the copies of `job` are
/// inserted for every combination of `combos`, copy number `k + 1` (the job's own name
/// when there is one combination) sets every variable of the `k`-th combination to
/// that combination's value, so copies of different combinations differ in them.
pub proof fn law_matrix_copy_has_its_combination(
    acc: Seq<(Seq<char>, JobView)>,
    name: Seq<char>,
    job: JobView,
    combos: Seq<Seq<(Seq<char>, Seq<char>)>>,
    k: nat,
    i: int,
)
    requires
        k < combos.len(),
        unique_keys(combos[k as int]),
        0 <= i < combos[k as int].len(),
    ensures
        ({
            let copy = lookup(
                insert_matrix_jobs(acc, name, job, combos, combos.len()),
                matrix_name(name, k, combos.len()),
            );
            &&& copy is Some
            &&& copy->0.parallel is None
            &&& lookup(copy->0.variables, combos[k as int][i].0) == Some(
                simple_var(combos[k as int][i].1),
            )
        }),
{
    let c = combos[k as int];
    let t = combo_vars(c);
    lemma_matrix_copy_lookup(acc, name, job, combos, combos.len(), k);
    assert forall|a: int, b: int| 0 <= a < b < t.len() implies t[a].0 != t[b].0 by {
        assert(t[a].0 == c[a].0 && t[b].0 == c[b].0);
    }
    assert forall|j: int| 0 <= j < i implies t[j].0 != c[i].0 by {
        assert(t[j].0 == c[j].0);
    }
    lemma_key_index_is(t, c[i].0, i);
    law_insert_all_lookup(job.variables, t, c[i].0);
}

/// The name read after a `$` is the whole run of name characters that follows it.
proof fn lemma_name_prefix_of(a: Seq<char>, t: Seq<char>)
    requires
        forall|i: int| 0 <= i < a.len() ==> is_name_char(#[trigger] a[i]),
        t.len() == 0 || !is_name_char(t[0]),
    ensures
        name_prefix(a + t) == a,
    decreases a.len(),
{
    if a.len() == 0 {
        assert(a + t =~= t);
    } else {
        let s = a + t;
        assert(s[0] == a[0]);
        assert(s.drop_first() =~= a.drop_first() + t);
        assert forall|i: int| 0 <= i < a.drop_first().len() implies is_name_char(
            #[trigger] a.drop_first()[i],
        ) by {
            assert(a.drop_first()[i] == a[i + 1]);
        }
        lemma_name_prefix_of(a.drop_first(), t);
        assert(seq![a[0]] + a.drop_first() =~= a);
    }
}

/// Expansion goes on after a reference: `$A` followed by text that does not continue
/// the name expands to the expansion of `$A` followed by the expansion of that text,
/// so a reference further on is replaced too. In particular, for a separator `sep`
/// that is neither a name character nor `$`,
/// `expand("$A" + sep + t) == expand("$A") + sep + expand(t)`.
pub proof fn law_expansion_continues_after_reference(
    a: Seq<char>,
    t: Seq<char>,
    vars: Seq<(Seq<char>, VariableView)>,
    depth: nat,
)
    requires
        var_name(a),
        t.len() == 0 || !is_name_char(t[0]),
    ensures
        expand_spec(seq!['$'] + a + t, vars, depth) == expand_spec(seq!['$'] + a, vars, depth)
            + expand_spec(t, vars, depth),
        depth < MAX_EXPANSION_DEPTH && t.len() > 0 && t[0] != '$' ==> expand_spec(
            seq!['$'] + a + t,
            vars,
            depth,
        ) == expand_spec(seq!['$'] + a, vars, depth) + seq![t[0]] + expand_spec(
            t.drop_first(),
            vars,
            depth,
        ),
{
    let s = seq!['$'] + a + t;
    let r = seq!['$'] + a;
    if depth < MAX_EXPANSION_DEPTH {
        assert(s[1] == a[0] && r[1] == a[0]);
        assert(is_name_char(a[0]));
        assert(s.drop_first() =~= a + t);
        assert(r.drop_first() =~= a + Seq::<char>::empty());
        lemma_name_prefix_of(a, t);
        lemma_name_prefix_of(a, Seq::<char>::empty());
        assert(s.skip(a.len() + 1 as int) =~= t);
        assert(r.skip(a.len() + 1 as int) =~= Seq::<char>::empty());
        assert(expand_spec(Seq::<char>::empty(), vars, depth) == Seq::<char>::empty());
        match lookup_value(vars, a) {
            Some(v) => {
                assert(expand_spec(r, vars, depth) =~= expand_spec(v, vars, depth + 1));
            },
            None => {
                assert(expand_spec(r, vars, depth) =~= seq!['$'] + a);
                assert(s =~= seq!['$'] + a + t);
            },
        }
        if t.len() > 0 && t[0] != '$' {
            assert(expand_spec(t, vars, depth) == seq![t[0]] + expand_spec(t.drop_first(), vars, depth));
        }
    } else {
        assert(s =~= r + t);
    }
}

/// What `check_secrets` reports is exactly what is missing: every name it reports is
/// referenced, defined nowhere in the pipeline, not among the available variables and
/// not one GitLab provides; and every referenced name of which all that holds is
/// reported.
pub proof fn law_missing_means_unavailable(
    names: Seq<Seq<char>>,
    globals: Seq<(Seq<char>, VariableView)>,
    jobs: Seq<(Seq<char>, JobView)>,
    available: Seq<(Seq<char>, VariableView)>,
)
    ensures
        forall|i: int|
            0 <= i < missing_secrets(names, globals, jobs, available).len() ==> {
                let m = #[trigger] missing_secrets(names, globals, jobs, available)[i].name;
                &&& names.contains(m)
                &&& !has_key(available, m)
                &&& !pipeline_defines(globals, jobs, m)
                &&& !predefined_name(m)
            },
        forall|n: Seq<char>|
            #![trigger names.contains(n)]
            names.contains(n) && !has_key(available, n) && !pipeline_defines(globals, jobs, n)
                && !predefined_name(n) ==> exists|i: int|
                0 <= i < missing_secrets(names, globals, jobs, available).len()
                    && #[trigger] missing_secrets(names, globals, jobs, available)[i].name == n,
    decreases names.len(),
{
    if names.len() > 0 {
        let init = names.drop_last();
        law_missing_means_unavailable(init, globals, jobs, available);
        let prev = missing_secrets(init, globals, jobs, available);
        let r = missing_secrets(names, globals, jobs, available);
        assert forall|i: int| 0 <= i < prev.len() implies r[i] == prev[i] by {}
        assert forall|x: Seq<char>| init.contains(x) implies names.contains(x) by {
            let j = choose|j: int| 0 <= j < init.len() && init[j] == x;
            assert(names[j] == x);
        }
        assert forall|i: int| 0 <= i < r.len() implies {
            let m = #[trigger] r[i].name;
            &&& names.contains(m)
            &&& !has_key(available, m)
            &&& !pipeline_defines(globals, jobs, m)
            &&& !predefined_name(m)
        } by {
            if i < prev.len() {
                assert(prev[i].name == r[i].name);
                assert(init.contains(prev[i].name));
            } else {
                assert(names[names.len() - 1] == r[i].name);
            }
        }
        assert forall|n: Seq<char>|
            names.contains(n) && !has_key(available, n) && !pipeline_defines(globals, jobs, n)
                && !predefined_name(n) implies exists|i: int|
            0 <= i < r.len() && #[trigger] r[i].name == n by {
            if n == names.last() {
                assert(r[prev.len() as int].name == n);
            } else {
                let j = choose|j: int| 0 <= j < names.len() && names[j] == n;
                assert(j < init.len());
                assert(init[j] == n);
                assert(init.contains(n));
                let i = choose|i: int| 0 <= i < prev.len() && #[trigger] prev[i].name == n;
                assert(r[i] == prev[i]);
            }
        }
    }
}

/// How one keyword of a job comes out of `default:`: the job's own setting when it has
/// one; else the default's when the job inherits that keyword; else still unset.
pub open spec fn fills_gap<T>(own: Option<T>, default: Option<T>, inherited: bool, result: Option<T>) -> bool {
    &&& (own is Some ==> result == own)
    &&& (own is None && inherited ==> result == default)
    &&& (own is None && !inherited ==> result is None)
}

/// `default:` fills only gaps: each of `image`, `before_script`, `after_script`,
/// `services`, `cache`, `artifacts`, `retry`, `timeout`, `interruptible` and `tags`
/// that a job sets keeps its value, one it leaves unset takes the default's value
/// when the job inherits it (always without `inherit:default`), and nothing else about
/// the job changes. So a job without `before_script:` under `default: before_script:`
/// runs the default's `before_script`.
pub proof fn law_job_defaults_fill_gaps(j: JobView, d: DefaultsView)
    ensures
        ({
            let r = with_defaults(j, d);
            let t = inherit_default(j);
            &&& fills_gap(j.image, d.image, inherits(t, "image"@), r.image)
            &&& fills_gap(j.before_script, d.before_script, inherits(t, "before_script"@), r.before_script)
            &&& fills_gap(j.after_script, d.after_script, inherits(t, "after_script"@), r.after_script)
            &&& fills_gap(j.services, d.services, inherits(t, "services"@), r.services)
            &&& fills_gap(j.cache, d.cache, inherits(t, "cache"@), r.cache)
            &&& fills_gap(j.artifacts, d.artifacts, inherits(t, "artifacts"@), r.artifacts)
            &&& fills_gap(j.retry, d.retry, inherits(t, "retry"@), r.retry)
            &&& fills_gap(j.timeout, d.timeout, inherits(t, "timeout"@), r.timeout)
            &&& fills_gap(j.interruptible, d.interruptible, inherits(t, "interruptible"@), r.interruptible)
            &&& fills_gap(j.tags, d.tags, inherits(t, "tags"@), r.tags)
            &&& r == JobView {
                image: r.image,
                before_script: r.before_script,
                after_script: r.after_script,
                services: r.services,
                cache: r.cache,
                artifacts: r.artifacts,
                retry: r.retry,
                timeout: r.timeout,
                interruptible: r.interruptible,
                tags: r.tags,
                ..j
            }
            &&& (t is None ==> (j.before_script is None ==> r.before_script == d.before_script))
        }),
{
}

} // verus!
