//! Building an execution plan: rules, matrix expansion, dependency checks and the
//! stage/DAG ordering.
use vstd::prelude::*;

use indexmap::IndexMap;

use crate::collections::{
    entries_insert, entries_insert_all, job_entries, jobs_get_index, jobs_insert, jobs_len,
    jobs_index_of, jobs_new, key_index, lemma_insert_unique, lemma_key_index_bounds, lemma_key_index_is, matrix_entries, matrix_get_index, matrix_len,
    str_entries, strs_clone, strs_get_index, strs_insert, strs_len, strs_new, unique_keys,
    var_entries, vars_insert,
};
use crate::error::LabError;
use crate::model::pipeline::{Plan, PlannedJob, Stage};
use crate::model::job::{
    matrix_rows, need_views, Job, JobView, NeedView, ParallelConfig, ParallelView, StringOrVec,
    When,
};
use crate::model::rules::{
    evaluate_rules, first_match, lemma_first_match_wins, rule_views, RuleContext, RuleResult,
};
use crate::model::variables::{insert_all, VariableValue, VariableView, Variables};
use crate::text::{concat3, decimal, join_strings, joined, str_eq, u64_to_string, views};

verus! {

// ---------------------------------------------------------------------------
// Rules and user filters
// ---------------------------------------------------------------------------
/// Whether a job passes the user's name and stage filters.
pub open spec fn passes_filters(
    name: Seq<char>,
    job: JobView,
    job_filter: Option<Seq<char>>,
    stage_filter: Option<Seq<char>>,
) -> bool {
    &&& (job_filter matches Some(f) ==> name == f)
    &&& (stage_filter matches Some(f) ==> job.stage == f)
}

/// The job as it runs after its rules are applied, or `None` when it does not run:
/// the first matching rule sets `when` (by default the job's own), overrides
/// `allow_failure` where it sets one (else the job keeps its own) and adds its variables; no matching rule, or a resulting
/// `when: never`, drops the job. A job without rules runs unless it is `when: never`.
pub open spec fn active_version(
    job: JobView,
    vars: Seq<(Seq<char>, VariableView)>,
    ctx: RuleContext,
) -> Option<JobView> {
    match job.rules {
        Some(rs) => match first_match(rs, vars, ctx, 0) {
            Some(i) => {
                let w = match rs[i].when {
                    Some(w) => w,
                    None => job.when,
                };
                if w == When::Never {
                    None
                } else {
                    Some(
                        JobView {
                            when: w,
                            allow_failure: match rs[i].allow_failure {
                                Some(a) => a,
                                None => job.allow_failure,
                            },
                            variables: match rs[i].variables {
                                Some(rv) => entries_insert_all(job.variables, rv),
                                None => job.variables,
                            },
                            ..job
                        },
                    )
                }
            },
            None => None,
        },
        None => if job.when == When::Never {
            None
        } else {
            Some(job)
        },
    }
}

/// The jobs that will run, in order, each as `active_version` gives it.
pub open spec fn filtered(
    e: Seq<(Seq<char>, JobView)>,
    vars: Seq<(Seq<char>, VariableView)>,
    job_filter: Option<Seq<char>>,
    stage_filter: Option<Seq<char>>,
    ctx: RuleContext,
) -> Seq<(Seq<char>, JobView)>
    decreases e.len(),
{
    if e.len() == 0 {
        Seq::empty()
    } else {
        let prev = filtered(e.drop_last(), vars, job_filter, stage_filter, ctx);
        let (name, job) = e.last();
        if !passes_filters(name, job, job_filter, stage_filter) {
            prev
        } else {
            match active_version(job, vars, ctx) {
                Some(j) => entries_insert(prev, name, j),
                None => prev,
            }
        }
    }
}

pub open spec fn opt_str_view(o: Option<&str>) -> Option<Seq<char>> {
    match o {
        Some(s) => Some(s@),
        None => None,
    }
}

/// Filter jobs based on rules evaluation and user filters.
fn filter_active_jobs(
    jobs: &IndexMap<String, Job>,
    variables: &Variables,
    job_filter: Option<&str>,
    stage_filter: Option<&str>,
    ctx: &RuleContext,
) -> (r: IndexMap<String, Job>)
    ensures
        job_entries(r) == filtered(
            job_entries(*jobs),
            var_entries(*variables),
            opt_str_view(job_filter),
            opt_str_view(stage_filter),
            *ctx,
        ),
        unique_keys(job_entries(r)),
{
    let ghost e = job_entries(*jobs);
    let ghost ve = var_entries(*variables);
    let ghost jf = opt_str_view(job_filter);
    let ghost sf = opt_str_view(stage_filter);
    let mut active = jobs_new();
    let n = jobs_len(jobs);
    let mut i: usize = 0;
    assert(e.subrange(0, 0) =~= Seq::<(Seq<char>, JobView)>::empty());
    while i < n
        invariant
            n == e.len(),
            e == job_entries(*jobs),
            ve == var_entries(*variables),
            jf == opt_str_view(job_filter),
            sf == opt_str_view(stage_filter),
            i <= n,
            job_entries(active) == filtered(e.subrange(0, i as int), ve, jf, sf, *ctx),
            unique_keys(job_entries(active)),
        decreases n - i,
    {
        let (name, job) = jobs_get_index(jobs, i);
        let ghost sub = e.subrange(0, i + 1);
        assert(sub.drop_last() =~= e.subrange(0, i as int));
        assert(sub.last() == e[i as int]);
        let passes = match job_filter {
            Some(f) => str_eq(name.as_str(), f),
            None => true,
        } && match stage_filter {
            Some(f) => str_eq(job.stage.as_str(), f),
            None => true,
        };
        if passes {
            match &job.rules {
                Some(rules) => {
                    let ghost rs = rule_views(rules@);
                    assert(job@.rules == Some(rs));
                    let res = evaluate_rules(rules.as_slice(), variables, job.when, ctx);
                    proof {
                        if let Some(k) = first_match(rs, ve, *ctx, 0) {
                            lemma_first_match_wins(rs, ve, *ctx, 0);
                            assert(rs[k] == rules@[k]@);
                        }
                    }
                    match res {
                        RuleResult::Matched { when, allow_failure, variables: rule_vars } => {
                            if when != When::Never {
                                let mut j2 = job.clone();
                                j2.when = when;
                                if let Some(a) = allow_failure {
                                    j2.allow_failure = a;
                                }
                                match rule_vars {
                                    Some(rv) => {
                                        insert_all(&mut j2.variables, &rv);
                                    },
                                    None => {},
                                }
                                let ghost av = active_version(job@, ve, *ctx)->0;
                                assert(j2@.when == av.when);
                                assert(j2@.allow_failure == av.allow_failure);
                                assert(j2@.variables == av.variables);
                                assert(j2@.needs == av.needs);
                                assert(j2@.rules == av.rules);
                                assert(j2@.parallel == av.parallel);
                                assert(j2@.stage == av.stage);
                                assert(j2@ == av);
                                proof {
                                    lemma_insert_unique(job_entries(active), name@, j2@);
                                }
                                jobs_insert(&mut active, name.clone(), j2);
                            }
                        },
                        RuleResult::NotMatched => {
                            assert(active_version(job@, ve, *ctx) is None);
                        },
                    }
                },
                None => {
                    if job.when != When::Never {
                        proof {
                            lemma_insert_unique(job_entries(active), name@, job@);
                        }
                        jobs_insert(&mut active, name.clone(), job.clone());
                    }
                },
            }
        }
        i = i + 1;
    }
    assert(e.subrange(0, n as int) =~= e);
    active
}

// ---------------------------------------------------------------------------
// parallel: and parallel:matrix:
// ---------------------------------------------------------------------------
/// Every combination of `cs` extended by `k` taking each of `vals`, combinations in
/// order and, for each, the values in order.
pub open spec fn extend_combos(
    cs: Seq<Seq<(Seq<char>, Seq<char>)>>,
    k: Seq<char>,
    vals: Seq<Seq<char>>,
) -> Seq<Seq<(Seq<char>, Seq<char>)>>
    decreases cs.len(),
{
    if cs.len() == 0 {
        Seq::empty()
    } else {
        extend_combos(cs.drop_last(), k, vals) + vals.map_values(
            |v: Seq<char>| entries_insert(cs.last(), k, v),
        )
    }
}

/// The cross product of one matrix row: one combination per choice of a value for
/// each variable, the later variables varying fastest.
pub open spec fn row_combos(row: Seq<(Seq<char>, Seq<Seq<char>>)>) -> Seq<
    Seq<(Seq<char>, Seq<char>)>,
>
    decreases row.len(),
{
    if row.len() == 0 {
        seq![Seq::empty()]
    } else {
        extend_combos(row_combos(row.drop_last()), row.last().0, row.last().1)
    }
}

/// The combinations of all rows, row after row.
pub open spec fn matrix_combos(rows: Seq<Seq<(Seq<char>, Seq<Seq<char>>)>>) -> Seq<
    Seq<(Seq<char>, Seq<char>)>,
>
    decreases rows.len(),
{
    if rows.len() == 0 {
        Seq::empty()
    } else {
        matrix_combos(rows.drop_last()) + row_combos(rows.last())
    }
}

pub open spec fn combo_views(v: Seq<IndexMap<String, String>>) -> Seq<
    Seq<(Seq<char>, Seq<char>)>,
> {
    v.map_values(|m: IndexMap<String, String>| str_entries(m))
}

/// Generate all combinations from a matrix definition.
pub fn generate_matrix_combinations(matrix: &[IndexMap<String, StringOrVec>]) -> (r: Vec<
    IndexMap<String, String>,
>)
    ensures
        combo_views(r@) == matrix_combos(matrix_rows(matrix@)),
{
    let ghost rows = matrix_rows(matrix@);
    let mut all: Vec<IndexMap<String, String>> = Vec::new();
    let mut e: usize = 0;
    assert(rows.subrange(0, 0) =~= Seq::<Seq<(Seq<char>, Seq<Seq<char>>)>>::empty());
    while e < matrix.len()
        invariant
            rows == matrix_rows(matrix@),
            e <= matrix@.len(),
            combo_views(all@) == matrix_combos(rows.subrange(0, e as int)),
        decreases matrix@.len() - e,
    {
        let entry = &matrix[e];
        let ghost row = matrix_entries(*entry);
        assert(rows[e as int] == row);
        let mut combos: Vec<IndexMap<String, String>> = Vec::new();
        combos.push(strs_new());
        assert(combo_views(combos@) =~= row_combos(row.subrange(0, 0)));
        let n = matrix_len(entry);
        let mut k: usize = 0;
        while k < n
            invariant
                n == row.len(),
                row == matrix_entries(*entry),
                k <= n,
                combo_views(combos@) == row_combos(row.subrange(0, k as int)),
            decreases n - k,
        {
            let (key, values) = matrix_get_index(entry, k);
            let value_list = values.as_slice();
            let ghost vals = row[k as int].1;
            assert(value_list@.map_values(|x: &str| x@) == vals);
            let mut next: Vec<IndexMap<String, String>> = Vec::new();
            let mut c: usize = 0;
            while c < combos.len()
                invariant
                    c <= combos@.len(),
                    vals == value_list@.map_values(|x: &str| x@),
                    combo_views(next@) == extend_combos(
                        combo_views(combos@).subrange(0, c as int),
                        key@,
                        vals,
                    ),
                decreases combos@.len() - c,
            {
                let mut v: usize = 0;
                let ghost before = combo_views(next@);
                while v < value_list.len()
                    invariant
                        c < combos@.len(),
                        v <= value_list@.len(),
                        vals == value_list@.map_values(|x: &str| x@),
                        combo_views(next@) == before + vals.subrange(0, v as int).map_values(
                            |w: Seq<char>| entries_insert(str_entries(combos@[c as int]), key@, w),
                        ),
                    decreases value_list@.len() - v,
                {
                    let ghost old_next = combo_views(next@);
                    assert(vals[v as int] == value_list@[v as int]@);
                    let mut nc = strs_clone(&combos[c]);
                    strs_insert(&mut nc, key.clone(), String::from_str(value_list[v]));
                    next.push(nc);
                    assert(combo_views(next@) =~= old_next.push(str_entries(nc)));
                    assert(vals.subrange(0, v + 1).map_values(
                        |w: Seq<char>| entries_insert(str_entries(combos@[c as int]), key@, w),
                    ) =~= vals.subrange(0, v as int).map_values(
                        |w: Seq<char>| entries_insert(str_entries(combos@[c as int]), key@, w),
                    ).push(entries_insert(str_entries(combos@[c as int]), key@, vals[v as int])));
                    v = v + 1;
                    assert(combo_views(next@) =~= before + vals.subrange(0, v as int).map_values(
                        |w: Seq<char>| entries_insert(str_entries(combos@[c as int]), key@, w),
                    ));
                }
                proof {
                    let cv = combo_views(combos@);
                    assert(cv.subrange(0, c + 1).drop_last() =~= cv.subrange(0, c as int));
                    assert(cv.subrange(0, c + 1).last() == str_entries(combos@[c as int]));
                    assert(vals.subrange(0, vals.len() as int) =~= vals);
                }
                c = c + 1;
            }
            proof {
                assert(combo_views(combos@).subrange(0, combos@.len() as int) =~= combo_views(
                    combos@,
                ));
                assert(row.subrange(0, k + 1).drop_last() =~= row.subrange(0, k as int));
            }
            combos = next;
            k = k + 1;
        }
        assert(row.subrange(0, n as int) =~= row);
        let ghost before_all = combo_views(all@);
        all.append(&mut combos);
        assert(combo_views(all@) =~= before_all + row_combos(row));
        assert(rows.subrange(0, e + 1).drop_last() =~= rows.subrange(0, e as int));
        e = e + 1;
    }
    assert(rows.subrange(0, matrix@.len() as int) =~= rows);
    all
}

/// A plain variable with value `v`.
pub open spec fn simple_var(v: Seq<char>) -> VariableView {
    VariableView { value: v, description: None, expand: true, options: None, detailed: false }
}

/// A matrix combination as variables.
pub open spec fn combo_vars(combo: Seq<(Seq<char>, Seq<char>)>) -> Seq<(Seq<char>, VariableView)> {
    combo.map_values(|e: (Seq<char>, Seq<char>)| (e.0, simple_var(e.1)))
}

/// The copy of a job for one matrix combination: not parallel any more, with the
/// combination's variables added.
pub open spec fn matrix_job(job: JobView, combo: Seq<(Seq<char>, Seq<char>)>) -> JobView {
    JobView {
        parallel: None,
        variables: entries_insert_all(job.variables, combo_vars(combo)),
        ..job
    }
}

/// The copy of a job for node `i` of `n`: not parallel any more, with `CI_NODE_INDEX`
/// and `CI_NODE_TOTAL` set.
pub open spec fn node_job(job: JobView, i: nat, n: nat) -> JobView {
    JobView {
        parallel: None,
        variables: entries_insert(
            entries_insert(job.variables, "CI_NODE_INDEX"@, simple_var(decimal(i))),
            "CI_NODE_TOTAL"@,
            simple_var(decimal(n)),
        ),
        ..job
    }
}

/// The name of the copy for combination `i` (counted from 0) of `count`: the job's own
/// name when there is only one, else the name, a space and `i + 1`.
pub open spec fn matrix_name(name: Seq<char>, i: nat, count: nat) -> Seq<char> {
    if count == 1 {
        name
    } else {
        name + seq![' '] + decimal(i + 1)
    }
}

/// The name of node `i` of `n`: `"{name} {i}/{n}"`.
pub open spec fn node_name(name: Seq<char>, i: nat, n: nat) -> Seq<char> {
    name + seq![' '] + decimal(i) + seq!['/'] + decimal(n)
}

/// Insert the copies for the first `k` combinations.
pub open spec fn insert_matrix_jobs(
    acc: Seq<(Seq<char>, JobView)>,
    name: Seq<char>,
    job: JobView,
    combos: Seq<Seq<(Seq<char>, Seq<char>)>>,
    k: nat,
) -> Seq<(Seq<char>, JobView)>
    decreases k,
{
    if k == 0 {
        acc
    } else {
        entries_insert(
            insert_matrix_jobs(acc, name, job, combos, (k - 1) as nat),
            matrix_name(name, (k - 1) as nat, combos.len()),
            matrix_job(job, combos[k - 1]),
        )
    }
}

/// Insert the copies for nodes `1..=k` of `n`.
pub open spec fn insert_node_jobs(
    acc: Seq<(Seq<char>, JobView)>,
    name: Seq<char>,
    job: JobView,
    n: nat,
    k: nat,
) -> Seq<(Seq<char>, JobView)>
    decreases k,
{
    if k == 0 {
        acc
    } else {
        entries_insert(
            insert_node_jobs(acc, name, job, n, (k - 1) as nat),
            node_name(name, k, n),
            node_job(job, k, n),
        )
    }
}

/// The jobs after `parallel:` expansion: a matrix job becomes one job per combination,
/// a counted job one job per node, any other job stays as it is.
pub open spec fn expanded(e: Seq<(Seq<char>, JobView)>) -> Seq<(Seq<char>, JobView)>
    decreases e.len(),
{
    if e.len() == 0 {
        Seq::empty()
    } else {
        let prev = expanded(e.drop_last());
        let (name, job) = e.last();
        match job.parallel {
            Some(ParallelView::Matrix(rows)) => {
                let combos = matrix_combos(rows);
                insert_matrix_jobs(prev, name, job, combos, combos.len())
            },
            Some(ParallelView::Count(n)) => insert_node_jobs(prev, name, job, n as nat, n as nat),
            None => entries_insert(prev, name, job),
        }
    }
}

/// Add the variables of a combination to a job's variables.
fn add_combo_vars(vars: &mut Variables, combo: &IndexMap<String, String>)
    ensures
        var_entries(*final(vars)) == entries_insert_all(
            var_entries(*old(vars)),
            combo_vars(str_entries(*combo)),
        ),
{
    let ghost s0 = var_entries(*vars);
    let ghost t = combo_vars(str_entries(*combo));
    let n = strs_len(combo);
    let mut i: usize = 0;
    assert(t.subrange(0, 0) =~= Seq::<(Seq<char>, VariableView)>::empty());
    while i < n
        invariant
            n == str_entries(*combo).len(),
            t == combo_vars(str_entries(*combo)),
            i <= n,
            var_entries(*vars) == entries_insert_all(s0, t.subrange(0, i as int)),
        decreases n - i,
    {
        let (k, v) = strs_get_index(combo, i);
        let value = VariableValue::from(v.as_str());
        assert(value@ == simple_var(v@));
        vars_insert(vars, k.clone(), value);
        i = i + 1;
        assert(t.subrange(0, i as int).drop_last() =~= t.subrange(0, i - 1));
    }
    assert(t.subrange(0, n as int) =~= t);
}

/// Expand `parallel:matrix:` and `parallel: N` into multiple jobs.
fn expand_matrix(jobs: &IndexMap<String, Job>) -> (r: IndexMap<String, Job>)
    requires
        unique_keys(job_entries(*jobs)),
    ensures
        job_entries(r) == expanded(job_entries(*jobs)),
        unique_keys(job_entries(r)),
{
    let ghost e = job_entries(*jobs);
    let mut out = jobs_new();
    let n = jobs_len(jobs);
    let mut i: usize = 0;
    assert(e.subrange(0, 0) =~= Seq::<(Seq<char>, JobView)>::empty());
    while i < n
        invariant
            n == e.len(),
            e == job_entries(*jobs),
            i <= n,
            job_entries(out) == expanded(e.subrange(0, i as int)),
            unique_keys(job_entries(out)),
        decreases n - i,
    {
        let (name, job) = jobs_get_index(jobs, i);
        let ghost sub = e.subrange(0, i + 1);
        assert(sub.drop_last() =~= e.subrange(0, i as int));
        assert(sub.last() == e[i as int]);
        match &job.parallel {
            Some(ParallelConfig::Matrix { matrix }) => {
                let combinations = generate_matrix_combinations(matrix.as_slice());
                let ghost combos = combo_views(combinations@);
                let ghost acc0 = job_entries(out);
                let count = combinations.len();
                let mut c: usize = 0;
                while c < count
                    invariant
                        count == combinations@.len(),
                        combos == combo_views(combinations@),
                        combos.len() == count,
                        c <= count,
                        job_entries(out) == insert_matrix_jobs(acc0, name@, job@, combos, c as nat),
                        unique_keys(job_entries(out)),
                    decreases count - c,
                {
                    let mut ej = job.clone();
                    ej.parallel = None;
                    add_combo_vars(&mut ej.variables, &combinations[c]);
                    let key = if count == 1 {
                        name.clone()
                    } else {
                        let num = u64_to_string((c + 1) as u64);
                        concat3(name.as_str(), " ", num.as_str())
                    };
                    proof {
                        reveal_strlit(" ");
                        assert(" "@ =~= seq![' ']);
                        assert(combos[c as int] == str_entries(combinations@[c as int]));
                        assert(ej@ == matrix_job(job@, combos[c as int]));
                        lemma_insert_unique(job_entries(out), key@, ej@);
                    }
                    jobs_insert(&mut out, key, ej);
                    c = c + 1;
                }
            },
            Some(ParallelConfig::Count(cnt)) => {
                let total = *cnt;
                let ghost acc0 = job_entries(out);
                let total_str = u64_to_string(total as u64);
                let mut k: u64 = 1;
                while k <= total as u64
                    invariant
                        1 <= k <= total as u64 + 1,
                        total_str@ == decimal(total as nat),
                        job_entries(out) == insert_node_jobs(
                            acc0,
                            name@,
                            job@,
                            total as nat,
                            (k - 1) as nat,
                        ),
                        unique_keys(job_entries(out)),
                    decreases total as u64 + 1 - k,
                {
                    let mut ej = job.clone();
                    ej.parallel = None;
                    let idx = u64_to_string(k);
                    vars_insert(&mut ej.variables, String::from_str("CI_NODE_INDEX"), VariableValue::from(idx.as_str()));
                    vars_insert(&mut ej.variables, String::from_str("CI_NODE_TOTAL"), VariableValue::from(total_str.as_str()));
                    let a = concat3(name.as_str(), " ", idx.as_str());
                    let key = concat3(a.as_str(), "/", total_str.as_str());
                    proof {
                        reveal_strlit(" ");
                        reveal_strlit("/");
                        assert(" "@ =~= seq![' ']);
                        assert("/"@ =~= seq!['/']);
                        assert(key@ =~= node_name(name@, k as nat, total as nat));
                        assert(ej@ == node_job(job@, k as nat, total as nat));
                        lemma_insert_unique(job_entries(out), key@, ej@);
                    }
                    jobs_insert(&mut out, key, ej);
                    k = k + 1;
                }
            },
            None => {
                proof {
                    lemma_insert_unique(job_entries(out), name@, job@);
                }
                jobs_insert(&mut out, name.clone(), job.clone());
            },
        }
        i = i + 1;
    }
    assert(e.subrange(0, n as int) =~= e);
    out
}

// ---------------------------------------------------------------------------
// needs: references
// ---------------------------------------------------------------------------
/// The first need, from position `m` on, that names no known job and is not optional.
pub open spec fn bad_need(needs: Seq<NeedView>, all: Seq<(Seq<char>, JobView)>, m: nat) -> Option<
    Seq<char>,
>
    decreases needs.len() - m,
{
    if m >= needs.len() {
        None
    } else if key_index(all, needs[m as int].job) < 0 && !needs[m as int].optional {
        Some(needs[m as int].job)
    } else {
        bad_need(needs, all, m + 1)
    }
}

/// The first active job, from position `k` on, with such a need: its name and the
/// name it needs.
pub open spec fn first_unknown_dependency(
    active: Seq<(Seq<char>, JobView)>,
    all: Seq<(Seq<char>, JobView)>,
    k: nat,
) -> Option<(Seq<char>, Seq<char>)>
    decreases active.len() - k,
{
    if k >= active.len() {
        None
    } else {
        match active[k as int].1.needs {
            Some(ns) => match bad_need(ns, all, 0) {
                Some(d) => Some((active[k as int].0, d)),
                None => first_unknown_dependency(active, all, k + 1),
            },
            None => first_unknown_dependency(active, all, k + 1),
        }
    }
}

/// Validate that all `needs:` references point to known jobs; optional ones may not.
fn validate_dependencies(active_jobs: &IndexMap<String, Job>, all_jobs: &IndexMap<String, Job>) -> (r:
    Result<(), LabError>)
    ensures
        match first_unknown_dependency(job_entries(*active_jobs), job_entries(*all_jobs), 0) {
            Some((j, d)) => r matches Err(LabError::UnknownDependency { job, dependency })
                && job@ == j && dependency@ == d,
            None => r is Ok,
        },
{
    let ghost a = job_entries(*active_jobs);
    let ghost all = job_entries(*all_jobs);
    let n = jobs_len(active_jobs);
    let mut k: usize = 0;
    while k < n
        invariant
            n == a.len(),
            a == job_entries(*active_jobs),
            all == job_entries(*all_jobs),
            k <= n,
            first_unknown_dependency(a, all, 0) == first_unknown_dependency(a, all, k as nat),
        decreases n - k,
    {
        let (name, job) = jobs_get_index(active_jobs, k);
        if let Some(needs) = &job.needs {
            let ghost ns = need_views(needs@);
            assert(ns.len() == needs@.len());
            let mut m: usize = 0;
            while m < needs.len()
                invariant
                    m <= needs@.len(),
                    ns == need_views(needs@),
                    ns.len() == needs@.len(),
                    all == job_entries(*all_jobs),
                    a == job_entries(*active_jobs),
                    k < a.len(),
                    name@ == a[k as int].0,
                    a[k as int].1.needs == Some(ns),
                    first_unknown_dependency(a, all, 0) == first_unknown_dependency(a, all, k as nat),
                    bad_need(ns, all, 0) == bad_need(ns, all, m as nat),
                decreases needs@.len() - m,
            {
                let need = &needs[m];
                assert(ns[m as int] == need@);
                let dep_name = need.job_name();
                if jobs_index_of(all_jobs, dep_name).is_none() && !need.is_optional() {
                    return Err(
                        LabError::UnknownDependency {
                            job: name.clone(),
                            dependency: String::from_str(dep_name),
                        },
                    );
                }
                m = m + 1;
            }
        }
        k = k + 1;
    }
    Ok(())
}

// ---------------------------------------------------------------------------
// Stage and DAG ordering
// ---------------------------------------------------------------------------
/// Position of the first occurrence of `s` in `order` from `k` on, or -1.
pub open spec fn seq_pos_from(order: Seq<Seq<char>>, s: Seq<char>, k: nat) -> int
    decreases order.len() - k,
{
    if k >= order.len() {
        -1
    } else if order[k as int] == s {
        k as int
    } else {
        seq_pos_from(order, s, k + 1)
    }
}

/// Position of the first occurrence of `s` in `order`, or -1.
pub open spec fn seq_pos(order: Seq<Seq<char>>, s: Seq<char>) -> int {
    seq_pos_from(order, s, 0)
}

pub proof fn lemma_seq_pos_from(order: Seq<Seq<char>>, s: Seq<char>, k: nat)
    ensures
        seq_pos_from(order, s, k) == -1 || (k <= seq_pos_from(order, s, k) < order.len()
            && order[seq_pos_from(order, s, k)] == s),
        seq_pos_from(order, s, k) == -1 ==> forall|j: int| k <= j < order.len() ==> order[j] != s,
        seq_pos_from(order, s, k) >= 0 ==> forall|j: int|
            k <= j < seq_pos_from(order, s, k) ==> order[j] != s,
    decreases order.len() - k,
{
    if k < order.len() && order[k as int] != s {
        lemma_seq_pos_from(order, s, k + 1);
    }
}

/// The stage rank a job without `needs:` compares by: its stage's position, or 0 for a
/// stage that is not listed.
pub open spec fn dep_rank(order: Seq<Seq<char>>, s: Seq<char>) -> int {
    if seq_pos(order, s) >= 0 {
        seq_pos(order, s)
    } else {
        0
    }
}

/// Whether active job `i` waits for active job `j`: with `needs:`, when it needs `j` by
/// name; without, when `j` is another job of an earlier stage.
pub open spec fn depends(
    a: Seq<(Seq<char>, JobView)>,
    order: Seq<Seq<char>>,
    i: int,
    j: int,
) -> bool {
    match a[i].1.needs {
        Some(ns) => needs_refer(a, ns, j),
        None => j != i && dep_rank(order, a[j].1.stage) < dep_rank(order, a[i].1.stage),
    }
}

/// Whether one of the needs names active job `j`.
pub open spec fn needs_refer(a: Seq<(Seq<char>, JobView)>, ns: Seq<NeedView>, j: int) -> bool {
    exists|k: int| 0 <= k < ns.len() && key_index(a, #[trigger] ns[k].job) == j
}

/// Whether job `i` has run within the first `r` rounds: a round runs every job all of
/// whose dependencies ran in earlier rounds.
pub open spec fn done_by(a: Seq<(Seq<char>, JobView)>, order: Seq<Seq<char>>, i: int, r: nat) -> bool
    decreases r,
{
    r > 0 && forall|j: int|
        0 <= j < a.len() && #[trigger] depends(a, order, i, j) ==> done_by(a, order, j, (r - 1) as nat)
}

/// Whether job `i` ever runs: it lies on no dependency cycle and reaches none.
pub open spec fn resolvable(a: Seq<(Seq<char>, JobView)>, order: Seq<Seq<char>>, i: int) -> bool {
    exists|r: nat| done_by(a, order, i, r)
}

pub proof fn lemma_done_mono(a: Seq<(Seq<char>, JobView)>, order: Seq<Seq<char>>, i: int, r: nat)
    requires
        done_by(a, order, i, r),
    ensures
        done_by(a, order, i, r + 1),
    decreases r,
{
    assert forall|j: int| 0 <= j < a.len() && #[trigger] depends(a, order, i, j) implies done_by(
        a,
        order,
        j,
        r,
    ) by {
        lemma_done_mono(a, order, j, (r - 1) as nat);
    }
}

pub proof fn lemma_done_mono_le(
    a: Seq<(Seq<char>, JobView)>,
    order: Seq<Seq<char>>,
    i: int,
    r1: nat,
    r2: nat,
)
    requires
        done_by(a, order, i, r1),
        r1 <= r2,
    ensures
        done_by(a, order, i, r2),
    decreases r2 - r1,
{
    if r1 < r2 {
        lemma_done_mono(a, order, i, r1);
        lemma_done_mono_le(a, order, i, r1 + 1, r2);
    }
}

/// Once a round runs nothing new, nothing ever will.
pub proof fn lemma_done_stable(
    a: Seq<(Seq<char>, JobView)>,
    order: Seq<Seq<char>>,
    r: nat,
    t: nat,
    i: int,
)
    requires
        forall|j: int| 0 <= j < a.len() ==> done_by(a, order, j, r + 1) == done_by(a, order, j, r),
        r <= t,
        0 <= i < a.len(),
    ensures
        done_by(a, order, i, t) == done_by(a, order, i, r),
    decreases t - r,
{
    if r < t {
        assert forall|j: int| 0 <= j < a.len() implies done_by(a, order, j, (t - 1) as nat) == done_by(
            a,
            order,
            j,
            r,
        ) by {
            lemma_done_stable(a, order, r, (t - 1) as nat, j);
        }
        if done_by(a, order, i, t) {
            assert forall|j: int| 0 <= j < a.len() && #[trigger] depends(a, order, i, j) implies done_by(
                a,
                order,
                j,
                r,
            ) by {
                assert(done_by(a, order, j, (t - 1) as nat));
            }
            assert(done_by(a, order, i, r + 1));
        } else if done_by(a, order, i, r) {
            lemma_done_mono_le(a, order, i, r, t);
        }
    }
}

/// Position of `s` in the stage list.
fn stage_position(stage_order: &[String], s: &str) -> (r: Option<usize>)
    ensures
        match r {
            Some(p) => p as int == seq_pos(views(stage_order@), s@),
            None => seq_pos(views(stage_order@), s@) == -1,
        },
{
    let ghost ord = views(stage_order@);
    let mut k: usize = 0;
    while k < stage_order.len()
        invariant
            ord == views(stage_order@),
            ord.len() == stage_order@.len(),
            k <= stage_order@.len(),
            seq_pos(ord, s@) == seq_pos_from(ord, s@, k as nat),
        decreases stage_order@.len() - k,
    {
        assert(ord[k as int] == stage_order@[k as int]@);
        if str_eq(stage_order[k].as_str(), s) {
            return Some(k);
        }
        k = k + 1;
    }
    None
}

/// For each active job, the active jobs it waits for (possibly repeated).
fn dependency_lists(stage_order: &[String], active: &IndexMap<String, Job>) -> (deps: Vec<
    Vec<usize>,
>)
    ensures
        deps@.len() == job_entries(*active).len(),
        forall|i: int, p: int|
            0 <= i < deps@.len() && 0 <= p < deps@[i]@.len() ==> deps@[i]@[p] < deps@.len()
                && depends(job_entries(*active), views(stage_order@), i, #[trigger] deps@[i]@[p] as int),
        forall|i: int, j: int|
            0 <= i < deps@.len() && 0 <= j < deps@.len() && #[trigger] depends(
                job_entries(*active),
                views(stage_order@),
                i,
                j,
            ) ==> deps@[i]@.contains(j as usize),
{
    let ghost a = job_entries(*active);
    let ghost ord = views(stage_order@);
    let n = jobs_len(active);
    let mut ranks: Vec<usize> = Vec::new();
    let mut i: usize = 0;
    while i < n
        invariant
            n == a.len(),
            a == job_entries(*active),
            ord == views(stage_order@),
            i <= n,
            ranks@.len() == i,
            forall|j: int| 0 <= j < i ==> #[trigger] ranks@[j] as int == dep_rank(ord, a[j].1.stage),
        decreases n - i,
    {
        let (_, job) = jobs_get_index(active, i);
        let rank = match stage_position(stage_order, job.stage.as_str()) {
            Some(p) => p,
            None => 0,
        };
        ranks.push(rank);
        i = i + 1;
    }
    let mut deps: Vec<Vec<usize>> = Vec::new();
    let mut i: usize = 0;
    while i < n
        invariant
            n == a.len(),
            a == job_entries(*active),
            ord == views(stage_order@),
            ranks@.len() == n,
            forall|j: int| 0 <= j < n ==> #[trigger] ranks@[j] as int == dep_rank(ord, a[j].1.stage),
            i <= n,
            deps@.len() == i,
            forall|x: int, p: int|
                0 <= x < i && 0 <= p < deps@[x]@.len() ==> deps@[x]@[p] < n && depends(
                    a,
                    ord,
                    x,
                    #[trigger] deps@[x]@[p] as int,
                ),
            forall|x: int, j: int|
                0 <= x < i && 0 <= j < n && #[trigger] depends(a, ord, x, j) ==> deps@[x]@.contains(
                    j as usize,
                ),
        decreases n - i,
    {
        let (_, job) = jobs_get_index(active, i);
        let mut list: Vec<usize> = Vec::new();
        match &job.needs {
            Some(needs) => {
                let ghost ns = need_views(needs@);
                assert(ns.len() == needs@.len());
                assert(a[i as int].1.needs == Some(ns));
                let mut m: usize = 0;
                while m < needs.len()
                    invariant
                        n == a.len(),
                        a == job_entries(*active),
                        ord == views(stage_order@),
                        i < n,
                        a[i as int].1.needs == Some(ns),
                        ns == need_views(needs@),
                        ns.len() == needs@.len(),
                        m <= needs@.len(),
                        forall|p: int|
                            0 <= p < list@.len() ==> list@[p] < n && depends(
                                a,
                                ord,
                                i as int,
                                #[trigger] list@[p] as int,
                            ),
                        forall|j: int|
                            #![trigger list@.contains(j as usize)]
                            0 <= j < n && (exists|k: int|
                                0 <= k < m && key_index(a, #[trigger] ns[k].job) == j)
                                ==> list@.contains(j as usize),
                    decreases needs@.len() - m,
                {
                    assert(ns[m as int] == needs@[m as int]@);
                    let dn = needs[m].job_name();
                    assert(dn@ == ns[m as int].job);
                    match jobs_index_of(active, dn) {
                        Some(j) => {
                            proof {
                                lemma_key_index_bounds(a, ns[m as int].job);
                            }
                            let ghost before = list@;
                            list.push(j);
                            assert(key_index(a, ns[m as int].job) == j as int);
                            assert(needs_refer(a, ns, j as int));
                            assert(depends(a, ord, i as int, j as int));
                            assert forall|jj: int|
                                #![trigger list@.contains(jj as usize)]
                                0 <= jj < n && (exists|k: int|
                                    0 <= k < m + 1 && key_index(a, #[trigger] ns[k].job) == jj)
                                    implies list@.contains(jj as usize) by {
                                let k = choose|k: int|
                                    0 <= k < m + 1 && key_index(a, #[trigger] ns[k].job) == jj;
                                if k < m {
                                    assert(before.contains(jj as usize));
                                    let q = choose|q: int| 0 <= q < before.len() && before[q] == jj as usize;
                                    assert(list@[q] == jj as usize);
                                } else {
                                    assert(list@[before.len() as int] == jj as usize);
                                }
                            }
                        },
                        None => {
                            assert forall|jj: int|
                                #![trigger list@.contains(jj as usize)]
                                0 <= jj < n && (exists|k: int|
                                    0 <= k < m + 1 && key_index(a, #[trigger] ns[k].job) == jj)
                                    implies list@.contains(jj as usize) by {
                                let k = choose|k: int|
                                    0 <= k < m + 1 && key_index(a, #[trigger] ns[k].job) == jj;
                                assert(k < m);
                            }
                        },
                    }
                    m = m + 1;
                }
            },
            None => {
                let mut j: usize = 0;
                while j < n
                    invariant
                        n == a.len(),
                        a == job_entries(*active),
                        ord == views(stage_order@),
                        i < n,
                        a[i as int].1.needs is None,
                        ranks@.len() == n,
                        forall|x: int| 0 <= x < n ==> #[trigger] ranks@[x] as int == dep_rank(ord, a[x].1.stage),
                        j <= n,
                        forall|p: int|
                            0 <= p < list@.len() ==> list@[p] < n && depends(
                                a,
                                ord,
                                i as int,
                                #[trigger] list@[p] as int,
                            ),
                        forall|x: int|
                            #![trigger list@.contains(x as usize)]
                            0 <= x < j && depends(a, ord, i as int, x) ==> list@.contains(x as usize),
                    decreases n - j,
                {
                    if j != i && ranks[j] < ranks[i] {
                        let ghost before = list@;
                        list.push(j);
                        assert forall|x: int|
                            #![trigger list@.contains(x as usize)]
                            0 <= x < j + 1 && depends(a, ord, i as int, x) implies list@.contains(x as usize) by {
                            if x < j {
                                assert(before.contains(x as usize));
                                let q = choose|q: int| 0 <= q < before.len() && before[q] == x as usize;
                                assert(list@[q] == x as usize);
                            } else {
                                assert(list@[before.len() as int] == x as usize);
                            }
                        }
                    }
                    j = j + 1;
                }
            },
        }
        deps.push(list);
        i = i + 1;
    }
    deps
}

/// Whether job `i` runs in the coming round: it has not run and every job it waits for has.
pub open spec fn ready(deps: Seq<Vec<usize>>, resolved: Seq<bool>, i: int) -> bool {
    !resolved[i] && forall|p: int|
        0 <= p < deps[i]@.len() ==> resolved[#[trigger] deps[i]@[p] as int]
}

/// Order of a round's jobs: by key, then by position.
pub open spec fn key_lt(keys: Seq<usize>, x: usize, y: usize) -> bool {
    keys[x as int] < keys[y as int] || (keys[x as int] == keys[y as int] && x < y)
}

fn is_ready(deps_i: &Vec<usize>, resolved: &Vec<bool>, i: usize) -> (r: bool)
    requires
        i < resolved@.len(),
        forall|p: int| 0 <= p < deps_i@.len() ==> deps_i@[p] < resolved@.len(),
    ensures
        r == (!resolved@[i as int] && forall|p: int|
            0 <= p < deps_i@.len() ==> resolved@[#[trigger] deps_i@[p] as int]),
{
    if resolved[i] {
        return false;
    }
    let mut p: usize = 0;
    while p < deps_i.len()
        invariant
            p <= deps_i@.len(),
            forall|p: int| 0 <= p < deps_i@.len() ==> deps_i@[p] < resolved@.len(),
            forall|q: int| 0 <= q < p ==> resolved@[#[trigger] deps_i@[q] as int],
        decreases deps_i@.len() - p,
    {
        if !resolved[deps_i[p]] {
            return false;
        }
        p = p + 1;
    }
    true
}

/// The jobs of the coming round, ordered by key and then by position.
fn next_batch(deps: &Vec<Vec<usize>>, resolved: &Vec<bool>, keys: &Vec<usize>, kmax: usize) -> (out:
    Vec<usize>)
    requires
        deps@.len() == resolved@.len(),
        keys@.len() == resolved@.len(),
        forall|i: int, p: int|
            0 <= i < deps@.len() && 0 <= p < deps@[i]@.len() ==> #[trigger] deps@[i]@[p]
                < deps@.len(),
        forall|i: int| 0 <= i < keys@.len() ==> #[trigger] keys@[i] <= kmax,
    ensures
        forall|p: int|
            0 <= p < out@.len() ==> #[trigger] out@[p] < deps@.len() && ready(
                deps@,
                resolved@,
                out@[p] as int,
            ),
        forall|i: int|
            0 <= i < deps@.len() && #[trigger] ready(deps@, resolved@, i) ==> out@.contains(
                i as usize,
            ),
        forall|p: int, q: int| 0 <= p < q < out@.len() ==> key_lt(keys@, out@[p], out@[q]),
{
    let n = deps.len();
    let mut out: Vec<usize> = Vec::new();
    let mut kv: usize = 0;
    loop
        invariant_except_break
            forall|p: int| 0 <= p < out@.len() ==> keys@[#[trigger] out@[p] as int] < kv,
        invariant
            n == deps@.len(),
            deps@.len() == resolved@.len(),
            keys@.len() == n,
            forall|i: int, p: int|
                0 <= i < deps@.len() && 0 <= p < deps@[i]@.len() ==> #[trigger] deps@[i]@[p]
                    < deps@.len(),
            forall|i: int| 0 <= i < keys@.len() ==> #[trigger] keys@[i] <= kmax,
            kv <= kmax,
            forall|p: int|
                0 <= p < out@.len() ==> #[trigger] out@[p] < n && ready(
                    deps@,
                    resolved@,
                    out@[p] as int,
                ),
            forall|i: int|
                #![trigger ready(deps@, resolved@, i)]
                0 <= i < n && ready(deps@, resolved@, i) && keys@[i] < kv ==> out@.contains(
                    i as usize,
                ),
            forall|p: int, q: int| 0 <= p < q < out@.len() ==> key_lt(keys@, out@[p], out@[q]),
        ensures
            forall|p: int|
                0 <= p < out@.len() ==> #[trigger] out@[p] < n && ready(
                    deps@,
                    resolved@,
                    out@[p] as int,
                ),
            forall|i: int|
                #![trigger ready(deps@, resolved@, i)]
                0 <= i < n && ready(deps@, resolved@, i) ==> out@.contains(i as usize),
            forall|p: int, q: int| 0 <= p < q < out@.len() ==> key_lt(keys@, out@[p], out@[q]),
        decreases kmax - kv,
    {
        let mut i: usize = 0;
        while i < n
            invariant
                n == deps@.len(),
                deps@.len() == resolved@.len(),
                keys@.len() == n,
                forall|i: int, p: int|
                    0 <= i < deps@.len() && 0 <= p < deps@[i]@.len() ==> #[trigger] deps@[i]@[p]
                        < deps@.len(),
                kv <= kmax,
                i <= n,
                forall|p: int|
                    0 <= p < out@.len() ==> #[trigger] out@[p] < n && ready(
                        deps@,
                        resolved@,
                        out@[p] as int,
                    ) && (keys@[out@[p] as int] < kv || (keys@[out@[p] as int] == kv && out@[p]
                        < i)),
                forall|x: int|
                    #![trigger ready(deps@, resolved@, x)]
                    0 <= x < n && ready(deps@, resolved@, x) && (keys@[x] < kv || (keys@[x] == kv
                        && x < i)) ==> out@.contains(x as usize),
                forall|p: int, q: int| 0 <= p < q < out@.len() ==> key_lt(keys@, out@[p], out@[q]),
            decreases n - i,
        {
            if keys[i] == kv && is_ready(&deps[i], resolved, i) {
                let ghost before = out@;
                out.push(i);
                assert forall|x: int|
                    #![trigger ready(deps@, resolved@, x)]
                    0 <= x < n && ready(deps@, resolved@, x) && (keys@[x] < kv || (keys@[x] == kv
                        && x < i + 1)) implies out@.contains(x as usize) by {
                    if x == i {
                        assert(out@[before.len() as int] == i);
                    } else {
                        assert(before.contains(x as usize));
                        let q = choose|q: int| 0 <= q < before.len() && before[q] == x as usize;
                        assert(out@[q] == x as usize);
                    }
                }
            }
            i = i + 1;
        }
        if kv == kmax {
            break;
        }
        kv = kv + 1;
    }
    out
}

/// The keys ordering the jobs released after round `prev`: the last position in `prev`
/// of a job each waits for (0 when none).
fn release_keys(deps: &Vec<Vec<usize>>, prev: &Vec<usize>) -> (keys: Vec<usize>)
    ensures
        keys@.len() == deps@.len(),
        forall|i: int| 0 <= i < keys@.len() ==> #[trigger] keys@[i] <= prev@.len(),
{
    let mut keys: Vec<usize> = Vec::new();
    let mut i: usize = 0;
    while i < deps.len()
        invariant
            i <= deps@.len(),
            keys@.len() == i,
            forall|x: int| 0 <= x < i ==> #[trigger] keys@[x] <= prev@.len(),
        decreases deps@.len() - i,
    {
        let mut k: usize = 0;
        let mut p: usize = 0;
        while p < prev.len()
            invariant
                i < deps@.len(),
                p <= prev@.len(),
                k <= prev@.len(),
            decreases prev@.len() - p,
        {
            if usize_in(&deps[i], prev[p]) {
                k = p;
            }
            p = p + 1;
        }
        keys.push(k);
        i = i + 1;
    }
    keys
}

fn usize_in(v: &Vec<usize>, x: usize) -> (r: bool)
    ensures
        r == v@.contains(x),
{
    let mut i: usize = 0;
    while i < v.len()
        invariant
            i <= v@.len(),
            forall|j: int| 0 <= j < i ==> v@[j] != x,
        decreases v@.len() - i,
    {
        if v[i] == x {
            assert(v@[i as int] == x);
            return true;
        }
        i = i + 1;
    }
    false
}

/// The planned job is a copy of active job `i`, from no matrix entry.
pub open spec fn planned_is(pj: PlannedJob, a: Seq<(Seq<char>, JobView)>, i: int) -> bool {
    0 <= i < a.len() && pj.name@ == a[i].0 && pj.job@ == a[i].1 && pj.matrix_entry is None
}

/// A stage of the plan holds the jobs `ge.1` under the name `ge.0`.
pub open spec fn stage_is(st: Stage, ge: (Seq<char>, Seq<int>), a: Seq<(Seq<char>, JobView)>) -> bool {
    &&& st.name@ == ge.0
    &&& st.jobs@.len() == ge.1.len()
    &&& forall|m: int| 0 <= m < ge.1.len() ==> planned_is(#[trigger] st.jobs@[m], a, ge.1[m])
}

/// The plan's stages, each as its name and the active positions of its jobs.
pub open spec fn plan_is(plan: Seq<Stage>, g: Seq<(Seq<char>, Seq<int>)>, a: Seq<(Seq<char>, JobView)>) -> bool {
    plan.len() == g.len() && forall|k: int| 0 <= k < g.len() ==> stage_is(#[trigger] plan[k], g[k], a)
}

pub open spec fn in_plan(g: Seq<(Seq<char>, Seq<int>)>, i: int) -> bool {
    exists|k: int, m: int| 0 <= k < g.len() && 0 <= m < g[k].1.len() && #[trigger] g[k].1[m] == i
}

/// Job `i` runs in round `t`: within the first `t` rounds and not within the first
/// `t - 1`.
pub open spec fn runs_in(a: Seq<(Seq<char>, JobView)>, order: Seq<Seq<char>>, i: int, t: nat) -> bool {
    done_by(a, order, i, t) && (t == 0 || !done_by(a, order, i, (t - 1) as nat))
}

/// The plan's entries, with their rounds: each entry holds, under a listed stage's
/// name, jobs of that stage that all run in the entry's round; the entries come by
/// round and, within a round, by the stage's position in the stage list; no job is in
/// two places.
pub open spec fn plan_layers(
    g: Seq<(Seq<char>, Seq<int>)>,
    rounds: Seq<nat>,
    a: Seq<(Seq<char>, JobView)>,
    order: Seq<Seq<char>>,
) -> bool {
    &&& g.len() == rounds.len()
    &&& forall|k: int| 0 <= k < g.len() ==> (#[trigger] g[k]).1.len() > 0 && seq_pos(order, g[k].0) >= 0
    &&& forall|k: int, m: int|
        0 <= k < g.len() && 0 <= m < g[k].1.len() ==> 0 <= #[trigger] g[k].1[m] < a.len()
            && a[g[k].1[m]].1.stage == g[k].0 && runs_in(a, order, g[k].1[m], rounds[k])
    &&& forall|k1: int, k2: int|
        #![trigger rounds[k1], rounds[k2]]
        0 <= k1 < k2 < g.len() ==> rounds[k1] < rounds[k2] || (rounds[k1] == rounds[k2] && seq_pos(
            order,
            g[k1].0,
        ) < seq_pos(order, g[k2].0))
    &&& forall|k1: int, m1: int, k2: int, m2: int|
        0 <= k1 < g.len() && 0 <= m1 < g[k1].1.len() && 0 <= k2 < g.len() && 0 <= m2 < g[k2].1.len()
            && (k1 != k2 || m1 != m2) ==> #[trigger] g[k1].1[m1] != #[trigger] g[k2].1[m2]
}

/// The plan holds exactly the jobs of listed stages that ran within `r` rounds.
pub open spec fn plan_done(
    g: Seq<(Seq<char>, Seq<int>)>,
    a: Seq<(Seq<char>, JobView)>,
    order: Seq<Seq<char>>,
    r: nat,
) -> bool {
    &&& forall|k: int, m: int|
        0 <= k < g.len() && 0 <= m < g[k].1.len() ==> done_by(a, order, #[trigger] g[k].1[m], r)
    &&& forall|i: int|
        0 <= i < a.len() && done_by(a, order, i, r) && seq_pos(order, a[i].1.stage) >= 0 ==> #[trigger] in_plan(g, i)
}

/// Whether position `i` is one of the batch's.
pub open spec fn in_batch(batch: Seq<usize>, i: int) -> bool {
    exists|q: int| 0 <= q < batch.len() && #[trigger] batch[q] as int == i
}

/// The jobs of `batch` whose stage is `stage`, in batch order, with their positions.
fn stage_group(batch: &Vec<usize>, active: &IndexMap<String, Job>, stage: &str) -> (r: (
    Vec<PlannedJob>,
    Ghost<Seq<int>>,
))
    requires
        forall|q: int| 0 <= q < batch@.len() ==> #[trigger] batch@[q] < job_entries(*active).len(),
        forall|p: int, q: int| 0 <= p < q < batch@.len() ==> batch@[p] != batch@[q],
    ensures
        r.0@.len() == r.1@.len(),
        forall|m: int| 0 <= m < r.1@.len() ==> planned_is(#[trigger] r.0@[m], job_entries(*active), r.1@[m]),
        forall|m: int|
            0 <= m < r.1@.len() ==> in_batch(batch@, #[trigger] r.1@[m]) && job_entries(
                *active,
            )[r.1@[m]].1.stage == stage@,
        forall|q: int|
            0 <= q < batch@.len() && job_entries(*active)[#[trigger] batch@[q] as int].1.stage
                == stage@ ==> r.1@.contains(batch@[q] as int),
        forall|m1: int, m2: int| 0 <= m1 < m2 < r.1@.len() ==> r.1@[m1] != r.1@[m2],
{
    let ghost a = job_entries(*active);
    let mut jobs: Vec<PlannedJob> = Vec::new();
    let ghost mut gi: Seq<int> = Seq::empty();
    let mut q: usize = 0;
    while q < batch.len()
        invariant
            a == job_entries(*active),
            forall|q: int| 0 <= q < batch@.len() ==> #[trigger] batch@[q] < a.len(),
            forall|p: int, q: int| 0 <= p < q < batch@.len() ==> batch@[p] != batch@[q],
            q <= batch@.len(),
            jobs@.len() == gi.len(),
            forall|m: int| 0 <= m < gi.len() ==> planned_is(#[trigger] jobs@[m], a, gi[m]),
            forall|m: int|
                0 <= m < gi.len() ==> in_batch(batch@.subrange(0, q as int), #[trigger] gi[m])
                    && 0 <= gi[m] && a[gi[m]].1.stage == stage@,
            forall|x: int|
                0 <= x < q && a[#[trigger] batch@[x] as int].1.stage == stage@ ==> gi.contains(
                    batch@[x] as int,
                ),
            forall|m1: int, m2: int| 0 <= m1 < m2 < gi.len() ==> gi[m1] != gi[m2],
        decreases batch@.len() - q,
    {
        let i = batch[q];
        let (name, job) = jobs_get_index(active, i);
        let ghost before = gi;
        if str_eq(job.stage.as_str(), stage) {
            jobs.push(PlannedJob { name: name.clone(), job: job.clone(), matrix_entry: None });
            proof {
                gi = gi.push(i as int);
                assert forall|m: int| 0 <= m < gi.len() implies in_batch(batch@.subrange(0, q + 1),
                    #[trigger] gi[m],
                ) by {
                    if m < before.len() {
                        let w = choose|w: int|
                            0 <= w < q && #[trigger] batch@.subrange(0, q as int)[w] as int == before[m];
                        assert(batch@.subrange(0, q + 1)[w] as int == before[m]);
                    } else {
                        assert(batch@.subrange(0, q + 1)[q as int] as int == i as int);
                    }
                }
                assert forall|m1: int, m2: int| 0 <= m1 < m2 < gi.len() implies gi[m1] != gi[m2] by {
                    if m2 == before.len() {
                        let w = choose|w: int|
                            0 <= w < q && #[trigger] batch@.subrange(0, q as int)[w] as int == before[m1];
                        assert(batch@[w] != batch@[q as int]);
                    }
                }
                assert forall|x: int|
                    0 <= x < q + 1 && a[#[trigger] batch@[x] as int].1.stage == stage@ implies gi.contains(
                        batch@[x] as int,
                    ) by {
                    if x < q {
                        assert(before.contains(batch@[x] as int));
                        let w = choose|w: int| 0 <= w < before.len() && before[w] == batch@[x] as int;
                        assert(gi[w] == batch@[x] as int);
                    } else {
                        assert(gi[before.len() as int] == batch@[x] as int);
                    }
                }
            }
        } else {
            proof {
                assert forall|m: int| 0 <= m < gi.len() implies in_batch(batch@.subrange(0, q + 1),
                    #[trigger] gi[m],
                ) by {
                    let w = choose|w: int|
                        0 <= w < q && #[trigger] batch@.subrange(0, q as int)[w] as int == gi[m];
                    assert(batch@.subrange(0, q + 1)[w] as int == gi[m]);
                }
            }
        }
        q = q + 1;
    }
    proof {
        assert(batch@.subrange(0, batch@.len() as int) =~= batch@);
    }
    (jobs, Ghost(gi))
}

/// Add one round's jobs to the plan: for each listed stage, in stage order, its jobs of
/// the round form a new entry at the end.
fn place_batch(
    plan: &mut Vec<Stage>,
    batch: &Vec<usize>,
    stage_order: &[String],
    active: &IndexMap<String, Job>,
    Ghost(g): Ghost<Seq<(Seq<char>, Seq<int>)>>,
    Ghost(rounds): Ghost<Seq<nat>>,
    Ghost(r): Ghost<nat>,
) -> (out: Ghost<(Seq<(Seq<char>, Seq<int>)>, Seq<nat>)>)
    requires
        plan_is(old(plan)@, g, job_entries(*active)),
        plan_layers(g, rounds, job_entries(*active), views(stage_order@)),
        plan_done(g, job_entries(*active), views(stage_order@), r),
        forall|k: int| 0 <= k < rounds.len() ==> #[trigger] rounds[k] <= r,
        forall|q: int|
            0 <= q < batch@.len() ==> #[trigger] batch@[q] < job_entries(*active).len() && !done_by(
                job_entries(*active),
                views(stage_order@),
                batch@[q] as int,
                r,
            ) && done_by(job_entries(*active), views(stage_order@), batch@[q] as int, r + 1),
        forall|p: int, q: int| 0 <= p < q < batch@.len() ==> batch@[p] != batch@[q],
        forall|i: int|
            0 <= i < job_entries(*active).len() && done_by(job_entries(*active), views(stage_order@), i, r + 1)
                && !done_by(job_entries(*active), views(stage_order@), i, r) ==> in_batch(batch@, i),
    ensures
        plan_is(final(plan)@, out@.0, job_entries(*active)),
        plan_layers(out@.0, out@.1, job_entries(*active), views(stage_order@)),
        plan_done(out@.0, job_entries(*active), views(stage_order@), r + 1),
        forall|k: int| 0 <= k < out@.1.len() ==> #[trigger] out@.1[k] <= r + 1,
{
    let ghost a = job_entries(*active);
    let ghost ord = views(stage_order@);
    let ghost mut gc = g;
    let ghost mut rc = rounds;
    proof {
        assert forall|q: int|
            0 <= q < batch@.len() implies !in_plan(gc, #[trigger] batch@[q] as int) by {
            if in_plan(gc, batch@[q] as int) {
                let (k, m) = choose|k: int, m: int|
                    0 <= k < gc.len() && 0 <= m < gc[k].1.len() && #[trigger] gc[k].1[m] == batch@[q] as int;
                assert(done_by(a, ord, gc[k].1[m], r));
            }
        }
    }
    let mut p: usize = 0;
    while p < stage_order.len()
        invariant
            a == job_entries(*active),
            ord == views(stage_order@),
            ord.len() == stage_order@.len(),
            p <= stage_order@.len(),
            plan_is(plan@, gc, a),
            plan_layers(gc, rc, a, ord),
            gc.len() >= g.len(),
            rc.len() == gc.len(),
            forall|k: int| 0 <= k < g.len() ==> #[trigger] gc[k] == g[k],
            forall|k: int| 0 <= k < g.len() ==> #[trigger] rc[k] == rounds[k],
            forall|k: int| g.len() <= k < gc.len() ==> #[trigger] rc[k] == r + 1,
            forall|k: int| g.len() <= k < gc.len() ==> seq_pos(ord, (#[trigger] gc[k]).0) < p,
            forall|q: int|
                0 <= q < batch@.len() && 0 <= seq_pos(ord, a[#[trigger] batch@[q] as int].1.stage) < p
                    ==> in_plan(gc, batch@[q] as int),
            forall|q: int|
                0 <= q < batch@.len() && seq_pos(ord, a[#[trigger] batch@[q] as int].1.stage) >= p
                    ==> !in_plan(gc, batch@[q] as int),
            // the call's preconditions, restated for the loop
            plan_layers(g, rounds, a, ord),
            plan_done(g, a, ord, r),
            forall|k: int| 0 <= k < rounds.len() ==> #[trigger] rounds[k] <= r,
            forall|q: int|
                0 <= q < batch@.len() ==> #[trigger] batch@[q] < a.len() && !done_by(a, ord, batch@[q] as int, r)
                    && done_by(a, ord, batch@[q] as int, r + 1),
            forall|p: int, q: int| 0 <= p < q < batch@.len() ==> batch@[p] != batch@[q],
        decreases stage_order@.len() - p,
    {
        let name = &stage_order[p];
        assert(ord[p as int] == name@);
        let first = match stage_position(stage_order, name.as_str()) {
            Some(x) => x == p,
            None => false,
        };
        proof {
            lemma_seq_pos_from(ord, name@, 0);
        }
        let mut placed = false;
        if first {
            let (group, Ghost(gi)) = stage_group(batch, active, name.as_str());
            if group.len() > 0 {
                let ghost old_gc = gc;
                let ghost old_rc = rc;
                let ghost old_plan = plan@;
                plan.push(Stage { name: name.clone(), jobs: group });
                placed = true;
                proof {
                    gc = old_gc.push((name@, gi));
                    rc = old_rc.push(r + 1);
                    let nk = old_gc.len() as int;
                    assert forall|x: int| 0 <= x < gc.len() implies stage_is(#[trigger] plan@[x], gc[x], a) by {
                        if x < old_gc.len() {
                            assert(stage_is(old_plan[x], old_gc[x], a));
                        }
                    }
                    assert forall|m: int| 0 <= m < gi.len() implies 0 <= #[trigger] gi[m] < a.len()
                        && !done_by(a, ord, gi[m], r) && done_by(a, ord, gi[m], r + 1) by {
                        let q = choose|q: int| 0 <= q < batch@.len() && #[trigger] batch@[q] as int == gi[m];
                    }
                    assert forall|k: int, m: int|
                        0 <= k < gc.len() && 0 <= m < gc[k].1.len() implies 0 <= #[trigger] gc[k].1[m] < a.len()
                            && a[gc[k].1[m]].1.stage == gc[k].0 && runs_in(a, ord, gc[k].1[m], rc[k]) by {
                        if k < nk {
                            assert(gc[k] == old_gc[k]);
                        } else {
                            assert(gc[k].1 == gi);
                            assert((r + 1 - 1) as nat == r);
                        }
                    }
                    assert forall|k1: int, k2: int|
                        #![trigger rc[k1], rc[k2]]
                        0 <= k1 < k2 < gc.len() implies rc[k1] < rc[k2] || (rc[k1] == rc[k2] && seq_pos(
                            ord,
                            gc[k1].0,
                        ) < seq_pos(ord, gc[k2].0)) by {
                        if k2 < nk {
                            assert(old_rc[k1] == rc[k1] && old_rc[k2] == rc[k2]);
                            assert(old_gc[k1] == gc[k1] && old_gc[k2] == gc[k2]);
                        } else if k1 < g.len() {
                            assert(rc[k1] == rounds[k1]);
                        } else {
                            assert(old_gc[k1] == gc[k1]);
                        }
                    }
                    assert forall|k1: int, m1: int, k2: int, m2: int|
                        0 <= k1 < gc.len() && 0 <= m1 < gc[k1].1.len() && 0 <= k2 < gc.len() && 0 <= m2
                            < gc[k2].1.len() && (k1 != k2 || m1 != m2) implies #[trigger] gc[k1].1[m1]
                        != #[trigger] gc[k2].1[m2] by {
                        if k1 < nk && k2 < nk {
                            assert(old_gc[k1] == gc[k1] && old_gc[k2] == gc[k2]);
                            assert(old_gc[k1].1[m1] != old_gc[k2].1[m2]);
                        } else if k1 < nk {
                            // k2 is the new entry
                            assert(gc[k1] == old_gc[k1]);
                            if k1 < g.len() {
                                assert(gc[k1] == g[k1]);
                                assert(done_by(a, ord, g[k1].1[m1], r));
                            } else {
                                assert(seq_pos(ord, gc[k1].0) < p);
                            }
                        } else if k2 < nk {
                            assert(gc[k2] == old_gc[k2]);
                            if k2 < g.len() {
                                assert(gc[k2] == g[k2]);
                                assert(done_by(a, ord, g[k2].1[m2], r));
                            } else {
                                assert(seq_pos(ord, gc[k2].0) < p);
                            }
                        }
                    }
                    assert(plan_layers(gc, rc, a, ord));
                    assert forall|q: int|
                        0 <= q < batch@.len() && 0 <= seq_pos(ord, a[#[trigger] batch@[q] as int].1.stage) < p + 1
                            implies in_plan(gc, batch@[q] as int) by {
                        if seq_pos(ord, a[batch@[q] as int].1.stage) == p {
                            lemma_seq_pos_from(ord, a[batch@[q] as int].1.stage, 0);
                            assert(gi.contains(batch@[q] as int));
                            let m = choose|m: int| 0 <= m < gi.len() && gi[m] == batch@[q] as int;
                            assert(gc[nk].1[m] == batch@[q] as int);
                        } else {
                            let (k, m) = choose|k: int, m: int|
                                0 <= k < old_gc.len() && 0 <= m < old_gc[k].1.len()
                                    && #[trigger] old_gc[k].1[m] == batch@[q] as int;
                            assert(gc[k].1[m] == batch@[q] as int);
                        }
                    }
                    assert forall|q: int|
                        0 <= q < batch@.len() && seq_pos(ord, a[#[trigger] batch@[q] as int].1.stage) >= p + 1
                            implies !in_plan(gc, batch@[q] as int) by {
                        if in_plan(gc, batch@[q] as int) {
                            let (k, m) = choose|k: int, m: int|
                                0 <= k < gc.len() && 0 <= m < gc[k].1.len() && #[trigger] gc[k].1[m]
                                    == batch@[q] as int;
                            if k < nk {
                                assert(old_gc[k].1[m] == batch@[q] as int);
                            } else {
                                assert(a[gi[m]].1.stage == name@);
                            }
                        }
                    }
                }
            }
        }
        if !placed {
            proof {
                assert forall|q: int|
                    0 <= q < batch@.len() && 0 <= seq_pos(ord, a[#[trigger] batch@[q] as int].1.stage) < p + 1
                        implies in_plan(gc, batch@[q] as int) by {
                    if seq_pos(ord, a[batch@[q] as int].1.stage) == p {
                        lemma_seq_pos_from(ord, a[batch@[q] as int].1.stage, 0);
                        assert(ord[p as int] == a[batch@[q] as int].1.stage);
                    }
                }
            }
        }
        p = p + 1;
    }
    proof {
        assert forall|k: int, m: int|
            0 <= k < gc.len() && 0 <= m < gc[k].1.len() implies done_by(a, ord, #[trigger] gc[k].1[m], r + 1) by {
            if k < g.len() {
                assert(gc[k] == g[k]);
                lemma_done_mono(a, ord, g[k].1[m], r);
            } else {
                assert(runs_in(a, ord, gc[k].1[m], rc[k]));
            }
        }
        assert forall|i: int|
            0 <= i < a.len() && done_by(a, ord, i, r + 1) && seq_pos(ord, a[i].1.stage) >= 0 implies #[trigger] in_plan(
            gc,
            i,
        ) by {
            if done_by(a, ord, i, r) {
                assert(in_plan(g, i));
                let (k, m) = choose|k: int, m: int|
                    0 <= k < g.len() && 0 <= m < g[k].1.len() && #[trigger] g[k].1[m] == i;
                assert(gc[k] == g[k]);
                assert(gc[k].1[m] == i);
            } else {
                assert(in_batch(batch@, i));
                let q = choose|q: int| 0 <= q < batch@.len() && #[trigger] batch@[q] as int == i;
                lemma_seq_pos_from(ord, a[i].1.stage, 0);
                assert(a[batch@[q] as int].1.stage == a[i].1.stage);
            }
        }
        assert forall|k: int| 0 <= k < rc.len() implies #[trigger] rc[k] <= r + 1 by {
            if k < g.len() {
                assert(rc[k] == rounds[k]);
            }
        }
    }
    Ghost((gc, rc))
}

/// Number of `false` entries.
pub open spec fn count_false(s: Seq<bool>) -> nat
    decreases s.len(),
{
    if s.len() == 0 {
        0
    } else {
        count_false(s.drop_last()) + if s.last() {
            0nat
        } else {
            1nat
        }
    }
}

pub proof fn lemma_count_false_update(s: Seq<bool>, i: int)
    requires
        0 <= i < s.len(),
        !s[i],
    ensures
        count_false(s.update(i, true)) + 1 == count_false(s),
    decreases s.len(),
{
    let t = s.update(i, true);
    if i == s.len() - 1 {
        assert(t.drop_last() =~= s.drop_last());
    } else {
        assert(t.drop_last() =~= s.drop_last().update(i, true));
        lemma_count_false_update(s.drop_last(), i);
    }
}

pub proof fn lemma_count_false_all(n: nat)
    ensures
        count_false(Seq::new(n, |i: int| false)) == n,
    decreases n,
{
    if n > 0 {
        assert(Seq::new(n, |i: int| false).drop_last() =~= Seq::new((n - 1) as nat, |i: int| false));
        lemma_count_false_all((n - 1) as nat);
    }
}

/// The names of the active jobs that never run, in order.
pub open spec fn unresolved_names(a: Seq<(Seq<char>, JobView)>, order: Seq<Seq<char>>, k: int) -> Seq<
    Seq<char>,
>
    decreases k,
{
    if k <= 0 {
        Seq::empty()
    } else {
        let prev = unresolved_names(a, order, k - 1);
        if resolvable(a, order, k - 1) {
            prev
        } else {
            prev.push(a[k - 1].0)
        }
    }
}

/// When a round runs nothing new, exactly the jobs that ran so far ever run.
pub proof fn lemma_resolvable_iff(a: Seq<(Seq<char>, JobView)>, order: Seq<Seq<char>>, r: nat, i: int)
    requires
        forall|j: int| 0 <= j < a.len() ==> done_by(a, order, j, r + 1) == done_by(a, order, j, r),
        0 <= i < a.len(),
    ensures
        resolvable(a, order, i) == done_by(a, order, i, r),
{
    if resolvable(a, order, i) {
        let t = choose|t: nat| done_by(a, order, i, t);
        if t <= r {
            lemma_done_mono_le(a, order, i, t, r);
        } else {
            lemma_done_stable(a, order, r, t, i);
        }
    }
}

/// Whether job `i` is ready in round `r` is whether it runs in that round.
pub proof fn lemma_ready_iff(
    a: Seq<(Seq<char>, JobView)>,
    order: Seq<Seq<char>>,
    deps: Seq<Vec<usize>>,
    resolved: Seq<bool>,
    r: nat,
    i: int,
)
    requires
        deps.len() == a.len(),
        resolved.len() == a.len(),
        a.len() <= usize::MAX,
        0 <= i < a.len(),
        forall|x: int| 0 <= x < a.len() ==> resolved[x] == done_by(a, order, x, r),
        forall|x: int, p: int|
            0 <= x < deps.len() && 0 <= p < deps[x]@.len() ==> deps[x]@[p] < deps.len() && depends(
                a,
                order,
                x,
                #[trigger] deps[x]@[p] as int,
            ),
        forall|x: int, j: int|
            0 <= x < deps.len() && 0 <= j < deps.len() && #[trigger] depends(a, order, x, j)
                ==> deps[x]@.contains(j as usize),
    ensures
        ready(deps, resolved, i) == (!done_by(a, order, i, r) && done_by(a, order, i, r + 1)),
{
    if ready(deps, resolved, i) {
        assert forall|j: int| 0 <= j < a.len() && #[trigger] depends(a, order, i, j) implies done_by(
            a,
            order,
            j,
            r,
        ) by {
            assert(deps[i]@.contains(j as usize));
            let p = choose|p: int| 0 <= p < deps[i]@.len() && deps[i]@[p] == j as usize;
            assert(resolved[deps[i]@[p] as int]);
        }
    }
    if done_by(a, order, i, r + 1) {
        assert forall|p: int| 0 <= p < deps[i]@.len() implies resolved[#[trigger] deps[i]@[p] as int] by {
            assert(depends(a, order, i, deps[i]@[p] as int));
        }
    }
}

/// A plan that places every active job of a listed stage once: the jobs run in rounds,
/// and each round's jobs form one entry per stage, the entries ordered by round and,
/// within a round, by the stage's position in the stage list. A job comes in a later
/// entry than every job it waits for, and the jobs of one entry wait for none of each
/// other.
pub open spec fn plan_of(stages: Seq<Stage>, a: Seq<(Seq<char>, JobView)>, order: Seq<Seq<char>>) -> bool {
    exists|g: Seq<(Seq<char>, Seq<int>)>, rounds: Seq<nat>|
        plan_is(stages, g, a) && plan_layers(g, rounds, a, order) && (forall|i: int|
            0 <= i < a.len() && seq_pos(order, a[i].1.stage) >= 0 ==> #[trigger] in_plan(g, i))
}

/// In a plan, every job comes in a later stage than each job it waits for: a job
/// with `needs:` after the jobs it needs, one without after every job of an earlier
/// stage. Jobs of one stage therefore never wait for each other.
pub proof fn law_plan_respects_dependencies(
    stages: Seq<Stage>,
    a: Seq<(Seq<char>, JobView)>,
    order: Seq<Seq<char>>,
    k1: int,
    m1: int,
    k2: int,
    m2: int,
)
    requires
        unique_keys(a),
        plan_of(stages, a, order),
        0 <= k1 < stages.len(),
        0 <= m1 < stages[k1].jobs@.len(),
        0 <= k2 < stages.len(),
        0 <= m2 < stages[k2].jobs@.len(),
        depends(
            a,
            order,
            key_index(a, stages[k1].jobs@[m1].name@),
            key_index(a, stages[k2].jobs@[m2].name@),
        ),
    ensures
        k2 < k1,
{
    let (g, rounds) = choose|g: Seq<(Seq<char>, Seq<int>)>, rounds: Seq<nat>|
        plan_is(stages, g, a) && plan_layers(g, rounds, a, order) && (forall|i: int|
            0 <= i < a.len() && seq_pos(order, a[i].1.stage) >= 0 ==> #[trigger] in_plan(g, i));
    assert(stage_is(stages[k1], g[k1], a));
    assert(stage_is(stages[k2], g[k2], a));
    let i1 = g[k1].1[m1];
    let i2 = g[k2].1[m2];
    assert(planned_is(stages[k1].jobs@[m1], a, i1));
    assert(planned_is(stages[k2].jobs@[m2], a, i2));
    lemma_key_index_is(a, a[i1].0, i1);
    lemma_key_index_is(a, a[i2].0, i2);
    let t1 = rounds[k1];
    let t2 = rounds[k2];
    assert(runs_in(a, order, i1, t1));
    assert(runs_in(a, order, i2, t2));
    // i1 ran within t1 rounds, so i2, which it waits for, ran within t1 - 1
    assert(done_by(a, order, i2, (t1 - 1) as nat));
    if t1 - 1 < t2 - 1 {
        lemma_done_mono_le(a, order, i2, (t1 - 1) as nat, (t2 - 1) as nat);
    }
    assert(t2 < t1);
    if k1 < k2 {
        assert(rounds[k1] <= rounds[k2]);
    }
}

/// Build ordered stages from active jobs. A job with `needs:` waits only for the jobs
/// it needs; one without waits for every job of an earlier stage. Jobs run in rounds
/// (each round every job whose dependencies all ran); a job that never runs is on or
/// behind a dependency cycle.
fn build_stages(stage_order: &[String], active: &IndexMap<String, Job>) -> (r: Result<
    Vec<Stage>,
    LabError,
>)
    ensures
        match r {
            Ok(stages) => (forall|i: int|
                0 <= i < job_entries(*active).len() ==> #[trigger] resolvable(
                    job_entries(*active),
                    views(stage_order@),
                    i,
                )) && plan_of(stages@, job_entries(*active), views(stage_order@)),
            Err(e) => (exists|i: int|
                0 <= i < job_entries(*active).len() && !#[trigger] resolvable(
                    job_entries(*active),
                    views(stage_order@),
                    i,
                )) && (e matches LabError::CircularDependency(msg) && msg@ == joined(
                unresolved_names(
                    job_entries(*active),
                    views(stage_order@),
                    job_entries(*active).len() as int,
                ),
                ", "@,
            )),
        },
{
    let ghost a = job_entries(*active);
    let ghost ord = views(stage_order@);
    let n = jobs_len(active);
    let deps = dependency_lists(stage_order, active);
    let mut resolved: Vec<bool> = Vec::new();
    let mut i: usize = 0;
    while i < n
        invariant
            i <= n,
            resolved@ == Seq::new(i as nat, |x: int| false),
        decreases n - i,
    {
        resolved.push(false);
        i = i + 1;
        assert(resolved@ =~= Seq::new(i as nat, |x: int| false));
    }
    proof {
        lemma_count_false_all(n as nat);
    }
    let mut keys: Vec<usize> = Vec::new();
    let mut i: usize = 0;
    while i < n
        invariant
            n == a.len(),
            a == job_entries(*active),
            ord == views(stage_order@),
            i <= n,
            keys@.len() == i,
            forall|x: int| 0 <= x < i ==> #[trigger] keys@[x] <= stage_order@.len(),
        decreases n - i,
    {
        let (_, job) = jobs_get_index(active, i);
        proof {
            lemma_seq_pos_from(ord, job.stage@, 0);
        }
        let key = match stage_position(stage_order, job.stage.as_str()) {
            Some(p) => p,
            None => stage_order.len(),
        };
        keys.push(key);
        i = i + 1;
    }
    let mut kmax: usize = stage_order.len();
    let mut plan: Vec<Stage> = Vec::new();
    let ghost mut g: Seq<(Seq<char>, Seq<int>)> = Seq::empty();
    let ghost mut rounds: Seq<nat> = Seq::empty();
    let ghost mut r: nat = 0;
    let mut remaining: usize = n;
    loop
        invariant
            n == a.len(),
            a == job_entries(*active),
            ord == views(stage_order@),
            deps@.len() == n,
            forall|x: int, p: int|
                0 <= x < deps@.len() && 0 <= p < deps@[x]@.len() ==> deps@[x]@[p] < deps@.len()
                    && depends(a, ord, x, #[trigger] deps@[x]@[p] as int),
            forall|x: int, j: int|
                0 <= x < deps@.len() && 0 <= j < deps@.len() && #[trigger] depends(a, ord, x, j)
                    ==> deps@[x]@.contains(j as usize),
            resolved@.len() == n,
            forall|x: int| 0 <= x < n ==> resolved@[x] == done_by(a, ord, x, r),
            remaining == count_false(resolved@),
            keys@.len() == n,
            forall|x: int| 0 <= x < n ==> #[trigger] keys@[x] <= kmax,
            plan_is(plan@, g, a),
            plan_layers(g, rounds, a, ord),
            plan_done(g, a, ord, r),
            forall|k: int| 0 <= k < rounds.len() ==> #[trigger] rounds[k] <= r,
        ensures
            resolved@.len() == n,
            forall|x: int| 0 <= x < n ==> resolved@[x] == done_by(a, ord, x, r),
            forall|x: int| 0 <= x < n ==> #[trigger] resolvable(a, ord, x) == done_by(a, ord, x, r),
            plan_is(plan@, g, a),
            plan_layers(g, rounds, a, ord),
            plan_done(g, a, ord, r),
        decreases remaining,
    {
        assert forall|x: int, p: int|
            0 <= x < deps@.len() && 0 <= p < deps@[x]@.len() implies #[trigger] deps@[x]@[p] < deps@.len() by {
        }
        let batch = next_batch(&deps, &resolved, &keys, kmax);
        proof {
            assert forall|x: int| 0 <= x < n implies #[trigger] ready(deps@, resolved@, x) == (!done_by(
                a,
                ord,
                x,
                r,
            ) && done_by(a, ord, x, r + 1)) by {
                lemma_ready_iff(a, ord, deps@, resolved@, r, x);
            }
        }
        if batch.len() == 0 {
            proof {
                assert forall|x: int| 0 <= x < a.len() implies done_by(a, ord, x, r + 1) == done_by(
                    a,
                    ord,
                    x,
                    r,
                ) by {
                    if done_by(a, ord, x, r + 1) && !done_by(a, ord, x, r) {
                        assert(ready(deps@, resolved@, x));
                        assert(batch@.contains(x as usize));
                    }
                    if done_by(a, ord, x, r) {
                        lemma_done_mono(a, ord, x, r);
                    }
                }
                assert forall|x: int| 0 <= x < a.len() implies #[trigger] resolvable(a, ord, x) == done_by(
                    a,
                    ord,
                    x,
                    r,
                ) by {
                    lemma_resolvable_iff(a, ord, r, x);
                }
            }
            break;
        }
        proof {
            assert forall|q: int| 0 <= q < batch@.len() implies #[trigger] batch@[q] < a.len() && !done_by(
                a,
                ord,
                batch@[q] as int,
                r,
            ) && done_by(a, ord, batch@[q] as int, r + 1) by {
                assert(ready(deps@, resolved@, batch@[q] as int));
            }
            assert forall|p: int, q: int| 0 <= p < q < batch@.len() implies batch@[p] != batch@[q] by {
                assert(key_lt(keys@, batch@[p], batch@[q]));
            }
            assert forall|x: int|
                0 <= x < a.len() && done_by(a, ord, x, r + 1) && !done_by(a, ord, x, r) implies in_batch(
                batch@,
                x,
            ) by {
                assert(ready(deps@, resolved@, x));
                assert(batch@.contains(x as usize));
                let q = choose|q: int| 0 <= q < batch@.len() && batch@[q] == x as usize;
                assert(batch@[q] as int == x);
            }
        }
        let Ghost(placed) = place_batch(&mut plan, &batch, stage_order, active, Ghost(g), Ghost(rounds), Ghost(r));
        proof {
            g = placed.0;
            rounds = placed.1;
        }
        // mark the round's jobs as run
        let ghost res0 = resolved@;
        let mut q: usize = 0;
        while q < batch.len()
            invariant
                n == a.len(),
                resolved@.len() == n,
                q <= batch@.len(),
                forall|y: int| 0 <= y < batch@.len() ==> #[trigger] batch@[y] < n,
                forall|p: int, y: int| 0 <= p < y < batch@.len() ==> batch@[p] != batch@[y],
                forall|y: int| q <= y < batch@.len() ==> !resolved@[#[trigger] batch@[y] as int],
                forall|x: int|
                    0 <= x < n ==> resolved@[x] == (res0[x] || batch@.subrange(0, q as int).contains(
                        x as usize,
                    )),
                count_false(resolved@) + q == count_false(res0),
            decreases batch@.len() - q,
        {
            let j = batch[q];
            proof {
                lemma_count_false_update(resolved@, j as int);
            }
            let ghost before = resolved@;
            let ghost q0 = q as int;
            resolved.set(j, true);
            q = q + 1;
            proof {
                let pre = batch@.subrange(0, q0);
                let post = batch@.subrange(0, q as int);
                assert(post =~= pre.push(j));
                assert forall|x: int| 0 <= x < n implies resolved@[x] == (res0[x] || batch@.subrange(
                    0,
                    q as int,
                ).contains(x as usize)) by {
                    if x == j as int {
                        assert(post[q0] == j);
                        assert(post.contains(x as usize));
                    } else {
                        assert(resolved@[x] == before[x]);
                        assert(before[x] == (res0[x] || pre.contains(x as usize)));
                        if post.contains(x as usize) {
                            let y = choose|y: int| 0 <= y < post.len() && post[y] == x as usize;
                            assert(y < q0);
                            assert(pre[y] == x as usize);
                        }
                        if pre.contains(x as usize) {
                            let y = choose|y: int| 0 <= y < pre.len() && pre[y] == x as usize;
                            assert(post[y] == x as usize);
                        }
                    }
                }
                assert forall|y: int| q <= y < batch@.len() implies !resolved@[#[trigger] batch@[y] as int] by {
                    assert(batch@[y] != batch@[q0]);
                }
            }
        }
        proof {
            assert forall|x: int| 0 <= x < n implies resolved@[x] == done_by(a, ord, x, r + 1) by {
                if done_by(a, ord, x, r) {
                    lemma_done_mono(a, ord, x, r);
                }
                assert(batch@.subrange(0, batch@.len() as int) =~= batch@);
                if resolved@[x] && !res0[x] {
                    let y = choose|y: int| 0 <= y < batch@.len() && batch@[y] == x as usize;
                    assert(done_by(a, ord, batch@[y] as int, r + 1));
                }
                if done_by(a, ord, x, r + 1) && !done_by(a, ord, x, r) {
                    assert(ready(deps@, res0, x));
                    assert(batch@.contains(x as usize));
                    let y = choose|y: int| 0 <= y < batch@.len() && batch@[y] == x as usize;
                    assert(batch@[y] as int == x);
                }
            }
            r = r + 1;
        }
        remaining = remaining - batch.len();
        keys = release_keys(&deps, &batch);
        kmax = batch.len();
    }
    // every job ran: the plan is complete
    let mut unresolved: Vec<String> = Vec::new();
    let mut i: usize = 0;
    let ghost nm = unresolved_names(a, ord, 0);
    while i < n
        invariant
            n == a.len(),
            a == job_entries(*active),
            ord == views(stage_order@),
            resolved@.len() == n,
            forall|x: int| 0 <= x < n ==> resolved@[x] == resolvable(a, ord, x),
            i <= n,
            views(unresolved@) == unresolved_names(a, ord, i as int),
        decreases n - i,
    {
        if !resolved[i] {
            let (name, _) = jobs_get_index(active, i);
            unresolved.push(name.clone());
            assert(views(unresolved@) =~= unresolved_names(a, ord, i + 1));
        } else {
            assert(views(unresolved@) =~= unresolved_names(a, ord, i + 1));
        }
        i = i + 1;
    }
    if unresolved.len() > 0 {
        let msg = join_strings(&unresolved, ", ");
        proof {
            lemma_unresolved_names(a, ord, n as int);
        }
        return Err(LabError::CircularDependency(msg));
    }
    proof {
        lemma_unresolved_names(a, ord, n as int);
        assert forall|x: int| 0 <= x < a.len() && seq_pos(ord, a[x].1.stage) >= 0 implies #[trigger] in_plan(
            g,
            x,
        ) by {
            assert(resolvable(a, ord, x));
            assert(done_by(a, ord, x, r));
        }
    }
    Ok(plan)
}

/// The unresolved names are empty exactly when every job is resolvable.
pub proof fn lemma_unresolved_names(a: Seq<(Seq<char>, JobView)>, order: Seq<Seq<char>>, k: int)
    requires
        0 <= k <= a.len(),
    ensures
        (unresolved_names(a, order, k).len() == 0) == (forall|i: int|
            0 <= i < k ==> #[trigger] resolvable(a, order, i)),
    decreases k,
{
    if k > 0 {
        lemma_unresolved_names(a, order, k - 1);
    }
}

// ---------------------------------------------------------------------------
// The plan
// ---------------------------------------------------------------------------
/// The jobs that will run: those passing the filters and their rules, expanded for
/// `parallel:`.
pub open spec fn active_jobs(
    jobs: Seq<(Seq<char>, JobView)>,
    vars: Seq<(Seq<char>, VariableView)>,
    job_filter: Option<Seq<char>>,
    stage_filter: Option<Seq<char>>,
    ctx: RuleContext,
) -> Seq<(Seq<char>, JobView)> {
    expanded(filtered(jobs, vars, job_filter, stage_filter, ctx))
}

/// What building a plan gives: an empty plan when no job runs; else the first unknown
/// dependency as an error; else, when some job never runs, the cycle as an error; else
/// the plan of the running jobs.
pub open spec fn plan_result(
    r: Result<Plan, LabError>,
    act: Seq<(Seq<char>, JobView)>,
    all: Seq<(Seq<char>, JobView)>,
    order: Seq<Seq<char>>,
) -> bool {
    if act.len() == 0 {
        r matches Ok(p) && p.stages@.len() == 0
    } else {
        match first_unknown_dependency(act, all, 0) {
            Some((j, d)) => r matches Err(LabError::UnknownDependency { job, dependency }) && job@
                == j && dependency@ == d,
            None => if forall|i: int| 0 <= i < act.len() ==> #[trigger] resolvable(act, order, i) {
                r matches Ok(p) && plan_of(p.stages@, act, order)
            } else {
                r matches Err(LabError::CircularDependency(m)) && m@ == joined(
                    unresolved_names(act, order, act.len() as int),
                    ", "@,
                )
            },
        }
    }
}

proof fn lemma_insert_matrix_unique(
    acc: Seq<(Seq<char>, JobView)>,
    name: Seq<char>,
    job: JobView,
    combos: Seq<Seq<(Seq<char>, Seq<char>)>>,
    k: nat,
)
    requires
        unique_keys(acc),
    ensures
        unique_keys(insert_matrix_jobs(acc, name, job, combos, k)),
    decreases k,
{
    if k > 0 {
        lemma_insert_matrix_unique(acc, name, job, combos, (k - 1) as nat);
        lemma_insert_unique(
            insert_matrix_jobs(acc, name, job, combos, (k - 1) as nat),
            matrix_name(name, (k - 1) as nat, combos.len()),
            matrix_job(job, combos[k - 1]),
        );
    }
}

proof fn lemma_insert_node_unique(
    acc: Seq<(Seq<char>, JobView)>,
    name: Seq<char>,
    job: JobView,
    n: nat,
    k: nat,
)
    requires
        unique_keys(acc),
    ensures
        unique_keys(insert_node_jobs(acc, name, job, n, k)),
    decreases k,
{
    if k > 0 {
        lemma_insert_node_unique(acc, name, job, n, (k - 1) as nat);
        lemma_insert_unique(
            insert_node_jobs(acc, name, job, n, (k - 1) as nat),
            node_name(name, k, n),
            node_job(job, k, n),
        );
    }
}

/// The expanded jobs are keyed by distinct names, whatever jobs they come from.
pub proof fn lemma_expanded_unique(e: Seq<(Seq<char>, JobView)>)
    ensures
        unique_keys(expanded(e)),
    decreases e.len(),
{
    if e.len() > 0 {
        lemma_expanded_unique(e.drop_last());
        let prev = expanded(e.drop_last());
        let (name, job) = e.last();
        match job.parallel {
            Some(ParallelView::Matrix(rows)) => {
                let combos = matrix_combos(rows);
                lemma_insert_matrix_unique(prev, name, job, combos, combos.len());
            },
            Some(ParallelView::Count(n)) => {
                lemma_insert_node_unique(prev, name, job, n as nat, n as nat);
            },
            None => {
                lemma_insert_unique(prev, name, job);
            },
        }
    }
}

/// A plan that `build_plan` returns runs every job in a later stage than each job it
/// waits for: a job with `needs:` after the jobs it needs, one without after every job
/// of an earlier stage; jobs of one stage never wait for each other.
pub proof fn law_build_plan_respects_dependencies(
    r: Result<Plan, LabError>,
    jobs: Seq<(Seq<char>, JobView)>,
    vars: Seq<(Seq<char>, VariableView)>,
    job_filter: Option<Seq<char>>,
    stage_filter: Option<Seq<char>>,
    ctx: RuleContext,
    order: Seq<Seq<char>>,
    k1: int,
    m1: int,
    k2: int,
    m2: int,
)
    requires
        plan_result(r, active_jobs(jobs, vars, job_filter, stage_filter, ctx), jobs, order),
        r is Ok,
        0 <= k1 < r->Ok_0.stages@.len(),
        0 <= m1 < r->Ok_0.stages@[k1].jobs@.len(),
        0 <= k2 < r->Ok_0.stages@.len(),
        0 <= m2 < r->Ok_0.stages@[k2].jobs@.len(),
        depends(
            active_jobs(jobs, vars, job_filter, stage_filter, ctx),
            order,
            key_index(
                active_jobs(jobs, vars, job_filter, stage_filter, ctx),
                r->Ok_0.stages@[k1].jobs@[m1].name@,
            ),
            key_index(
                active_jobs(jobs, vars, job_filter, stage_filter, ctx),
                r->Ok_0.stages@[k2].jobs@[m2].name@,
            ),
        ),
    ensures
        k2 < k1,
{
    let act = active_jobs(jobs, vars, job_filter, stage_filter, ctx);
    lemma_expanded_unique(filtered(jobs, vars, job_filter, stage_filter, ctx));
    let stages = r->Ok_0.stages@;
    law_plan_respects_dependencies(stages, act, order, k1, m1, k2, m2);
}

/// Build an execution plan from a pipeline's jobs and stages: evaluate rules and the
/// user's filters, expand `parallel:`, check `needs:`, then order the jobs by stage and
/// DAG dependencies. `ctx` tells what the working tree holds for `changes:` and `exists:`.
pub fn build_plan(
    stages: &[String],
    jobs: &IndexMap<String, Job>,
    variables: &Variables,
    job_filter: Option<&str>,
    stage_filter: Option<&str>,
    ctx: &RuleContext,
) -> (r: Result<Plan, LabError>)
    ensures
        plan_result(
            r,
            active_jobs(
                job_entries(*jobs),
                var_entries(*variables),
                opt_str_view(job_filter),
                opt_str_view(stage_filter),
                *ctx,
            ),
            job_entries(*jobs),
            views(stages@),
        ),
{
    let filtered_jobs = filter_active_jobs(jobs, variables, job_filter, stage_filter, ctx);
    let active = expand_matrix(&filtered_jobs);
    if jobs_len(&active) == 0 {
        return Ok(Plan { stages: Vec::new() });
    }
    match validate_dependencies(&active, jobs) {
        Err(e) => {
            return Err(e);
        },
        Ok(()) => {},
    }
    match build_stages(stages, &active) {
        Ok(plan_stages) => Ok(Plan { stages: plan_stages }),
        Err(e) => Err(e),
    }
}

} // verus!
