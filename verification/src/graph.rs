//! The dependency graph of a pipeline as it is drawn: stages with their jobs, the
//! `needs` edges between jobs, and how each job is marked.
use vstd::prelude::*;

use crate::collections::{job_entries, jobs_get_index, jobs_len};
use crate::model::job::{JobView, NeedView, When};
use crate::model::pipeline::Pipeline;
use crate::text::{str_eq, views};

verus! {

/// The jobs of `stage`, in order.
pub open spec fn jobs_in_stage(jobs: Seq<(Seq<char>, JobView)>, stage: Seq<char>) -> Seq<Seq<char>>
    decreases jobs.len(),
{
    if jobs.len() == 0 {
        Seq::empty()
    } else {
        jobs_in_stage(jobs.drop_last(), stage) + if jobs.last().1.stage == stage {
            seq![jobs.last().0]
        } else {
            Seq::empty()
        }
    }
}

/// The stages that hold jobs, in stage order, each with its jobs.
pub open spec fn stage_groups(stages: Seq<Seq<char>>, jobs: Seq<(Seq<char>, JobView)>) -> Seq<
    (Seq<char>, Seq<Seq<char>>),
>
    decreases stages.len(),
{
    if stages.len() == 0 {
        Seq::empty()
    } else {
        let g = jobs_in_stage(jobs, stages.last());
        stage_groups(stages.drop_last(), jobs) + if g.len() > 0 {
            seq![(stages.last(), g)]
        } else {
            Seq::empty()
        }
    }
}

fn jobs_of_stage(pipeline: &Pipeline, stage: &str) -> (r: Vec<String>)
    ensures
        views(r@) == jobs_in_stage(job_entries(pipeline.jobs), stage@),
{
    let ghost jobs = job_entries(pipeline.jobs);
    let n = jobs_len(&pipeline.jobs);
    let mut out: Vec<String> = Vec::new();
    let mut i: usize = 0;
    assert(views(out@) =~= jobs_in_stage(jobs.take(0), stage@));
    while i < n
        invariant
            jobs == job_entries(pipeline.jobs),
            n == jobs.len(),
            i <= n,
            views(out@) == jobs_in_stage(jobs.take(i as int), stage@),
        decreases n - i,
    {
        let (name, job) = jobs_get_index(&pipeline.jobs, i);
        assert(jobs.take(i + 1).drop_last() =~= jobs.take(i as int));
        assert(jobs.take(i + 1).last() == jobs[i as int]);
        let ghost before = views(out@);
        if str_eq(job.stage.as_str(), stage) {
            out.push(name.clone());
            assert(views(out@) =~= before + seq![name@]);
        } else {
            assert(views(out@) =~= before + Seq::<Seq<char>>::empty());
        }
        i = i + 1;
    }
    assert(jobs.take(n as int) =~= jobs);
    out
}

/// The stages of a pipeline that hold jobs, each with its jobs, in order.
pub fn stage_job_groups(pipeline: &Pipeline) -> (r: Vec<(String, Vec<String>)>)
    ensures
        r@.map_values(|g: (String, Vec<String>)| (g.0@, views(g.1@))) == stage_groups(
            views(pipeline.stages@),
            job_entries(pipeline.jobs),
        ),
{
    let ghost sv = views(pipeline.stages@);
    let ghost jobs = job_entries(pipeline.jobs);
    let mut out: Vec<(String, Vec<String>)> = Vec::new();
    let mut i: usize = 0;
    assert(out@.map_values(|g: (String, Vec<String>)| (g.0@, views(g.1@))) =~= stage_groups(
        sv.take(0),
        jobs,
    ));
    while i < pipeline.stages.len()
        invariant
            sv == views(pipeline.stages@),
            jobs == job_entries(pipeline.jobs),
            i <= sv.len(),
            out@.map_values(|g: (String, Vec<String>)| (g.0@, views(g.1@))) == stage_groups(
                sv.take(i as int),
                jobs,
            ),
        decreases sv.len() - i,
    {
        assert(sv.take(i + 1).drop_last() =~= sv.take(i as int));
        assert(sv.take(i + 1).last() == pipeline.stages@[i as int]@);
        let g = jobs_of_stage(pipeline, pipeline.stages[i].as_str());
        let ghost before = out@.map_values(|g: (String, Vec<String>)| (g.0@, views(g.1@)));
        if g.len() > 0 {
            let entry = (pipeline.stages[i].clone(), g);
            let ghost ev = (entry.0@, views(entry.1@));
            out.push(entry);
            assert(out@.map_values(|g: (String, Vec<String>)| (g.0@, views(g.1@))) =~= before
                + seq![ev]);
        } else {
            assert(before + Seq::<(Seq<char>, Seq<Seq<char>>)>::empty() =~= before);
        }
        i = i + 1;
    }
    assert(sv.take(sv.len() as int) =~= sv);
    out
}

/// For each of the needs, the needing job's name where the need names `target`.
pub open spec fn needing(needs: Seq<NeedView>, who: Seq<char>, target: Seq<char>) -> Seq<Seq<char>>
    decreases needs.len(),
{
    if needs.len() == 0 {
        Seq::empty()
    } else {
        needing(needs.drop_last(), who, target) + if needs.last().job == target {
            seq![who]
        } else {
            Seq::empty()
        }
    }
}

/// The jobs that need `target`, in job order, once per need naming it.
pub open spec fn dependents_of(jobs: Seq<(Seq<char>, JobView)>, target: Seq<char>) -> Seq<Seq<char>>
    decreases jobs.len(),
{
    if jobs.len() == 0 {
        Seq::empty()
    } else {
        dependents_of(jobs.drop_last(), target) + match jobs.last().1.needs {
            Some(n) => needing(n, jobs.last().0, target),
            None => Seq::empty(),
        }
    }
}

/// The jobs that need `target` (the arrow from it to the next stage).
pub fn dependents(pipeline: &Pipeline, target: &str) -> (r: Vec<String>)
    ensures
        views(r@) == dependents_of(job_entries(pipeline.jobs), target@),
{
    let ghost jobs = job_entries(pipeline.jobs);
    let n = jobs_len(&pipeline.jobs);
    let mut out: Vec<String> = Vec::new();
    let mut i: usize = 0;
    assert(views(out@) =~= dependents_of(jobs.take(0), target@));
    while i < n
        invariant
            jobs == job_entries(pipeline.jobs),
            n == jobs.len(),
            i <= n,
            views(out@) == dependents_of(jobs.take(i as int), target@),
        decreases n - i,
    {
        let (name, job) = jobs_get_index(&pipeline.jobs, i);
        assert(jobs.take(i + 1).drop_last() =~= jobs.take(i as int));
        assert(jobs.take(i + 1).last() == jobs[i as int]);
        let ghost head = views(out@);
        match &job.needs {
            Some(needs) => {
                let ghost nv = crate::model::job::need_views(needs@);
                let mut k: usize = 0;
                assert(views(out@) =~= head + needing(nv.take(0), name@, target@));
                while k < needs.len()
                    invariant
                        nv == crate::model::job::need_views(needs@),
                        k <= nv.len(),
                        views(out@) == head + needing(nv.take(k as int), name@, target@),
                    decreases nv.len() - k,
                {
                    assert(nv.take(k + 1).drop_last() =~= nv.take(k as int));
                    assert(nv.take(k + 1).last() == needs@[k as int]@);
                    let ghost before = views(out@);
                    if str_eq(needs[k].job_name(), target) {
                        out.push(name.clone());
                        assert(views(out@) =~= before + seq![name@]);
                    } else {
                        assert(views(out@) =~= before + Seq::<Seq<char>>::empty());
                    }
                    k = k + 1;
                }
                assert(nv.take(nv.len() as int) =~= nv);
            },
            None => {
                assert(views(out@) =~= head + Seq::<Seq<char>>::empty());
            },
        }
        i = i + 1;
    }
    assert(jobs.take(n as int) =~= jobs);
    out
}

/// Whether some job needs `name`.
pub open spec fn feeds_next(jobs: Seq<(Seq<char>, JobView)>, name: Seq<char>) -> bool {
    dependents_of(jobs, name).len() > 0
}

/// Whether a job needs others.
pub open spec fn receives(j: JobView) -> bool {
    match j.needs {
        Some(n) => n.len() > 0,
        None => false,
    }
}

/// How a job is marked in the graph.
#[derive(Debug, Clone, Copy, PartialEq, Eq, Structural)]
pub enum Mark {
    Manual,
    Both,
    Upstream,
    Downstream,
    Plain,
}

/// A manual job is marked so first; then a job both needed and needing, one only needed,
/// one only needing, and the rest.
pub open spec fn mark_of(feeds: bool, recv: bool, when: When) -> Mark {
    if when == When::Manual {
        Mark::Manual
    } else if feeds && recv {
        Mark::Both
    } else if feeds {
        Mark::Upstream
    } else if recv {
        Mark::Downstream
    } else {
        Mark::Plain
    }
}

/// The mark of job `name` with view `j`, among `jobs`.
pub fn job_mark(pipeline: &Pipeline, name: &str, job: &crate::model::job::Job) -> (r: Mark)
    ensures
        r == mark_of(feeds_next(job_entries(pipeline.jobs), name@), receives(job@), job@.when),
{
    let feeds = dependents(pipeline, name).len() > 0;
    let recv = match &job.needs {
        Some(n) => n.len() > 0,
        None => false,
    };
    let manual = match job.when {
        When::Manual => true,
        _ => false,
    };
    if manual {
        Mark::Manual
    } else if feeds && recv {
        Mark::Both
    } else if feeds {
        Mark::Upstream
    } else if recv {
        Mark::Downstream
    } else {
        Mark::Plain
    }
}

/// The width of a stage's rule: the boxes of up to four jobs and the gaps between them,
/// at least the label's width plus four.
pub open spec fn rule_width(box_outer: nat, jobs: nat, label: nat) -> nat {
    let k = if jobs < 4 {
        jobs
    } else {
        4
    };
    let w = box_outer * k + (k - 1) * 3;
    if w >= label + 4 {
        w as nat
    } else {
        label + 4
    }
}

pub fn stage_rule_width(box_outer: u64, jobs: u64, label: u64) -> (r: u64)
    requires
        1 <= jobs,
        box_outer <= (u64::MAX - 9) / 4,
        label <= u64::MAX - 4,
    ensures
        r == rule_width(box_outer as nat, jobs as nat, label as nat),
{
    let k: u64 = if jobs < 4 {
        jobs
    } else {
        4
    };
    assert(box_outer * k <= box_outer * 4) by (nonlinear_arith)
        requires
            k <= 4,
    ;
    let w = box_outer * k + (k - 1) * 3;
    if w >= label + 4 {
        w
    } else {
        label + 4
    }
}

} // verus!
