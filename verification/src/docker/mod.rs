//! What the Docker side exchanges with the rest: command results and running services.
use vstd::prelude::*;

use crate::collections::{var_entries, vars_get_index, vars_len};
use crate::model::job::ServiceConfig;
use crate::model::variables::VariableView;
use crate::text::{concat3, views};

verus! {

/// The result of running a command in a container.
#[derive(Debug, Clone)]
pub struct RunResult {
    pub exit_code: i64,
    pub stdout: String,
    pub stderr: String,
}

/// The services started for a job; they must be stopped after it.
#[derive(Debug, Clone)]
pub struct ServiceContext {
    pub network_name: String,
    pub containers: Vec<RunningService>,
}

/// A started service container.
#[derive(Debug, Clone)]
pub struct RunningService {
    pub id: String,
    pub hostname: String,
    pub image: String,
}

/// `KEY=VALUE` for each variable, in order.
pub open spec fn env_lines(vars: Seq<(Seq<char>, VariableView)>) -> Seq<Seq<char>>
    decreases vars.len(),
{
    if vars.len() == 0 {
        Seq::empty()
    } else {
        env_lines(vars.drop_last()).push(vars.last().0 + "="@ + vars.last().1.value)
    }
}

/// The environment of a service container: a detailed service's variables as
/// `KEY=VALUE`, none for a simple one.
pub fn service_env(svc: &ServiceConfig) -> (r: Vec<String>)
    ensures
        views(r@) == match svc {
            ServiceConfig::Detailed { variables, .. } => env_lines(var_entries(*variables)),
            _ => Seq::empty(),
        },
{
    let mut out: Vec<String> = Vec::new();
    match svc {
        ServiceConfig::Detailed { variables, .. } => {
            let ghost e = var_entries(*variables);
            let n = vars_len(variables);
            let mut i: usize = 0;
            assert(e.subrange(0, 0) =~= Seq::<(Seq<char>, VariableView)>::empty());
            while i < n
                invariant
                    n == e.len(),
                    e == var_entries(*variables),
                    i <= n,
                    views(out@) == env_lines(e.subrange(0, i as int)),
                decreases n - i,
            {
                let (k, v) = vars_get_index(variables, i);
                assert(e.subrange(0, i + 1).drop_last() =~= e.subrange(0, i as int));
                let ghost before = views(out@);
                out.push(concat3(k.as_str(), "=", v.value()));
                assert(views(out@) =~= before.push(k@ + "="@ + v@.value));
                i = i + 1;
            }
            assert(e.subrange(0, n as int) =~= e);
        },
        _ => {
            assert(views(out@) =~= Seq::<Seq<char>>::empty());
        },
    }
    out
}

/// Whether a service is ready, from its container state: a running container is ready
/// when it has no health check or its health names `HEALTHY` or `UNHEALTHY` (the wait
/// ends either way); otherwise the wait goes on.
pub open spec fn service_settled(running: bool, health: Option<Seq<char>>) -> bool {
    running && match health {
        None => true,
        Some(h) => crate::text::contains_seq(h, "HEALTHY"@) || crate::text::contains_seq(
            h,
            "UNHEALTHY"@,
        ),
    }
}

pub fn service_ready(running: bool, health: Option<&str>) -> (r: bool)
    ensures
        r == service_settled(
            running,
            match health {
                Some(h) => Some(h@),
                None => None,
            },
        ),
{
    running && match health {
        None => true,
        Some(h) => crate::text::contains(h, "HEALTHY") || crate::text::contains(h, "UNHEALTHY"),
    }
}

} // verus!
