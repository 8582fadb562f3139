use vstd::prelude::*;

use crate::actions::{ContextModel, Report, ResponsesModel, Runnable};
use crate::interpolator::{Context, InterpolationError, ResponseStore};
use crate::store::VarMap;

verus! {

/// The error that stopped a run, with the name of the action that failed.
#[derive(Debug)]
pub struct RunError {
    pub action: String,
    pub error: InterpolationError,
}

/// A sequential run of `p` from the given stores: the stores at the end, how
/// many actions completed, and the error that stopped the run, if any.
pub open spec fn run_spec<A: Runnable>(p: Seq<A>, ctx: ContextModel, resp: ResponsesModel) -> (
    ContextModel,
    ResponsesModel,
    nat,
    Option<InterpolationError>,
)
    decreases p.len(),
{
    if p.len() == 0 {
        (ctx, resp, 0, None)
    } else {
        match p[0].outcome(ctx, resp) {
            Err(e) => (ctx, resp, 0, Some(e)),
            Ok((c, r)) => {
                let s = run_spec(p.drop_first(), c, r);
                (s.0, s.1, s.2 + 1, s.3)
            },
        }
    }
}

proof fn lemma_run_count<A: Runnable>(p: Seq<A>, ctx: ContextModel, resp: ResponsesModel)
    ensures
        run_spec(p, ctx, resp).2 <= p.len(),
        run_spec(p, ctx, resp).3 is None ==> run_spec(p, ctx, resp).2 == p.len(),
    decreases p.len(),
{
    if p.len() > 0 {
        if let Ok((c, r)) = p[0].outcome(ctx, resp) {
            lemma_run_count(p.drop_first(), c, r);
        }
    }
}

/// Runs the actions of `playbook` in order on one set of stores, stopping at
/// the first failure.
pub fn run_playbook<A: Runnable>(
    playbook: &Vec<A>,
    context: &mut Context,
    responses: &mut ResponseStore,
    reports: &mut Vec<Report>,
) -> (r: Result<(), RunError>)
    ensures
        ({
            let s = run_spec(playbook@, old(context)@, old(responses)@);
            &&& final(context)@ == s.0
            &&& final(responses)@ == s.1
            &&& final(reports)@.len() == old(reports)@.len() + s.2
            &&& final(reports)@.subrange(0, old(reports)@.len() as int) == old(reports)@
            &&& s.2 <= playbook@.len()
            &&& forall|j: int|
                0 <= j < s.2 ==> #[trigger] playbook@[j].reports_as(
                    final(reports)@[old(reports)@.len() + j],
                )
            &&& match r {
                Ok(()) => s.3 is None && s.2 == playbook@.len(),
                Err(err) => s.2 < playbook@.len() && s.3 == Some(err.error) && err.action@
                    == playbook@[s.2 as int].label(),
            }
        }),
{
    let ghost p = playbook@;
    let ghost s0 = run_spec(p, context@, responses@);
    let ghost r0 = reports@;
    let mut i: usize = 0;
    let mut failed: Option<InterpolationError> = None;
    assert(p.subrange(0, p.len() as int) =~= p);
    proof {
        lemma_run_count(p, context@, responses@);
    }
    while i < playbook.len() && failed.is_none()
        invariant
            p == playbook@,
            i <= p.len(),
            s0.2 <= p.len(),
            ({
                let s = run_spec(p.subrange(i as int, p.len() as int), context@, responses@);
                s0.0 == s.0 && s0.1 == s.1 && s0.2 == s.2 + i && s0.3 == s.3
            }),
            match failed {
                Some(e) => i < p.len() && s0.2 == i && s0.3 == Some(e),
                None => true,
            },
            reports@.len() == r0.len() + i,
            reports@.subrange(0, r0.len() as int) == r0,
            forall|j: int| 0 <= j < i ==> #[trigger] p[j].reports_as(reports@[r0.len() + j]),
        decreases p.len() - i + (if failed is None { 1int } else { 0int }),
    {
        let ghost rest = p.subrange(i as int, p.len() as int);
        assert(rest[0] == p[i as int]);
        assert(rest.drop_first() =~= p.subrange(i + 1, p.len() as int));
        let ghost before = reports@;
        let ghost ctx_before = context@;
        let ghost resp_before = responses@;
        match playbook[i].execute(context, responses, reports) {
            Ok(()) => {
                assert(reports@.subrange(0, r0.len() as int) =~= before.subrange(0, r0.len() as int));
                assert forall|j: int| 0 <= j < i + 1 implies #[trigger] p[j].reports_as(
                    reports@[r0.len() + j],
                ) by {
                    if j < i {
                        assert(reports@[r0.len() + j] == before[r0.len() + j]);
                    }
                }
                i = i + 1;
            },
            Err(e) => {
                assert(run_spec(rest, ctx_before, resp_before) == (ctx_before, resp_before, 0nat, Some(e)));
                failed = Some(e);
            },
        }
    }
    match failed {
        Some(e) => Err(RunError { action: playbook[i].describe(), error: e }),
        None => {
            assert(p.subrange(i as int, p.len() as int) =~= Seq::<A>::empty());
            Ok(())
        },
    }
}

/// The isolated stores of one benchmark iteration after it ran.
pub struct Iteration {
    pub context: Context,
    pub responses: ResponseStore,
    pub reports: Vec<Report>,
    pub error: Option<RunError>,
}

/// `it` is what a run of `p` from empty stores leaves.
pub open spec fn iteration_of<A: Runnable>(it: Iteration, p: Seq<A>) -> bool {
    let s = run_spec(p, Map::empty(), Map::empty());
    &&& it.context@ == s.0
    &&& it.responses@ == s.1
    &&& it.reports@.len() == s.2
    &&& forall|j: int| 0 <= j < s.2 ==> #[trigger] p[j].reports_as(it.reports@[j])
    &&& match it.error {
        None => s.3 is None,
        Some(err) => s.3 == Some(err.error) && s.2 < p.len() && err.action@ == p[s.2 as int].label(),
    }
}

/// One iteration of `playbook` on fresh stores of its own.
pub fn run_iteration<A: Runnable>(playbook: &Vec<A>) -> (it: Iteration)
    ensures
        iteration_of(it, playbook@),
{
    let mut context: Context = VarMap::new();
    let mut responses: ResponseStore = VarMap::new();
    let mut reports: Vec<Report> = Vec::new();
    let r = run_playbook(playbook, &mut context, &mut responses, &mut reports);
    assert(reports@.subrange(0, 0) =~= Seq::<Report>::empty());
    let ghost s = run_spec(playbook@, Map::empty(), Map::empty());
    assert forall|j: int| 0 <= j < s.2 implies #[trigger] playbook@[j].reports_as(reports@[j]) by {
        assert(reports@[0 + j] == reports@[j]);
    }
    let error = match r {
        Ok(()) => None,
        Err(e) => Some(e),
    };
    Iteration { context, responses, reports, error }
}

/// `iterations` independent runs of `playbook`, each on its own stores; a
/// failure ends only the iteration it occurs in.
pub fn run_benchmark<A: Runnable>(playbook: &Vec<A>, iterations: usize) -> (r: Vec<Iteration>)
    ensures
        r@.len() == iterations,
        forall|k: int| 0 <= k < iterations ==> iteration_of(#[trigger] r@[k], playbook@),
{
    let mut r: Vec<Iteration> = Vec::new();
    let mut k: usize = 0;
    while k < iterations
        invariant
            k <= iterations,
            r@.len() == k,
            forall|j: int| 0 <= j < k ==> iteration_of(#[trigger] r@[j], playbook@),
        decreases iterations - k,
    {
        let it = run_iteration(playbook);
        r.push(it);
        k = k + 1;
    }
    r
}

/// The reports of all iterations, each iteration's in its own order, the
/// last iteration's first.
pub open spec fn merged_reports(its: Seq<Iteration>) -> Seq<Report>
    decreases its.len(),
{
    if its.len() == 0 {
        Seq::empty()
    } else {
        its.last().reports@ + merged_reports(its.drop_last())
    }
}

/// Drains the reports of every iteration into one log.
pub fn collect_reports(iterations: Vec<Iteration>) -> (r: Vec<Report>)
    ensures
        r@ == merged_reports(iterations@),
{
    let mut its = iterations;
    let mut r: Vec<Report> = Vec::new();
    let ghost all = its@;
    assert(r@ + merged_reports(its@) =~= merged_reports(all));
    while its.len() > 0
        invariant
            r@ + merged_reports(its@) == merged_reports(all),
        decreases its@.len(),
    {
        let ghost before = its@;
        match its.pop() {
            Some(mut it) => {
                proof {
                    assert(before.drop_last() == its@);
                    assert(merged_reports(before) == it.reports@ + merged_reports(its@));
                    assert(r@ + (it.reports@ + merged_reports(its@)) =~= (r@ + it.reports@)
                        + merged_reports(its@));
                }
                r.append(&mut it.reports);
            },
            None => {},
        }
    }
    assert(r@ + Seq::<Report>::empty() =~= r@);
    r
}

/// When a playbook runs through from empty stores, a benchmark of `n`
/// iterations yields `n` times as many reports as the playbook has actions,
/// and every iteration ends with the context of a lone run, whatever the
/// other iterations did.
pub proof fn law_benchmark_isolated<A: Runnable>(its: Seq<Iteration>, p: Seq<A>)
    requires
        forall|k: int| 0 <= k < its.len() ==> iteration_of(#[trigger] its[k], p),
        run_spec(p, Map::empty(), Map::empty()).3 is None,
    ensures
        merged_reports(its).len() == its.len() * p.len(),
        forall|k: int|
            0 <= k < its.len() ==> (#[trigger] its[k]).context@ == run_spec(
                p,
                Map::empty(),
                Map::empty(),
            ).0 && its[k].error is None,
    decreases its.len(),
{
    lemma_run_count(p, Map::empty(), Map::empty());
    if its.len() > 0 {
        let rest = its.drop_last();
        assert forall|k: int| 0 <= k < rest.len() implies iteration_of(#[trigger] rest[k], p) by {
            assert(rest[k] == its[k]);
        }
        law_benchmark_isolated(rest, p);
        assert(iteration_of(its[its.len() - 1], p));
        let n = its.len() as int;
        let l = p.len() as int;
        assert((n - 1) * l + l == n * l) by (nonlinear_arith);
    }
}

} // verus!
