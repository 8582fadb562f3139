use vstd::prelude::*;

use crate::interpolator::{
    has_closing, interpolate, Context, ContextValue, InterpolationError, Interpolator,
    ResponseStore, ValueModel,
};
use crate::laws::law_no_closing_delimiter_unchanged;

verus! {

/// What the actions see of a context.
pub type ContextModel = Map<Seq<char>, ValueModel>;

/// What the actions see of the captured responses.
pub type ResponsesModel = Map<Seq<char>, Map<Seq<char>, Seq<char>>>;

#[verifier::external_type_specification]
#[verifier::external_body]
pub struct ExInstant(std::time::Instant);

/// Relies on `Instant::now`: a reading of the monotonic clock.
#[verifier::external_body]
fn clock_now() -> std::time::Instant {
    std::time::Instant::now()
}

/// Relies on `Instant::elapsed`: the time passed since `start`.
#[verifier::external_body]
fn elapsed_since(start: &std::time::Instant) -> std::time::Duration {
    start.elapsed()
}

/// Relies on `Duration::as_nanos`: the whole nanoseconds of `d`.
#[verifier::external_body]
fn whole_nanos(d: &std::time::Duration) -> u128 {
    d.as_nanos()
}

/// Nanoseconds since `start`, saturated to `u64`.
fn nanos_since(start: &std::time::Instant) -> u64 {
    let n = whole_nanos(&elapsed_since(start));
    if n > u64::MAX as u128 {
        u64::MAX
    } else {
        n as u64
    }
}

/// One record per action invocation.
#[derive(Clone, Debug)]
pub struct Report {
    pub name: String,
    /// Time spent, in nanoseconds.
    pub duration_ns: u64,
    /// Transport status; 0 where none applies.
    pub status: u16,
}

/// The capability set shared by every kind of action.
pub trait Runnable {
    /// The display name.
    spec fn label(&self) -> Seq<char>;

    /// Whether a field of the action holds the closing delimiter.
    spec fn templated(&self) -> bool;

    /// The stores after the action, or the error that stops it.
    spec fn outcome(&self, ctx: ContextModel, resp: ResponsesModel) -> Result<
        (ContextModel, ResponsesModel),
        InterpolationError,
    >;

    /// Whether `report` is a report this action may emit.
    spec fn reports_as(&self, report: Report) -> bool;

    fn describe(&self) -> (r: String)
        ensures
            r@ == self.label(),
    ;

    fn has_interpolations(&self) -> (r: bool)
        ensures
            r == self.templated(),
    ;

    /// Performs the action once on the given stores and appends its report;
    /// on failure nothing is changed.
    fn execute(
        &self,
        context: &mut Context,
        responses: &mut ResponseStore,
        reports: &mut Vec<Report>,
    ) -> (r: Result<(), InterpolationError>)
        ensures
            match self.outcome(old(context)@, old(responses)@) {
                Ok((c, rs)) => {
                    &&& r is Ok
                    &&& final(context)@ == c
                    &&& final(responses)@ == rs
                    &&& final(reports)@.len() == old(reports)@.len() + 1
                    &&& final(reports)@.drop_last() == old(reports)@
                    &&& self.reports_as(final(reports)@.last())
                },
                Err(e) => {
                    &&& r == Err::<(), InterpolationError>(e)
                    &&& final(context)@ == old(context)@
                    &&& final(responses)@ == old(responses)@
                    &&& final(reports)@ == old(reports)@
                },
            },
    ;
}

/// Sets a context variable to a (possibly templated) string.
#[derive(Clone, Debug)]
pub struct Assign {
    pub name: String,
    pub key: String,
    pub value: String,
}

impl Assign {
    pub fn new(name: String, key: String, value: String) -> (a: Assign)
        ensures
            a.name@ == name@,
            a.key@ == key@,
            a.value@ == value@,
    {
        Assign { name, key, value }
    }
}

impl Runnable for Assign {
    open spec fn label(&self) -> Seq<char> {
        self.name@
    }

    open spec fn templated(&self) -> bool {
        has_closing(self.name@) || has_closing(self.value@)
    }

    open spec fn outcome(&self, ctx: ContextModel, resp: ResponsesModel) -> Result<
        (ContextModel, ResponsesModel),
        InterpolationError,
    > {
        match interpolate(self.value@, ctx, resp) {
            Ok(v) => Ok((ctx.insert(self.key@, ValueModel::Scalar(v)), resp)),
            Err(e) => Err(e),
        }
    }

    open spec fn reports_as(&self, report: Report) -> bool {
        report.name@ == self.name@ && report.status == 0
    }

    fn describe(&self) -> (r: String) {
        self.name.clone()
    }

    fn has_interpolations(&self) -> (r: bool) {
        Interpolator::has_interpolations(&self.name) || Interpolator::has_interpolations(&self.value)
    }

    fn execute(
        &self,
        context: &mut Context,
        responses: &mut ResponseStore,
        reports: &mut Vec<Report>,
    ) -> (r: Result<(), InterpolationError>) {
        let start = clock_now();
        let value = if self.has_interpolations() {
            let interpolator = Interpolator::new(context, responses);
            match interpolator.resolve(&self.value) {
                Ok(v) => v,
                Err(e) => {
                    return Err(e);
                },
            }
        } else {
            proof {
                law_no_closing_delimiter_unchanged(self.value@, context@, responses@);
            }
            self.value.clone()
        };
        context.insert(self.key.clone(), ContextValue::Text(value));
        let ghost before = reports@;
        let duration_ns = nanos_since(&start);
        reports.push(Report { name: self.name.clone(), duration_ns, status: 0 });
        assert(reports@.drop_last() =~= before);
        Ok(())
    }
}

} // verus!
