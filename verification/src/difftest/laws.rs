//! What holds of every run.
use vstd::prelude::*;

#[allow(unused_imports)]
use crate::difftest::report::{is_passed, Outcome, Report};
#[allow(unused_imports)]
use crate::difftest::store::{came_about, course, is_for_store};
#[allow(unused_imports)]
use crate::difftest::run::{
    is_stage, next, ActionModel, Asked, EventModel, SelectModel, StageModel, TranspiledModel,
};

verus! {

/// A report has the name and the reference of the query that was run.
pub proof fn law_report_names_query(
    q: Asked,
    stage: StageModel,
    event: EventModel,
    base: Seq<char>,
)
    requires
        is_stage(stage),
    ensures
        next(q, stage, event, base).1 matches ActionModel::Report(r) ==> r.name == q.name
            && r.spec_ref == q.spec_ref,
{
}

/// A run ends exactly when it is reported on, unless it had ended before.
pub proof fn law_report_ends_run(q: Asked, stage: StageModel, event: EventModel, base: Seq<char>)
    requires
        is_stage(stage),
        !(stage is Ended),
    ensures
        next(q, stage, event, base).1 is Report == (next(q, stage, event, base).0 is Ended),
{
}

/// A run that has ended stays so, whatever happens.
pub proof fn law_ended_stays(q: Asked, event: EventModel, base: Seq<char>)
    ensures
        next(q, StageModel::Ended, event, base) == (StageModel::Ended, ActionModel::Wait),
{
}

/// A run that passes has either been compared with what was expected, and found
/// to match, or only wrote, and its last update was carried out or it had none.
pub proof fn law_passed_runs_match(q: Asked, stage: StageModel, event: EventModel, base: Seq<char>)
    requires
        is_stage(stage),
    ensures
        (next(q, stage, event, base).1 matches ActionModel::Report(r) && is_passed(r)) ==> {
            ||| stage is Comparing && event == EventModel::Compared(Outcome::Match)
            ||| (stage matches StageModel::Updating(updates, i, select) && i + 1 == updates.len()
                && select is Nothing && (event matches EventModel::Updated(r) && r is Ok))
            ||| (stage is Transpiling && event == EventModel::Transpiled(
                Ok(TranspiledModel::Write(seq![], SelectModel::Nothing)),
            ))
        },
{
    if let EventModel::Transpiled(Ok(TranspiledModel::Write(updates, select))) = event {
        if updates.len() == 0 {
            assert(updates =~= seq![]);
        }
    }
}

/// A run that is reported with an error does not pass, and has no rows.
pub proof fn law_failed_runs_have_no_rows(
    q: Asked,
    stage: StageModel,
    event: EventModel,
    base: Seq<char>,
)
    requires
        is_stage(stage),
    ensures
        next(q, stage, event, base).1 matches ActionModel::Report(r) ==> (r.error is Some
            ==> !is_passed(r) && r.rows.len() == 0),
{
}

/// Where a run stands on its way, each stage with the updates that are left.
pub open spec fn progress(stage: StageModel) -> (int, int) {
    match stage {
        StageModel::Opening => (5, 0),
        StageModel::Loading => (4, 0),
        StageModel::Transpiling => (3, 0),
        StageModel::Updating(updates, i, select) => (2, updates.len() - i),
        StageModel::Querying(sparql) => (1, 1),
        StageModel::Comparing(sparql, columns, rows) => (1, 0),
        StageModel::Ended => (0, 0),
    }
}

/// A run comes to an end: whatever it waited for brings it further.
pub proof fn law_runs_end(q: Asked, stage: StageModel, event: EventModel, base: Seq<char>)
    requires
        is_stage(stage),
        !(next(q, stage, event, base).1 is Wait),
    ensures
        ({
            let (a, b) = progress(stage);
            let (c, d) = progress(next(q, stage, event, base).0);
            0 <= c && 0 <= d && (c < a || c == a && d < b)
        }),
{
}

/// Whatever a store answers at the start of a run, the run goes on to the
/// translation of the query, or it is reported with an error.
pub proof fn law_store_leads_to_translation(q: Asked, events: Seq<EventModel>, base: Seq<char>)
    requires
        came_about(q, StageModel::Opening, ActionModel::OpenStore, events, base),
        !is_for_store(course(q, StageModel::Opening, ActionModel::OpenStore, events, base).1),
    ensures
        course(q, StageModel::Opening, ActionModel::OpenStore, events, base) == (
            StageModel::Transpiling,
            ActionModel::Transpile(q.cypher),
        ) || (course(q, StageModel::Opening, ActionModel::OpenStore, events, base).1 matches
            ActionModel::Report(r) && r.error is Some && r.name == q.name),
{
    lemma_opening(q, events, base);
}

proof fn lemma_opening(q: Asked, events: Seq<EventModel>, base: Seq<char>)
    requires
        came_about(q, StageModel::Opening, ActionModel::OpenStore, events, base),
    ensures
        ({
            let (stage, action) = course(
                q,
                StageModel::Opening,
                ActionModel::OpenStore,
                events,
                base,
            );
            ||| stage is Opening && action is OpenStore
            ||| stage is Loading && action == ActionModel::Update(q.insert)
            ||| stage is Transpiling && action == ActionModel::Transpile(q.cypher)
            ||| stage is Ended && (action matches ActionModel::Report(r) && r.error is Some
                && r.name == q.name)
        }),
    decreases events.len(),
{
    if events.len() > 0 {
        lemma_opening(q, events.drop_last(), base);
    }
}

} // verus!
