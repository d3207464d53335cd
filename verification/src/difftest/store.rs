//! The part of a run that a store carries out: it is opened, and updated.
use vstd::prelude::*;

use crate::difftest::run::{advance, Action, Event, QuerySpec, Stage};
#[allow(unused_imports)]
use crate::difftest::laws::{law_runs_end, progress};
#[allow(unused_imports)]
use crate::difftest::run::{is_stage, next, ActionModel, Asked, EventModel, StageModel};

verus! {

/// `oxigraph::store::Store`, of which nothing is known.
#[verifier::external_type_specification]
#[verifier::external_body]
pub struct StoreInside(oxigraph::store::Store);

/// A store in memory, made by `oxigraph::store::Store::new`; the message of its
/// error where it fails. Whether it fails is left open: that is the machine's.
#[verifier::external_body]
fn open_store() -> (r: Result<oxigraph::store::Store, String>) {
    match oxigraph::store::Store::new() {
        Ok(store) => Ok(store),
        Err(e) => Err(e.to_string()),
    }
}

/// Carries out a SPARQL update by `oxigraph::store::Store::update`; the message
/// of its error where it fails. What comes of it is left open: it depends on what
/// the store holds, which changes behind a shared reference.
#[verifier::external_body]
fn update_store(store: &oxigraph::store::Store, update: &str) -> (r: Result<(), String>) {
    match store.update(update) {
        Ok(()) => Ok(()),
        Err(e) => Err(e.to_string()),
    }
}

// ── What can come of it ──────────────────────────────────────────────────────

/// Whether a store carries out an action.
pub open spec fn is_for_store(a: ActionModel) -> bool {
    a is OpenStore || a is Update
}

/// Whether an event is what comes of an action of a store.
pub open spec fn comes_of(event: EventModel, a: ActionModel) -> bool {
    (a is OpenStore && event is Opened) || (a is Update && event is Updated)
}

/// Where a run stands after events, the first of them first.
pub open spec fn course(
    q: Asked,
    stage: StageModel,
    action: ActionModel,
    events: Seq<EventModel>,
    base: Seq<char>,
) -> (StageModel, ActionModel)
    decreases events.len(),
{
    if events.len() == 0 {
        (stage, action)
    } else {
        next(q, course(q, stage, action, events.drop_last(), base).0, events.last(), base)
    }
}

/// Whether each of the events is what came of the action before it.
pub open spec fn came_about(
    q: Asked,
    stage: StageModel,
    action: ActionModel,
    events: Seq<EventModel>,
    base: Seq<char>,
) -> bool
    decreases events.len(),
{
    events.len() == 0 || (came_about(q, stage, action, events.drop_last(), base) && comes_of(
        events.last(),
        course(q, stage, action, events.drop_last(), base).1,
    ))
}

/// Whether an event is that a store has been opened.
pub open spec fn is_opened(event: EventModel) -> bool {
    event matches EventModel::Opened(r) && r is Ok
}

/// Whether a store has been opened in the course of events.
pub open spec fn was_opened(events: Seq<EventModel>) -> bool {
    exists|i: int| 0 <= i < events.len() && is_opened(#[trigger] events[i])
}

/// What comes of an update where there is no store.
pub open spec fn without_store() -> EventModel {
    EventModel::Updated(Err("no store"@))
}

/// Carries out what a store is for, one action after the other, until the run
/// waits for something else. What the store answers decides which way it goes. An
/// update without a store fails; a store that is opened stays.
pub fn proceed(
    q: &QuerySpec,
    stage: Stage,
    action: Action,
    store: &mut Option<oxigraph::store::Store>,
    base: &str,
) -> (r: (Stage, Action))
    requires
        is_stage(stage@),
    ensures
        is_stage(r.0@),
        !is_for_store(r.1@),
        exists|events: Seq<EventModel>|
            {
                &&& came_about(q@, stage@, action@, events, base@)
                &&& #[trigger] course(q@, stage@, action@, events, base@) == (r.0@, r.1@)
                &&& *old(store) is None && action@ is Update ==> events.len() > 0 && events[0]
                    == without_store()
                &&& *final(store) is Some <==> *old(store) is Some || was_opened(events)
                &&& !was_opened(events) ==> *final(store) == *old(store)
            },
        !is_for_store(action@) ==> (r.0@, r.1@) == (stage@, action@) && *final(store) == *old(store),
{
    let ghost start = (stage@, action@);
    let ghost mut events: Seq<EventModel> = seq![];
    let mut stage = stage;
    let mut action = action;
    loop
        invariant
            is_stage(stage@),
            came_about(q@, start.0, start.1, events, base@),
            course(q@, start.0, start.1, events, base@) == (stage@, action@),
            !is_for_store(start.1) ==> events.len() == 0,
            events.len() > 0 && *old(store) is None && start.1 is Update ==> events[0]
                == without_store(),
            *store is Some <==> *old(store) is Some || was_opened(events),
            !was_opened(events) ==> *store == *old(store),
        ensures
            is_stage(stage@),
            !is_for_store(action@),
            came_about(q@, start.0, start.1, events, base@),
            course(q@, start.0, start.1, events, base@) == (stage@, action@),
            !is_for_store(start.1) ==> events.len() == 0,
            events.len() > 0 && *old(store) is None && start.1 is Update ==> events[0]
                == without_store(),
            *store is Some <==> *old(store) is Some || was_opened(events),
            !was_opened(events) ==> *store == *old(store),
        decreases
            progress(stage@).0,
            progress(stage@).1,
            if is_for_store(action@) {
                1int
            } else {
                0
            },
    {
        let event = match action {
            Action::OpenStore => match open_store() {
                Ok(opened) => {
                    *store = Some(opened);
                    Event::Opened(Ok(()))
                },
                Err(e) => Event::Opened(Err(e)),
            },
            Action::Update(ref update) => match store {
                Some(opened) => Event::Updated(update_store(opened, update.as_str())),
                None => Event::Updated(Err("no store".to_owned())),
            },
            _ => {
                break;
            },
        };
        let ghost happened = event@;
        proof {
            if !(next(q@, stage@, happened, base@).1 is Wait) {
                law_runs_end(q@, stage@, happened, base@);
            }
            let before = events;
            events = events.push(happened);
            assert(events.drop_last() =~= before);
            lemma_opened(before, happened);
        }
        let (next_stage, next_action) = advance(q, stage, event, base);
        stage = next_stage;
        action = next_action;
    }
    (stage, action)
}

proof fn lemma_opened(before: Seq<EventModel>, event: EventModel)
    ensures
        was_opened(before.push(event)) == (was_opened(before) || is_opened(event)),
        before.len() > 0 ==> before.push(event)[0] == before[0],
{
    let after = before.push(event);
    if was_opened(before) {
        let i = choose|i: int| 0 <= i < before.len() && is_opened(#[trigger] before[i]);
        assert(is_opened(after[i]));
    }
    if is_opened(event) {
        assert(is_opened(after[before.len() as int]));
    }
    if was_opened(after) {
        let i = choose|i: int| 0 <= i < after.len() && is_opened(#[trigger] after[i]);
        if i < before.len() {
            assert(is_opened(before[i]));
        }
    }
}

} // verus!
