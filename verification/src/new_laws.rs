//! What holds of every generation, whatever events reach it.

use crate::config::DESCRIPTOR_FILE;
use crate::error::Failure;
use crate::new::{
    advance, end_walk, entries_left, fail, fresh, init_model, step_model, ActionModel,
    CmdNewModel, EntryKind, EventModel, FrameModel, Phase,
};
use vstd::prelude::*;

verus! {

/// The action changes something outside the generation: it creates the
/// target, makes a directory or writes a file below it, or runs the setup
/// command.
pub open spec fn alters(action: ActionModel) -> bool {
    action is CreateTarget || action is MakeDirectory || action is Write || action is RunSetup
}

/// The generation after the events have reached it one after the other, and
/// the actions that it asked for in reply.
pub open spec fn run(s: CmdNewModel, events: Seq<EventModel>) -> (CmdNewModel, Seq<ActionModel>)
    decreases events.len(),
{
    if events.len() == 0 {
        (s, Seq::empty())
    } else {
        let (mid, asked) = run(s, events.drop_last());
        let (end, action) = step_model(mid, events.last());
        (end, asked.push(action))
    }
}

/// The phase is one that a generation reaches only after its target was
/// found free: from then on it is never found taken.
pub open spec fn past_reservation(phase: Phase) -> bool {
    match phase {
        Phase::Fresh | Phase::Resolving | Phase::Parsing | Phase::Probing => false,
        Phase::Failed(failure) => failure != Failure::TargetExists,
        _ => true,
    }
}

proof fn lemma_end_walk_is_late(s: CmdNewModel)
    ensures
        past_reservation(end_walk(s).0.phase),
{
}

proof fn lemma_advance_is_late(s: CmdNewModel)
    ensures
        past_reservation(advance(s).0.phase),
    decreases s.frames.len(), entries_left(s.frames),
{
    if s.frames.len() == 0 {
        lemma_end_walk_is_late(s);
    } else {
        let top = s.frames.last();
        if top.next >= top.entries.len() {
            lemma_advance_is_late(CmdNewModel { frames: s.frames.drop_last(), ..s });
        } else {
            let entry = top.entries[top.next as int];
            let moved = CmdNewModel {
                frames: s.frames.update(
                    s.frames.len() - 1,
                    FrameModel { next: top.next + 1, ..top },
                ),
                ..s
            };
            if entry.kind != EntryKind::Unreadable && entry.name == DESCRIPTOR_FILE@ {
                lemma_advance_is_late(moved);
            }
        }
    }
}

/// A step that asks for something that alters the outside leaves the
/// generation past its reservation, and a generation past its reservation
/// stays there.
pub proof fn lemma_step_keeps_order(s: CmdNewModel, e: EventModel)
    ensures
        alters(step_model(s, e).1) ==> past_reservation(step_model(s, e).0.phase),
        past_reservation(s.phase) ==> past_reservation(step_model(s, e).0.phase),
{
    match s.phase {
        Phase::Parsing => {},
        Phase::Listing => {
            if let EventModel::Listed(Some(entries)) = e {
                lemma_advance_is_late(
                    CmdNewModel {
                        frames: s.frames.push(FrameModel { dir: s.pending, entries, next: 0 }),
                        ..s
                    },
                );
            }
        },
        Phase::Writing => {
            lemma_advance_is_late(s);
        },
        _ => {},
    }
}

/// A generation that has not come past its reservation has altered
/// nothing.
pub proof fn lemma_run_keeps_order(s: CmdNewModel, events: Seq<EventModel>)
    ensures
        past_reservation(s.phase) ==> past_reservation(run(s, events).0.phase),
        !past_reservation(run(s, events).0.phase) ==> forall|i: int|
            0 <= i < run(s, events).1.len() ==> !alters(#[trigger] run(s, events).1[i]),
        run(s, events).1.len() == events.len(),
    decreases events.len(),
{
    if events.len() > 0 {
        let (mid, asked) = run(s, events.drop_last());
        lemma_run_keeps_order(s, events.drop_last());
        lemma_step_keeps_order(mid, events.last());
    }
}

/// A generation whose target exists fails with `TargetExists` and alters
/// nothing: from its beginning to its failure, and ever after, it asks
/// neither for the target to be created, nor for a directory to be made or
/// a file to be written, nor for the setup command to be run.
pub proof fn law_collision_alters_nothing(args: Seq<Seq<char>>, events: Seq<EventModel>)
    ensures
        !alters(init_model(fresh(args)).1),
        run(init_model(fresh(args)).0, events).0.phase == Phase::Failed(Failure::TargetExists)
            ==> forall|i: int|
            0 <= i < events.len() ==> !alters(
                #[trigger] run(init_model(fresh(args)).0, events).1[i],
            ),
        forall|s: CmdNewModel|
            s.phase == Phase::Probing ==> #[trigger] step_model(s, EventModel::TargetProbed(true))
                == fail(s, Failure::TargetExists),
        forall|s: CmdNewModel, e: EventModel|
            s.phase == Phase::Failed(Failure::TargetExists) ==> #[trigger] step_model(s, e) == (
                s,
                ActionModel::Abort(Failure::TargetExists),
            ),
{
    lemma_run_keeps_order(init_model(fresh(args)).0, events);
}

/// The path is not that of a descriptor file: its last component does not
/// bear the descriptor's name.
pub open spec fn spares_descriptor(path: Seq<Seq<char>>) -> bool {
    path.len() > 0 ==> path.last() != DESCRIPTOR_FILE@
}

/// The action reads or writes no descriptor file.
pub open spec fn action_spares_descriptor(action: ActionModel) -> bool {
    match action {
        ActionModel::MakeDirectory { dir } => spares_descriptor(dir),
        ActionModel::Load { file } => spares_descriptor(file),
        ActionModel::Write { file, text } => spares_descriptor(file),
        _ => true,
    }
}

proof fn lemma_advance_spares_descriptor(s: CmdNewModel)
    requires
        spares_descriptor(s.pending),
    ensures
        spares_descriptor(advance(s).0.pending),
        action_spares_descriptor(advance(s).1),
    decreases s.frames.len(), entries_left(s.frames),
{
    if s.frames.len() > 0 {
        let top = s.frames.last();
        if top.next >= top.entries.len() {
            lemma_advance_spares_descriptor(CmdNewModel { frames: s.frames.drop_last(), ..s });
        } else {
            let entry = top.entries[top.next as int];
            let moved = CmdNewModel {
                frames: s.frames.update(
                    s.frames.len() - 1,
                    FrameModel { next: top.next + 1, ..top },
                ),
                ..s
            };
            if entry.kind != EntryKind::Unreadable && entry.name == DESCRIPTOR_FILE@ {
                lemma_advance_spares_descriptor(moved);
            }
        }
    }
}

/// No generation copies a descriptor file: whatever events reach it, it
/// never asks for a file or directory of the descriptor's name to be loaded,
/// written or made.
pub proof fn law_descriptor_is_not_copied(args: Seq<Seq<char>>, events: Seq<EventModel>)
    ensures
        spares_descriptor(run(init_model(fresh(args)).0, events).0.pending),
        forall|i: int|
            0 <= i < events.len() ==> action_spares_descriptor(
                #[trigger] run(init_model(fresh(args)).0, events).1[i],
            ),
        run(init_model(fresh(args)).0, events).1.len() == events.len(),
    decreases events.len(),
{
    let start = init_model(fresh(args)).0;
    if events.len() > 0 {
        let (mid, asked) = run(start, events.drop_last());
        law_descriptor_is_not_copied(args, events.drop_last());
        let e = events.last();
        match mid.phase {
            Phase::Listing => {
                if let EventModel::Listed(Some(entries)) = e {
                    lemma_advance_spares_descriptor(
                        CmdNewModel {
                            frames: mid.frames.push(
                                FrameModel { dir: mid.pending, entries, next: 0 },
                            ),
                            ..mid
                        },
                    );
                }
            },
            Phase::Writing => {
                lemma_advance_spares_descriptor(mid);
            },
            _ => {},
        }
        assert(action_spares_descriptor(step_model(mid, e).1));
        assert(spares_descriptor(step_model(mid, e).0.pending));
    }
}

/// The stage of a generation: resolving the template, reserving the
/// target, walking the template (with the variables bound), running the
/// setup command, and the end.
pub open spec fn stage(phase: Phase) -> nat {
    match phase {
        Phase::Fresh => 0,
        Phase::Resolving | Phase::Parsing => 1,
        Phase::Probing | Phase::Creating => 2,
        Phase::Listing | Phase::Making | Phase::Loading | Phase::Writing => 3,
        Phase::Hook => 4,
        Phase::Done | Phase::Failed(_) => 5,
    }
}

proof fn lemma_advance_stays_or_ends(s: CmdNewModel)
    ensures
        stage(advance(s).0.phase) >= 3,
    decreases s.frames.len(), entries_left(s.frames),
{
    if s.frames.len() > 0 {
        let top = s.frames.last();
        if top.next >= top.entries.len() {
            lemma_advance_stays_or_ends(CmdNewModel { frames: s.frames.drop_last(), ..s });
        } else {
            let entry = top.entries[top.next as int];
            let moved = CmdNewModel {
                frames: s.frames.update(
                    s.frames.len() - 1,
                    FrameModel { next: top.next + 1, ..top },
                ),
                ..s
            };
            if entry.kind != EntryKind::Unreadable && entry.name == DESCRIPTOR_FILE@ {
                lemma_advance_stays_or_ends(moved);
            }
        }
    }
}

/// A generation never goes back to an earlier stage, and one that is
/// complete or has failed stays exactly as it is, whatever reaches it.
pub proof fn law_stages_never_go_back(s: CmdNewModel, e: EventModel)
    ensures
        stage(step_model(s, e).0.phase) >= stage(s.phase),
        stage(init_model(s).0.phase) >= stage(s.phase),
        s.phase is Done || s.phase is Failed ==> step_model(s, e).0 == s && init_model(s).0 == s,
        s.phase is Done ==> step_model(s, e).1 == ActionModel::Finish,
        s.phase matches Phase::Failed(failure) ==> step_model(s, e).1 == ActionModel::Abort(
            failure,
        ),
{
    match s.phase {
        Phase::Listing => {
            if let EventModel::Listed(Some(entries)) = e {
                lemma_advance_stays_or_ends(
                    CmdNewModel {
                        frames: s.frames.push(FrameModel { dir: s.pending, entries, next: 0 }),
                        ..s
                    },
                );
            }
        },
        Phase::Writing => {
            lemma_advance_stays_or_ends(s);
        },
        _ => {},
    }
}

} // verus!
