//! What the walk through a template comes to: which files it writes.

use crate::config::DESCRIPTOR_FILE;
use crate::new::{
    advance, end_walk, entries_left, step_model, ActionModel, CmdNewModel, EntryKind, EventModel,
    FrameModel, Phase, WalkEntryModel,
};
use crate::render::template_output;
use vstd::prelude::*;

verus! {

/// A template as a generation meets it: what listing a directory of it
/// gives, and what loading a file of it gives, each by the path below the
/// template's root.
pub struct Template {
    pub listing: spec_fn(Seq<Seq<char>>) -> Option<Seq<WalkEntryModel>>,
    pub content: spec_fn(Seq<Seq<char>>) -> Option<Seq<char>>,
}

/// What comes of an action of the walk where the template is `t` and
/// making directories and writing files succeed.
pub open spec fn reply(t: Template, action: ActionModel) -> EventModel {
    match action {
        ActionModel::List { dir } => EventModel::Listed((t.listing)(dir)),
        ActionModel::Load { file } => EventModel::Loaded((t.content)(file)),
        ActionModel::Write { file, text } => EventModel::Written(true),
        ActionModel::MakeDirectory { dir } => EventModel::DirectoryMade,
        _ => EventModel::SetupRan,
    }
}

/// The generation and its last action after `n` more of its actions were
/// performed and replied to.
pub open spec fn drive(t: Template, s: CmdNewModel, action: ActionModel, n: nat) -> (
    CmdNewModel,
    ActionModel,
)
    decreases n,
{
    if n == 0 {
        (s, action)
    } else {
        let (mid, asked) = drive(t, s, action, (n - 1) as nat);
        step_model(mid, reply(t, asked))
    }
}

/// A file that is written: its path below the target, and its text.
pub struct Copy {
    pub file: Seq<Seq<char>>,
    pub text: Seq<char>,
}

/// The files that the generation asks to be written in the course of
/// [`drive`], in their order.
pub open spec fn written(t: Template, s: CmdNewModel, action: ActionModel, n: nat) -> Seq<Copy>
    decreases n,
{
    if n == 0 {
        Seq::empty()
    } else {
        let before = written(t, s, action, (n - 1) as nat);
        match drive(t, s, action, n).1 {
            ActionModel::Write { file, text } => before.push(Copy { file, text }),
            _ => before,
        }
    }
}

/// The entries `entries` of the directory `dir` can be copied, with what
/// lies below them down to `depth` levels: every entry can be read; but for
/// those of the descriptor's name, every directory can be listed and what it
/// holds can be copied, and every file can be loaded and rendered.
pub open spec fn copyable(
    t: Template,
    vars: Map<Seq<char>, Seq<char>>,
    dir: Seq<Seq<char>>,
    entries: Seq<WalkEntryModel>,
    depth: nat,
) -> bool
    decreases depth, entries.len(),
{
    if entries.len() == 0 {
        true
    } else {
        let first = entries[0];
        let path = dir.push(first.name);
        &&& first.kind != EntryKind::Unreadable
        &&& copyable(t, vars, dir, entries.drop_first(), depth)
        &&& first.name != DESCRIPTOR_FILE@ ==> if first.kind == EntryKind::Directory {
            &&& depth > 0
            &&& (t.listing)(path) is Some
            &&& copyable(t, vars, path, (t.listing)(path)->0, (depth - 1) as nat)
        } else {
            &&& (t.content)(path) is Some
            &&& template_output((t.content)(path)->0, vars) is Some
        }
    }
}

/// The copies of the entries `entries` of the directory `dir`, with what
/// lies below them, in the order of the entries and, within a directory, of
/// its listing: every file but those of the descriptor's name, under its own
/// path, with its text rendered against the variables.
pub open spec fn copies(
    t: Template,
    vars: Map<Seq<char>, Seq<char>>,
    dir: Seq<Seq<char>>,
    entries: Seq<WalkEntryModel>,
    depth: nat,
) -> Seq<Copy>
    decreases depth, entries.len(),
{
    if entries.len() == 0 {
        Seq::empty()
    } else {
        let first = entries[0];
        let path = dir.push(first.name);
        let rest = copies(t, vars, dir, entries.drop_first(), depth);
        if first.name == DESCRIPTOR_FILE@ {
            rest
        } else if first.kind == EntryKind::Directory {
            if depth > 0 && (t.listing)(path) is Some {
                copies(t, vars, path, (t.listing)(path)->0, (depth - 1) as nat) + rest
            } else {
                rest
            }
        } else {
            seq![
                Copy { file: path, text: template_output((t.content)(path)->0, vars)->0 },
            ] + rest
        }
    }
}

/// The two generations differ at most in their phase and in the path that
/// the phase waits on.
pub open spec fn same_walk(a: CmdNewModel, b: CmdNewModel) -> bool {
    &&& a.args == b.args
    &&& a.config == b.config
    &&& a.project_name == b.project_name
    &&& a.template_name == b.template_name
    &&& a.frames == b.frames
}

proof fn lemma_drive_adds(t: Template, s: CmdNewModel, action: ActionModel, n: nat, m: nat)
    ensures
        drive(t, s, action, n + m) == drive(t, drive(t, s, action, n).0, drive(t, s, action, n).1, m),
        written(t, s, action, n + m) == written(t, s, action, n) + written(
            t,
            drive(t, s, action, n).0,
            drive(t, s, action, n).1,
            m,
        ),
    decreases m,
{
    let (s1, a1) = drive(t, s, action, n);
    if m == 0 {
        assert(written(t, s, action, n) + written(t, s1, a1, 0) =~= written(t, s, action, n));
    } else {
        lemma_drive_adds(t, s, action, n, (m - 1) as nat);
        assert((n + m - 1) as nat == n + (m - 1) as nat);
        assert(drive(t, s, action, n + m) == step_model(
            drive(t, s, action, (n + m - 1) as nat).0,
            reply(t, drive(t, s, action, (n + m - 1) as nat).1),
        ));
        let w = written(t, s, action, n);
        let w1 = written(t, s1, a1, (m - 1) as nat);
        match drive(t, s, action, n + m).1 {
            ActionModel::Write { file, text } => {
                assert(w + w1.push(Copy { file, text }) =~= (w + w1).push(Copy { file, text }));
            },
            _ => {},
        }
    }
}

/// Going on to the next entry never asks for a file to be written.
proof fn lemma_advance_writes_nothing(s: CmdNewModel)
    ensures
        !(advance(s).1 is Write),
    decreases s.frames.len(), entries_left(s.frames),
{
    if s.frames.len() > 0 {
        let top = s.frames.last();
        if top.next >= top.entries.len() {
            lemma_advance_writes_nothing(CmdNewModel { frames: s.frames.drop_last(), ..s });
        } else {
            let entry = top.entries[top.next as int];
            if entry.kind != EntryKind::Unreadable && entry.name == DESCRIPTOR_FILE@ {
                lemma_advance_writes_nothing(moved(s));
            }
        }
    }
}

/// The frame on top with one more entry handled.
spec fn moved(s: CmdNewModel) -> CmdNewModel {
    let top = s.frames.last();
    CmdNewModel {
        frames: s.frames.update(s.frames.len() - 1, FrameModel { next: top.next + 1, ..top }),
        ..s
    }
}

/// The generation with the listing of the directory `dir` put on top.
spec fn inner_of(s: CmdNewModel, dir: Seq<Seq<char>>, entries: Seq<WalkEntryModel>) -> CmdNewModel {
    CmdNewModel { frames: s.frames.push(FrameModel { dir, entries, next: 0 }), ..s }
}

/// The walk of the entries that the innermost directory has left: driven
/// on from where it goes next, it writes the copies of these entries and of
/// what lies below them, and then goes on as it does once the directory is
/// done with. Returns how many actions that takes and the generation in
/// which the directory is done with.
proof fn lemma_walk_frame(t: Template, s: CmdNewModel, depth: nat) -> (r: (nat, CmdNewModel))
    requires
        s.frames.len() > 0,
        s.frames.last().next <= s.frames.last().entries.len(),
        copyable(
            t,
            s.config.variables,
            s.frames.last().dir,
            s.frames.last().entries.skip(s.frames.last().next as int),
            depth,
        ),
    ensures
        same_walk(r.1, CmdNewModel { frames: s.frames.drop_last(), ..s }),
        drive(t, advance(s).0, advance(s).1, r.0) == advance(r.1),
        written(t, advance(s).0, advance(s).1, r.0) == copies(
            t,
            s.config.variables,
            s.frames.last().dir,
            s.frames.last().entries.skip(s.frames.last().next as int),
            depth,
        ),
    decreases depth, s.frames.last().entries.len() - s.frames.last().next,
{
    let top = s.frames.last();
    let vars = s.config.variables;
    let left = top.entries.skip(top.next as int);
    let popped = CmdNewModel { frames: s.frames.drop_last(), ..s };
    if top.next >= top.entries.len() {
        assert(left.len() == 0);
        (0, popped)
    } else {
        let entry = top.entries[top.next as int];
        let path = top.dir.push(entry.name);
        let next = moved(s);
        assert(left[0] == entry);
        assert(left.drop_first() =~= top.entries.skip(top.next as int + 1));
        assert(next.frames.last() == FrameModel { next: top.next + 1, ..top });
        assert(next.frames.drop_last() =~= s.frames.drop_last());
        if entry.name == DESCRIPTOR_FILE@ {
            assert(advance(s) == advance(next));
            let r = lemma_walk_frame(t, next, depth);
            r
        } else if entry.kind == EntryKind::Directory {
            let listing = (t.listing)(path)->0;
            let start = advance(s);
            let s1 = step_model(start.0, reply(t, start.1));
            let s2 = step_model(s1.0, reply(t, s1.1));
            assert(drive(t, start.0, start.1, 2) == s2) by {
                reveal_with_fuel(drive, 3);
            }
            assert(written(t, start.0, start.1, 2) =~= Seq::<Copy>::empty()) by {
                reveal_with_fuel(drive, 3);
                reveal_with_fuel(written, 3);
                lemma_advance_writes_nothing(inner_of(s1.0, path, listing));
            }
            let inner = inner_of(s1.0, path, listing);
            assert(s2 == advance(inner));
            assert(listing.skip(0) =~= listing);
            assert(inner.frames.drop_last() =~= next.frames);
            let r1 = lemma_walk_frame(t, inner, (depth - 1) as nat);
            let back = r1.1;
            assert(back.frames == next.frames);
            let r2 = lemma_walk_frame(t, back, depth);
            lemma_drive_adds(t, s2.0, s2.1, r1.0, r2.0);
            lemma_drive_adds(t, start.0, start.1, 2, r1.0 + r2.0);
            assert(back.frames.drop_last() =~= s.frames.drop_last());
            ((2 + r1.0 + r2.0) as nat, r2.1)
        } else {
            let start = advance(s);
            let s1 = step_model(start.0, reply(t, start.1));
            let s2 = step_model(s1.0, reply(t, s1.1));
            let text = template_output((t.content)(path)->0, vars)->0;
            assert(drive(t, start.0, start.1, 2) == s2) by {
                reveal_with_fuel(drive, 3);
            }
            assert(written(t, start.0, start.1, 2) =~= seq![Copy { file: path, text }]) by {
                reveal_with_fuel(drive, 3);
                reveal_with_fuel(written, 3);
                lemma_advance_writes_nothing(s1.0);
            }
            let after = s1.0;
            assert(s2 == advance(after));
            assert(after.frames == next.frames);
            let r = lemma_walk_frame(t, after, depth);
            lemma_drive_adds(t, start.0, start.1, 2, r.0);
            assert(after.frames.drop_last() =~= s.frames.drop_last());
            ((2 + r.0) as nat, r.1)
        }
    }
}

/// A walk that meets nothing it cannot read or render writes every file of
/// the template but the descriptors, each under its own path below the
/// target, rendered against the bound variables, in the order of the
/// listings; and then it is over.
///
/// `s` is a generation that waits for the listing of the template's root,
/// `entries` is that listing, and nothing of the template lies deeper than
/// `depth` levels. Returns the number of actions that the walk takes.
pub proof fn law_walk_copies_the_template(
    t: Template,
    s: CmdNewModel,
    entries: Seq<WalkEntryModel>,
    depth: nat,
) -> (n: nat)
    requires
        s.phase == Phase::Listing,
        s.pending.len() == 0,
        s.frames.len() == 0,
        (t.listing)(s.pending) == Some(entries),
        copyable(t, s.config.variables, s.pending, entries, depth),
    ensures
        n > 0,
        written(t, s, ActionModel::List { dir: s.pending }, n) == copies(
            t,
            s.config.variables,
            s.pending,
            entries,
            depth,
        ),
        exists|last: CmdNewModel|
            same_walk(last, s) && drive(t, s, ActionModel::List { dir: s.pending }, n)
                == #[trigger] end_walk(last),
{
    let action = ActionModel::List { dir: s.pending };
    let first = step_model(s, reply(t, action));
    let inner = inner_of(s, s.pending, entries);
    assert(first == advance(inner));
    assert(entries.skip(0) =~= entries);
    assert(inner.frames.drop_last() =~= s.frames);
    let r = lemma_walk_frame(t, inner, depth);
    assert(drive(t, s, action, 1) == first) by {
        reveal_with_fuel(drive, 2);
    }
    assert(written(t, s, action, 1) =~= Seq::<Copy>::empty()) by {
        reveal_with_fuel(drive, 2);
        reveal_with_fuel(written, 2);
        lemma_advance_writes_nothing(inner);
    }
    lemma_drive_adds(t, s, action, 1, r.0);
    assert(advance(r.1) == end_walk(r.1));
    (1 + r.0) as nat
}

} // verus!
