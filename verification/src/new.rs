//! The generation of a new project from a template.
//!
//! A generation reads and writes files, which the library does not do
//! itself: it decides. [`CmdNew`] says what is to be done next, as an
//! [`Action`], and is told what came of it, as an [`Event`]; whoever drives
//! it performs the actions. The decisions are those of [`step_model`].

use crate::args::{bind_args, collect_args};
use crate::config::{parse_model, Config, ConfigModel, Descriptor, DESCRIPTOR_FILE};
use crate::error::Failure;
use crate::render::{render, template_output};
use crate::text::{clone_strings, contains_string, string_views};
use crate::utils::{command_of, split_command};
use vstd::prelude::*;
use vstd::string::StringExecFns;

verus! {

/// What an entry of a template directory is.
#[derive(Clone, Copy, Debug, PartialEq, Eq, Structural)]
pub enum EntryKind {
    Directory,
    /// Anything that is not a directory.
    File,
    /// The entry could not be read.
    Unreadable,
}

/// One entry of a template directory.
pub struct WalkEntry {
    /// The name of the entry; of no account where the entry is unreadable.
    pub name: String,
    pub kind: EntryKind,
}

/// An entry of a template directory as plain mathematical values.
pub struct WalkEntryModel {
    pub name: Seq<char>,
    pub kind: EntryKind,
}

impl View for WalkEntry {
    type V = WalkEntryModel;

    open spec fn view(&self) -> WalkEntryModel {
        WalkEntryModel { name: self.name@, kind: self.kind }
    }
}

/// The views of directory entries, in their order.
pub open spec fn walk_entry_models(entries: Seq<WalkEntry>) -> Seq<WalkEntryModel> {
    entries.map_values(|e: WalkEntry| e@)
}

/// What came of the action that a generation asked for last.
pub enum Event {
    /// The names of the known templates.
    Templates(Vec<String>),
    /// What was found where the descriptor of the template is kept.
    Descriptor(Descriptor),
    /// Whether something stands at the target path.
    TargetProbed(bool),
    /// Whether the target directory could be created.
    TargetCreated(bool),
    /// The entries of the template directory asked for, in the order in
    /// which they are to be handled; `None` where it could not be read.
    Listed(Option<Vec<WalkEntry>>),
    /// The directory asked for was made, or could not be made.
    DirectoryMade,
    /// The text of the file asked for; `None` where it could not be read.
    Loaded(Option<String>),
    /// Whether the file could be written.
    Written(bool),
    /// The setup command has run, or could not be run.
    SetupRan,
}

/// An event as plain mathematical values.
pub enum EventModel {
    Templates(Seq<Seq<char>>),
    /// The descriptor that the file stands for, or why it stands for none.
    Descriptor(Result<ConfigModel, Failure>),
    TargetProbed(bool),
    TargetCreated(bool),
    Listed(Option<Seq<WalkEntryModel>>),
    DirectoryMade,
    Loaded(Option<Seq<char>>),
    Written(bool),
    SetupRan,
}

impl View for Event {
    type V = EventModel;

    open spec fn view(&self) -> EventModel {
        match self {
            Event::Templates(names) => EventModel::Templates(string_views(names@)),
            Event::Descriptor(file) => EventModel::Descriptor(parse_model(*file)),
            Event::TargetProbed(exists) => EventModel::TargetProbed(*exists),
            Event::TargetCreated(done) => EventModel::TargetCreated(*done),
            Event::Listed(Some(entries)) => EventModel::Listed(Some(walk_entry_models(entries@))),
            Event::Listed(None) => EventModel::Listed(None),
            Event::DirectoryMade => EventModel::DirectoryMade,
            Event::Loaded(Some(text)) => EventModel::Loaded(Some(text@)),
            Event::Loaded(None) => EventModel::Loaded(None),
            Event::Written(done) => EventModel::Written(*done),
            Event::SetupRan => EventModel::SetupRan,
        }
    }
}

/// What a generation asks to be done next. Paths inside the template and
/// inside the target are given by their components below the root of each.
pub enum Action {
    /// Find the names of the known templates.
    ListTemplates,
    /// Read and parse the descriptor of the template.
    ParseDescriptor { template: String },
    /// Find out whether something stands at the path.
    ProbeTarget { path: String },
    /// Create the directory of the new project.
    CreateTarget { path: String },
    /// Read the entries of a directory of the template.
    List { dir: Vec<String> },
    /// Make a directory below the target; whether that succeeds is of no
    /// account.
    MakeDirectory { dir: Vec<String> },
    /// Read the text of a file of the template.
    Load { file: Vec<String> },
    /// Write the text to the file below the target.
    Write { file: Vec<String>, text: String },
    /// Run the setup command; whether that succeeds is of no account.
    RunSetup { program: String, args: Vec<String> },
    /// The generation is complete.
    Finish,
    /// The generation has failed.
    Abort(Failure),
}

/// An action as plain mathematical values.
pub enum ActionModel {
    ListTemplates,
    ParseDescriptor { template: Seq<char> },
    ProbeTarget { path: Seq<char> },
    CreateTarget { path: Seq<char> },
    List { dir: Seq<Seq<char>> },
    MakeDirectory { dir: Seq<Seq<char>> },
    Load { file: Seq<Seq<char>> },
    Write { file: Seq<Seq<char>>, text: Seq<char> },
    RunSetup { program: Seq<char>, args: Seq<Seq<char>> },
    Finish,
    Abort(Failure),
}

impl View for Action {
    type V = ActionModel;

    open spec fn view(&self) -> ActionModel {
        match self {
            Action::ListTemplates => ActionModel::ListTemplates,
            Action::ParseDescriptor { template } => ActionModel::ParseDescriptor {
                template: template@,
            },
            Action::ProbeTarget { path } => ActionModel::ProbeTarget { path: path@ },
            Action::CreateTarget { path } => ActionModel::CreateTarget { path: path@ },
            Action::List { dir } => ActionModel::List { dir: string_views(dir@) },
            Action::MakeDirectory { dir } => ActionModel::MakeDirectory { dir: string_views(dir@) },
            Action::Load { file } => ActionModel::Load { file: string_views(file@) },
            Action::Write { file, text } => ActionModel::Write {
                file: string_views(file@),
                text: text@,
            },
            Action::RunSetup { program, args } => ActionModel::RunSetup {
                program: program@,
                args: string_views(args@),
            },
            Action::Finish => ActionModel::Finish,
            Action::Abort(failure) => ActionModel::Abort(*failure),
        }
    }
}

/// How far a generation has come: what it waits for.
#[derive(Clone, Copy, Debug, PartialEq, Eq, Structural)]
pub enum Phase {
    /// Not begun.
    Fresh,
    /// Waiting for the names of the known templates.
    Resolving,
    /// Waiting for the descriptor.
    Parsing,
    /// Waiting to hear whether the target exists.
    Probing,
    /// Waiting for the target directory to be created.
    Creating,
    /// Waiting for the entries of a template directory.
    Listing,
    /// Waiting for a directory to be made below the target.
    Making,
    /// Waiting for the text of a template file.
    Loading,
    /// Waiting for a file to be written.
    Writing,
    /// Waiting for the setup command.
    Hook,
    /// Complete.
    Done,
    /// Failed, and why.
    Failed(Failure),
}

/// A directory of the template whose entries are being handled.
pub struct FrameModel {
    /// The components of its path below the template's root.
    pub dir: Seq<Seq<char>>,
    pub entries: Seq<WalkEntryModel>,
    /// How many of the entries have been handled.
    pub next: nat,
}

/// A generation as plain mathematical values.
pub struct CmdNewModel {
    /// The command-line tokens, beginning with the program's name.
    pub args: Seq<Seq<char>>,
    pub config: ConfigModel,
    pub project_name: Seq<char>,
    pub template_name: Seq<char>,
    pub phase: Phase,
    /// The path that the phase waits on: the directory to list or to make,
    /// the file to load or to write.
    pub pending: Seq<Seq<char>>,
    /// The directories being handled, the template's root first.
    pub frames: Seq<FrameModel>,
}

/// The generation that the command line `args` asks for, not yet begun.
/// The template's name is the token after the program's name.
pub open spec fn fresh(args: Seq<Seq<char>>) -> CmdNewModel {
    CmdNewModel {
        args,
        config: ConfigModel {
            name: Seq::empty(),
            description: Seq::empty(),
            setup: Seq::empty(),
            variables: Map::empty(),
        },
        project_name: Seq::empty(),
        template_name: if args.len() > 1 {
            args[1]
        } else {
            Seq::empty()
        },
        phase: Phase::Fresh,
        pending: Seq::empty(),
        frames: Seq::empty(),
    }
}

/// The generation fails.
pub open spec fn fail(s: CmdNewModel, failure: Failure) -> (CmdNewModel, ActionModel) {
    (CmdNewModel { phase: Phase::Failed(failure), ..s }, ActionModel::Abort(failure))
}

/// The beginning: a generation that was given a template name asks for the
/// known templates, one that was given none fails. A generation that has
/// begun already is not begun again.
pub open spec fn init_model(s: CmdNewModel) -> (CmdNewModel, ActionModel) {
    match s.phase {
        Phase::Fresh => if s.args.len() > 1 {
            (CmdNewModel { phase: Phase::Resolving, ..s }, ActionModel::ListTemplates)
        } else {
            fail(s, Failure::MissingTemplateName)
        },
        Phase::Done => (s, ActionModel::Finish),
        Phase::Failed(failure) => (s, ActionModel::Abort(failure)),
        _ => fail(s, Failure::OutOfTurn),
    }
}

/// The known templates have arrived: a template that is among them has its
/// descriptor parsed, one that is not fails the generation.
pub open spec fn resolved(s: CmdNewModel, names: Seq<Seq<char>>) -> (CmdNewModel, ActionModel) {
    if names.contains(s.template_name) {
        (
            CmdNewModel { phase: Phase::Parsing, ..s },
            ActionModel::ParseDescriptor { template: s.template_name },
        )
    } else {
        fail(s, Failure::TemplateNotFound)
    }
}

/// The variables are bound and the walk through the template begins, at
/// the template's root: the command-line tokens are read into the declared
/// variables, and `projectName` is set to the project's name whatever the
/// tokens said.
pub open spec fn begin_walk(s: CmdNewModel) -> (CmdNewModel, ActionModel) {
    let variables = bind_args(s.config.variables, s.args, 0).insert("projectName"@, s.project_name);
    (
        CmdNewModel {
            config: ConfigModel { variables, ..s.config },
            phase: Phase::Listing,
            pending: Seq::empty(),
            ..s
        },
        ActionModel::List { dir: Seq::empty() },
    )
}

/// The descriptor has arrived. The template's name leaves the tokens; the
/// token that then follows the program's name is the project's name, and the
/// path to reserve. Where there is none, nothing is reserved and the walk
/// begins at once, with an empty project name.
pub open spec fn parsed(s: CmdNewModel, descriptor: Result<ConfigModel, Failure>) -> (
    CmdNewModel,
    ActionModel,
) {
    match descriptor {
        Err(failure) => fail(s, failure),
        Ok(config) => {
            let args = if s.args.len() > 1 {
                s.args.remove(1)
            } else {
                s.args
            };
            if args.len() > 1 {
                (
                    CmdNewModel {
                        args,
                        config,
                        project_name: args[1],
                        phase: Phase::Probing,
                        ..s
                    },
                    ActionModel::ProbeTarget { path: args[1] },
                )
            } else {
                begin_walk(CmdNewModel { args, config, ..s })
            }
        },
    }
}

/// The walk is over: the setup command is run if the descriptor names one,
/// else the generation is complete.
pub open spec fn end_walk(s: CmdNewModel) -> (CmdNewModel, ActionModel) {
    match command_of(s.config.setup) {
        Some(command) => (
            CmdNewModel { phase: Phase::Hook, ..s },
            ActionModel::RunSetup { program: command.program, args: command.args },
        ),
        None => (CmdNewModel { phase: Phase::Done, ..s }, ActionModel::Finish),
    }
}

/// How many entries of the innermost directory are still to be handled.
pub open spec fn entries_left(frames: Seq<FrameModel>) -> nat {
    if frames.len() > 0 && frames.last().next < frames.last().entries.len() {
        (frames.last().entries.len() - frames.last().next) as nat
    } else {
        0
    }
}

/// The walk goes on to the next entry of the innermost directory that has
/// one left; directories that have none left are done with. An unreadable
/// entry fails the generation. An entry that bears the descriptor's name is
/// passed over, whatever it is. A directory is made below the target, to be
/// walked next; a file is loaded, to be rendered. Where no directory is left
/// the walk is over.
pub open spec fn advance(s: CmdNewModel) -> (CmdNewModel, ActionModel)
    decreases s.frames.len(), entries_left(s.frames),
{
    if s.frames.len() == 0 {
        end_walk(s)
    } else {
        let top = s.frames.last();
        if top.next >= top.entries.len() {
            advance(CmdNewModel { frames: s.frames.drop_last(), ..s })
        } else {
            let entry = top.entries[top.next as int];
            let path = top.dir.push(entry.name);
            let moved = CmdNewModel {
                frames: s.frames.update(
                    s.frames.len() - 1,
                    FrameModel { next: top.next + 1, ..top },
                ),
                ..s
            };
            if entry.kind == EntryKind::Unreadable {
                fail(moved, Failure::IoError)
            } else if entry.name == DESCRIPTOR_FILE@ {
                advance(moved)
            } else if entry.kind == EntryKind::Directory {
                (
                    CmdNewModel { phase: Phase::Making, pending: path, ..moved },
                    ActionModel::MakeDirectory { dir: path },
                )
            } else {
                (
                    CmdNewModel { phase: Phase::Loading, pending: path, ..moved },
                    ActionModel::Load { file: path },
                )
            }
        }
    }
}

/// The file that the generation loaded has been rendered: the rendered text
/// is written to the file of the same path below the target; a failed
/// rendering fails the generation with `RenderError`. A generation that has
/// not just loaded a file takes this as out of turn.
pub open spec fn deliver(s: CmdNewModel, outcome: Result<Seq<char>, Failure>) -> (
    CmdNewModel,
    ActionModel,
) {
    match s.phase {
        Phase::Loading => match outcome {
            Ok(text) => (
                CmdNewModel { phase: Phase::Writing, ..s },
                ActionModel::Write { file: s.pending, text },
            ),
            Err(_) => fail(s, Failure::RenderError),
        },
        Phase::Done => (s, ActionModel::Finish),
        Phase::Failed(failure) => (s, ActionModel::Abort(failure)),
        _ => fail(s, Failure::OutOfTurn),
    }
}

/// What the generation `s` does when the event `e` arrives, and what it
/// asks for next.
///
/// The generation goes through its phases in one direction. The template is
/// resolved among the known ones and its descriptor parsed. The target path
/// is probed, and created only if nothing stands there. Then the variables
/// are bound and the template is walked, depth first: each file's text is
/// rendered against the variables and written below the target. Last comes
/// the setup command. The first failure ends the generation; what was
/// written until then stays. An event that the phase does not wait for fails
/// the generation as out of turn. A generation that is complete or has
/// failed stays as it is and repeats its last word.
pub open spec fn step_model(s: CmdNewModel, e: EventModel) -> (CmdNewModel, ActionModel) {
    match s.phase {
        Phase::Done => (s, ActionModel::Finish),
        Phase::Failed(failure) => (s, ActionModel::Abort(failure)),
        Phase::Fresh => fail(s, Failure::OutOfTurn),
        Phase::Resolving => match e {
            EventModel::Templates(names) => resolved(s, names),
            _ => fail(s, Failure::OutOfTurn),
        },
        Phase::Parsing => match e {
            EventModel::Descriptor(descriptor) => parsed(s, descriptor),
            _ => fail(s, Failure::OutOfTurn),
        },
        Phase::Probing => match e {
            EventModel::TargetProbed(exists) => if exists {
                fail(s, Failure::TargetExists)
            } else {
                (
                    CmdNewModel { phase: Phase::Creating, ..s },
                    ActionModel::CreateTarget { path: s.project_name },
                )
            },
            _ => fail(s, Failure::OutOfTurn),
        },
        Phase::Creating => match e {
            EventModel::TargetCreated(done) => if done {
                begin_walk(s)
            } else {
                fail(s, Failure::IoError)
            },
            _ => fail(s, Failure::OutOfTurn),
        },
        Phase::Listing => match e {
            EventModel::Listed(Some(entries)) => advance(
                CmdNewModel {
                    frames: s.frames.push(FrameModel { dir: s.pending, entries, next: 0 }),
                    ..s
                },
            ),
            EventModel::Listed(None) => fail(s, Failure::IoError),
            _ => fail(s, Failure::OutOfTurn),
        },
        Phase::Making => match e {
            EventModel::DirectoryMade => (
                CmdNewModel { phase: Phase::Listing, ..s },
                ActionModel::List { dir: s.pending },
            ),
            _ => fail(s, Failure::OutOfTurn),
        },
        Phase::Loading => match e {
            EventModel::Loaded(Some(text)) => deliver(
                s,
                match template_output(text, s.config.variables) {
                    Some(rendered) => Ok(rendered),
                    None => Err(Failure::RenderError),
                },
            ),
            EventModel::Loaded(None) => fail(s, Failure::IoError),
            _ => fail(s, Failure::OutOfTurn),
        },
        Phase::Writing => match e {
            EventModel::Written(done) => if done {
                advance(s)
            } else {
                fail(s, Failure::IoError)
            },
            _ => fail(s, Failure::OutOfTurn),
        },
        Phase::Hook => match e {
            EventModel::SetupRan => (CmdNewModel { phase: Phase::Done, ..s }, ActionModel::Finish),
            _ => fail(s, Failure::OutOfTurn),
        },
    }
}

struct Frame {
    dir: Vec<String>,
    entries: Vec<WalkEntry>,
    next: usize,
}

impl View for Frame {
    type V = FrameModel;

    closed spec fn view(&self) -> FrameModel {
        FrameModel {
            dir: string_views(self.dir@),
            entries: walk_entry_models(self.entries@),
            next: self.next as nat,
        }
    }
}

spec fn frame_models(frames: Seq<Frame>) -> Seq<FrameModel> {
    frames.map_values(|f: Frame| f@)
}

/// The generation of one new project.
pub struct CmdNew {
    args: Vec<String>,
    config: Config,
    project_name: String,
    template_name: String,
    phase: Phase,
    pending: Vec<String>,
    frames: Vec<Frame>,
}

impl View for CmdNew {
    type V = CmdNewModel;

    closed spec fn view(&self) -> CmdNewModel {
        CmdNewModel {
            args: string_views(self.args@),
            config: self.config@,
            project_name: self.project_name@,
            template_name: self.template_name@,
            phase: self.phase,
            pending: string_views(self.pending@),
            frames: frame_models(self.frames@),
        }
    }
}

impl CmdNew {
    /// The generation that the command line asks for, not yet begun:
    /// `arg_list` holds the program's name, the template's name, the
    /// project's name, and the tokens that set variables.
    pub fn new(arg_list: Vec<String>) -> (cmd: Self)
        ensures
            cmd@ == fresh(string_views(arg_list@)),
    {
        let template_name = if arg_list.len() > 1 {
            arg_list[1].clone()
        } else {
            String::new()
        };
        let pending: Vec<String> = Vec::new();
        let frames: Vec<Frame> = Vec::new();
        assert(string_views(pending@) =~= Seq::<Seq<char>>::empty());
        assert(frame_models(frames@) =~= Seq::<FrameModel>::empty());
        CmdNew {
            args: arg_list,
            config: Config::empty(),
            project_name: String::new(),
            template_name,
            phase: Phase::Fresh,
            pending,
            frames,
        }
    }

    /// How far the generation has come.
    pub fn phase(&self) -> (phase: Phase)
        ensures
            phase == self@.phase,
    {
        self.phase
    }

    /// The name of the template.
    pub fn template_name(&self) -> (name: &String)
        ensures
            name@ == self@.template_name,
    {
        &self.template_name
    }

    /// The name of the project, which is also the path of the target; empty
    /// until the descriptor has arrived.
    pub fn project_name(&self) -> (name: &String)
        ensures
            name@ == self@.project_name,
    {
        &self.project_name
    }

    /// The descriptor; empty until it has arrived. Once the walk has begun
    /// its variables are the bound ones.
    pub fn config(&self) -> (config: &Config)
        ensures
            config@ == self@.config,
    {
        &self.config
    }

    fn fail(&mut self, failure: Failure) -> (action: Action)
        ensures
            (final(self)@, action@) == fail(old(self)@, failure),
    {
        self.phase = Phase::Failed(failure);
        Action::Abort(failure)
    }

    /// Begins the generation: see [`init_model`].
    pub fn init(&mut self) -> (action: Action)
        ensures
            (final(self)@, action@) == init_model(old(self)@),
    {
        match self.phase {
            Phase::Fresh => {
                if self.args.len() > 1 {
                    self.phase = Phase::Resolving;
                    Action::ListTemplates
                } else {
                    self.fail(Failure::MissingTemplateName)
                }
            },
            Phase::Done => Action::Finish,
            Phase::Failed(failure) => Action::Abort(failure),
            _ => self.fail(Failure::OutOfTurn),
        }
    }

    fn begin_walk(&mut self) -> (action: Action)
        ensures
            (final(self)@, action@) == begin_walk(old(self)@),
    {
        collect_args(&mut self.config.variables, &self.args);
        self.config.variables.insert(String::from_str("projectName"), self.project_name.clone());
        self.phase = Phase::Listing;
        self.pending = Vec::new();
        let dir: Vec<String> = Vec::new();
        assert(string_views(dir@) =~= Seq::<Seq<char>>::empty());
        assert(string_views(self.pending@) =~= Seq::<Seq<char>>::empty());
        Action::List { dir }
    }

    fn end_walk(&mut self) -> (action: Action)
        ensures
            (final(self)@, action@) == end_walk(old(self)@),
    {
        match split_command(&self.config.setup_cmd) {
            Some(command) => {
                self.phase = Phase::Hook;
                Action::RunSetup { program: command.program, args: command.args }
            },
            None => {
                self.phase = Phase::Done;
                Action::Finish
            },
        }
    }

    fn advance(&mut self) -> (action: Action)
        ensures
            (final(self)@, action@) == advance(old(self)@),
    {
        loop
            invariant
                advance(self@) == advance(old(self)@),
            decreases self@.frames.len(), entries_left(self@.frames),
        {
            let depth = self.frames.len();
            if depth == 0 {
                return self.end_walk();
            }
            let ghost before = self@;
            let ghost top = before.frames.last();
            assert(top == self.frames@[depth - 1]@);
            let next = self.frames[depth - 1].next;
            if next >= self.frames[depth - 1].entries.len() {
                self.frames.pop();
                assert(self@.frames =~= before.frames.drop_last());
                assert(self@ == (CmdNewModel { frames: before.frames.drop_last(), ..before }));
                continue ;
            }
            let kind = self.frames[depth - 1].entries[next].kind;
            let name = self.frames[depth - 1].entries[next].name.clone();
            let mut path = clone_strings(&self.frames[depth - 1].dir);
            let ghost dir = path@;
            path.push(name.clone());
            assert(string_views(path@) =~= string_views(dir).push(name@));
            assert(top.entries[next as int] == self.frames@[depth - 1].entries@[next as int]@);
            self.frames[depth - 1].next = next + 1;
            let ghost moved = CmdNewModel {
                frames: before.frames.update(
                    before.frames.len() - 1,
                    FrameModel { next: top.next + 1, ..top },
                ),
                ..before
            };
            assert(self@.frames =~= moved.frames);
            assert(self@ == moved);
            if kind == EntryKind::Unreadable {
                return self.fail(Failure::IoError);
            }
            let descriptor = String::from_str(DESCRIPTOR_FILE);
            if name == descriptor {
                continue ;
            }
            if kind == EntryKind::Directory {
                self.phase = Phase::Making;
                self.pending = clone_strings(&path);
                return Action::MakeDirectory { dir: path };
            }
            self.phase = Phase::Loading;
            self.pending = clone_strings(&path);
            return Action::Load { file: path };
        }
    }

    fn parsed(&mut self, descriptor: Result<Config, Failure>) -> (action: Action)
        ensures
            (final(self)@, action@) == parsed(
                old(self)@,
                match descriptor {
                    Ok(config) => Ok(config@),
                    Err(failure) => Err(failure),
                },
            ),
    {
        match descriptor {
            Err(failure) => self.fail(failure),
            Ok(config) => {
                if self.args.len() > 1 {
                    self.args.remove(1);
                    assert(string_views(self.args@) =~= string_views(old(self).args@).remove(1));
                }
                self.config = config;
                if self.args.len() > 1 {
                    self.project_name = self.args[1].clone();
                    self.phase = Phase::Probing;
                    Action::ProbeTarget { path: self.project_name.clone() }
                } else {
                    self.begin_walk()
                }
            },
        }
    }

    /// Takes in what the rendering of the loaded file came to and says what
    /// is to be done next: see [`deliver`].
    pub fn deliver(&mut self, outcome: Result<String, Failure>) -> (action: Action)
        ensures
            (final(self)@, action@) == deliver(
                old(self)@,
                match outcome {
                    Ok(text) => Ok(text@),
                    Err(failure) => Err(failure),
                },
            ),
    {
        match self.phase {
            Phase::Loading => match outcome {
                Ok(text) => {
                    self.phase = Phase::Writing;
                    Action::Write { file: clone_strings(&self.pending), text }
                },
                Err(_) => self.fail(Failure::RenderError),
            },
            Phase::Done => Action::Finish,
            Phase::Failed(failure) => Action::Abort(failure),
            _ => self.fail(Failure::OutOfTurn),
        }
    }

    /// Takes in what came of the last action and says what is to be done
    /// next: see [`step_model`].
    pub fn step(&mut self, event: Event) -> (action: Action)
        ensures
            (final(self)@, action@) == step_model(old(self)@, event@),
    {
        match self.phase {
            Phase::Done => Action::Finish,
            Phase::Failed(failure) => Action::Abort(failure),
            Phase::Fresh => self.fail(Failure::OutOfTurn),
            Phase::Resolving => match event {
                Event::Templates(names) => {
                    if contains_string(&names, &self.template_name) {
                        self.phase = Phase::Parsing;
                        Action::ParseDescriptor { template: self.template_name.clone() }
                    } else {
                        self.fail(Failure::TemplateNotFound)
                    }
                },
                _ => self.fail(Failure::OutOfTurn),
            },
            Phase::Parsing => match event {
                Event::Descriptor(file) => self.parsed(Config::parse(file)),
                _ => self.fail(Failure::OutOfTurn),
            },
            Phase::Probing => match event {
                Event::TargetProbed(exists) => {
                    if exists {
                        self.fail(Failure::TargetExists)
                    } else {
                        self.phase = Phase::Creating;
                        Action::CreateTarget { path: self.project_name.clone() }
                    }
                },
                _ => self.fail(Failure::OutOfTurn),
            },
            Phase::Creating => match event {
                Event::TargetCreated(done) => {
                    if done {
                        self.begin_walk()
                    } else {
                        self.fail(Failure::IoError)
                    }
                },
                _ => self.fail(Failure::OutOfTurn),
            },
            Phase::Listing => match event {
                Event::Listed(Some(entries)) => {
                    let ghost before = self.frames@;
                    let frame = Frame { dir: clone_strings(&self.pending), entries, next: 0 };
                    self.frames.push(frame);
                    assert(frame_models(self.frames@) =~= frame_models(before).push(frame@));
                    self.advance()
                },
                Event::Listed(None) => self.fail(Failure::IoError),
                _ => self.fail(Failure::OutOfTurn),
            },
            Phase::Making => match event {
                Event::DirectoryMade => {
                    self.phase = Phase::Listing;
                    Action::List { dir: clone_strings(&self.pending) }
                },
                _ => self.fail(Failure::OutOfTurn),
            },
            Phase::Loading => match event {
                Event::Loaded(Some(text)) => {
                    let outcome = render(&text, &self.config.variables);
                    self.deliver(outcome)
                },
                Event::Loaded(None) => self.fail(Failure::IoError),
                _ => self.fail(Failure::OutOfTurn),
            },
            Phase::Writing => match event {
                Event::Written(done) => {
                    if done {
                        self.advance()
                    } else {
                        self.fail(Failure::IoError)
                    }
                },
                _ => self.fail(Failure::OutOfTurn),
            },
            Phase::Hook => match event {
                Event::SetupRan => {
                    self.phase = Phase::Done;
                    Action::Finish
                },
                _ => self.fail(Failure::OutOfTurn),
            },
        }
    }
}

} // verus!
