//! Template descriptors and the directory that holds the templates.

use crate::error::Failure;
use crate::variables::{pairs_map, variable_models, Variable, Variables};
use vstd::prelude::*;

verus! {

/// The name of the descriptor file inside a template's directory.
pub const DESCRIPTOR_FILE: &'static str = "config.toml";

/// The name of the index file inside the configuration directory.
pub const CACHE_FILE: &'static str = ".cache.json";

/// The name of the library's own directory inside the user's configuration
/// directory.
pub const CONFIG_FOLDER: &'static str = "kick";

/// The descriptor of a template.
pub struct Config {
    /// The category of the template, conventionally a language.
    pub language_name: String,
    pub discription: String,
    /// The command to run once a project was generated; blank for none.
    pub setup_cmd: String,
    /// The variables that the template declares, with their defaults.
    pub variables: Variables,
}

/// A descriptor as plain mathematical values.
pub struct ConfigModel {
    pub name: Seq<char>,
    pub description: Seq<char>,
    pub setup: Seq<char>,
    pub variables: Map<Seq<char>, Seq<char>>,
}

impl View for Config {
    type V = ConfigModel;

    open spec fn view(&self) -> ConfigModel {
        ConfigModel {
            name: self.language_name@,
            description: self.discription@,
            setup: self.setup_cmd@,
            variables: self.variables@,
        }
    }
}

/// The fields of a descriptor file, as far as the file gives them.
pub struct DescriptorParts {
    /// The category of the template; the one field that a descriptor must
    /// give.
    pub name: String,
    pub description: Option<String>,
    pub setup: Option<String>,
    pub variables: Option<Vec<Variable>>,
}

/// What was found where the descriptor of a template is kept.
pub enum Descriptor {
    /// No descriptor file is there, or it cannot be read.
    Missing,
    /// The file does not spell out a descriptor.
    Malformed,
    /// The file spells out these fields.
    Parsed(DescriptorParts),
}

/// The descriptor that a descriptor file stands for. What the file leaves
/// out is empty. A file that is missing or malformed stands for none.
pub open spec fn parse_model(file: Descriptor) -> Result<ConfigModel, Failure> {
    match file {
        Descriptor::Missing => Err(Failure::NotFound),
        Descriptor::Malformed => Err(Failure::ParseError),
        Descriptor::Parsed(parts) => Ok(
            ConfigModel {
                name: parts.name@,
                description: match parts.description {
                    Some(d) => d@,
                    None => Seq::empty(),
                },
                setup: match parts.setup {
                    Some(s) => s@,
                    None => Seq::empty(),
                },
                variables: match parts.variables {
                    Some(v) => pairs_map(variable_models(v@)),
                    None => Map::empty(),
                },
            },
        ),
    }
}

/// What a look at one file-system entry found.
#[derive(Clone, Copy, Debug, PartialEq, Eq, Structural)]
pub enum Probe {
    /// The entry could not be examined, or is not there.
    Unreadable,
    Directory,
    File,
    /// Neither a directory nor a regular file.
    Other,
}

/// One entry of the configuration directory, as a scan found it.
pub struct EntryProbe {
    /// The name of the entry; of no account where the entry is unreadable.
    pub name: String,
    /// What the entry itself is.
    pub kind: Probe,
    /// What stands under the descriptor's name inside the entry.
    pub descriptor: Probe,
}

/// The entry is a template: a directory that holds a descriptor file.
pub open spec fn is_template(entry: EntryProbe) -> bool {
    entry.kind == Probe::Directory && entry.descriptor == Probe::File
}

/// The names of the templates among `entries`, in the order of the scan.
pub open spec fn template_names(entries: Seq<EntryProbe>) -> Seq<Seq<char>> {
    entries.filter(|e: EntryProbe| is_template(e)).map_values(|e: EntryProbe| e.name@)
}

/// The names of the directories among `entries` that hold a descriptor
/// file, in the order of the scan. Entries that could not be examined are
/// passed over.
pub fn list_dirs_with_config_file(entries: &Vec<EntryProbe>) -> (names: Vec<String>)
    ensures
        names@.map_values(|s: String| s@) == template_names(entries@),
{
    let ghost pick = |e: EntryProbe| is_template(e);
    let ghost name_of = |e: EntryProbe| e.name@;
    let mut names: Vec<String> = Vec::new();
    let mut i: usize = 0;
    assert(entries@.take(0) =~= Seq::<EntryProbe>::empty());
    assert(entries@.take(0).filter(pick) =~= Seq::<EntryProbe>::empty()) by {
        reveal(Seq::filter);
    }
    while i < entries.len()
        invariant
            i <= entries.len(),
            pick == |e: EntryProbe| is_template(e),
            name_of == |e: EntryProbe| e.name@,
            names@.map_values(|s: String| s@) == entries@.take(i as int).filter(pick).map_values(
                name_of,
            ),
        decreases entries.len() - i,
    {
        let ghost before = names@;
        let ghost seen = entries@.take(i as int);
        assert(entries@.take(i as int + 1) =~= seen.push(entries@[i as int]));
        proof {
            seen.lemma_filter_push(entries@[i as int], pick);
        }
        let entry = &entries[i];
        if entry.kind == Probe::Directory && entry.descriptor == Probe::File {
            names.push(entry.name.clone());
            assert(names@.map_values(|s: String| s@) =~= before.map_values(|s: String| s@).push(
                entry.name@,
            ));
            assert(seen.filter(pick).push(*entry).map_values(name_of) =~= seen.filter(
                pick,
            ).map_values(name_of).push(entry.name@));
        }
        i += 1;
    }
    assert(entries@.take(i as int) =~= entries@);
    names
}

impl Config {
    /// The names of the known templates: those of the directories among the
    /// scanned entries that hold a descriptor file. Where the configuration
    /// directory could not be scanned (`None`), no template is known.
    pub fn list(scan: &Option<Vec<EntryProbe>>) -> (names: Vec<String>)
        ensures
            names@.map_values(|s: String| s@) == match scan {
                Some(entries) => template_names(entries@),
                None => Seq::<Seq<char>>::empty(),
            },
    {
        match scan {
            Some(entries) => list_dirs_with_config_file(entries),
            None => {
                let names: Vec<String> = Vec::new();
                assert(names@.map_values(|s: String| s@) =~= Seq::<Seq<char>>::empty());
                names
            },
        }
    }

    /// A descriptor with every field empty.
    pub fn empty() -> (config: Config)
        ensures
            config@ == (ConfigModel {
                name: Seq::empty(),
                description: Seq::empty(),
                setup: Seq::empty(),
                variables: Map::empty(),
            }),
    {
        Config {
            language_name: String::new(),
            setup_cmd: String::new(),
            variables: Variables::new(),
            discription: String::new(),
        }
    }

    /// The descriptor that a descriptor file holds. Fails with `NotFound`
    /// where the file is missing and with `ParseError` where it is
    /// malformed. A description, a setup command or variables that the file
    /// leaves out are empty.
    pub fn parse(file: Descriptor) -> (result: Result<Config, Failure>)
        ensures
            match result {
                Ok(config) => parse_model(file) == Ok::<ConfigModel, Failure>(config@),
                Err(failure) => parse_model(file) == Err::<ConfigModel, Failure>(failure),
            },
    {
        match file {
            Descriptor::Missing => Err(Failure::NotFound),
            Descriptor::Malformed => Err(Failure::ParseError),
            Descriptor::Parsed(parts) => Ok(
                Config {
                    language_name: parts.name,
                    discription: match parts.description {
                        Some(d) => d,
                        None => String::new(),
                    },
                    setup_cmd: match parts.setup {
                        Some(s) => s,
                        None => String::new(),
                    },
                    variables: match parts.variables {
                        Some(v) => Variables::from_pairs(v),
                        None => Variables::new(),
                    },
                },
            ),
        }
    }
}

/// What to do about the configuration directory.
#[derive(Clone, Copy, Debug, PartialEq, Eq, Structural)]
pub enum ConfigDir {
    /// It is there: use it.
    Present,
    /// Nothing is there: create it, with the directories above it.
    Create,
}

/// Decides what to do about the configuration directory, from what a look at
/// the file system found: whether the platform names a configuration
/// directory for the user at all, and what stands at the library's place
/// inside it.
pub fn get_config_dir(base_known: bool, found: Probe) -> (plan: Result<ConfigDir, Failure>)
    ensures
        plan == if !base_known {
            Err::<ConfigDir, Failure>(Failure::NotFound)
        } else {
            match found {
                Probe::Unreadable => Ok(ConfigDir::Create),
                Probe::Directory => Ok(ConfigDir::Present),
                _ => Err(Failure::IoError),
            }
        },
{
    if !base_known {
        return Err(Failure::NotFound);
    }
    match found {
        Probe::Unreadable => Ok(ConfigDir::Create),
        Probe::Directory => Ok(ConfigDir::Present),
        _ => Err(Failure::IoError),
    }
}

} // verus!
