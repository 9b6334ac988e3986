//! The index of templates as plain mathematical values, and what its
//! operations make of it.

use crate::paths::path_file_name;
use vstd::prelude::*;

verus! {

/// What an entry holds, as plain mathematical values.
pub struct EntryModel {
    pub template_name: Seq<char>,
    pub description: Seq<char>,
    pub path: Seq<char>,
    pub last_modified: u64,
}

/// A scanned template directory as plain mathematical values.
pub struct LiveModel {
    pub path: Seq<char>,
    pub category: Seq<char>,
    pub description: Seq<char>,
    pub modified: Option<u64>,
}

impl LiveModel {
    /// The name of the template: the name of its directory.
    pub open spec fn name(self) -> Option<Seq<char>> {
        path_file_name(self.path)
    }

    /// The modification time that counts: an unreadable one counts as 0.
    pub open spec fn stamp(self) -> u64 {
        match self.modified {
            Some(t) => t,
            None => 0,
        }
    }

    /// The entry that the index holds for this directory once it has taken
    /// it in under the name `name`.
    pub open spec fn entry(self, name: Seq<char>) -> EntryModel {
        EntryModel {
            template_name: name,
            description: self.description,
            path: self.path,
            last_modified: self.stamp(),
        }
    }
}

/// One category of the index: its name and its templates, oldest first.
pub struct CategoryModel {
    pub name: Seq<char>,
    pub entries: Seq<EntryModel>,
}

/// `i` is the least index at which `entries` holds a template named `name`.
pub open spec fn is_first_entry(entries: Seq<EntryModel>, name: Seq<char>, i: int) -> bool {
    &&& 0 <= i < entries.len()
    &&& entries[i].template_name == name
    &&& forall|j: int| 0 <= j < i ==> (#[trigger] entries[j]).template_name != name
}

/// The least index at which `entries` holds a template named `name`.
pub open spec fn find_entry(entries: Seq<EntryModel>, name: Seq<char>) -> Option<int>
    decreases entries.len(),
{
    if entries.len() == 0 {
        None
    } else if entries[0].template_name == name {
        Some(0)
    } else {
        match find_entry(entries.drop_first(), name) {
            Some(i) => Some(i + 1),
            None => None,
        }
    }
}

/// `g` is the least index at which `cache` holds a category named `name`.
pub open spec fn is_first_category(cache: Seq<CategoryModel>, name: Seq<char>, g: int) -> bool {
    &&& 0 <= g < cache.len()
    &&& cache[g].name == name
    &&& forall|h: int| 0 <= h < g ==> (#[trigger] cache[h]).name != name
}

/// The least index at which `cache` holds a category named `name`.
pub open spec fn find_category(cache: Seq<CategoryModel>, name: Seq<char>) -> Option<int>
    decreases cache.len(),
{
    if cache.len() == 0 {
        None
    } else if cache[0].name == name {
        Some(0)
    } else {
        match find_category(cache.drop_first(), name) {
            Some(g) => Some(g + 1),
            None => None,
        }
    }
}

/// What one category becomes when the index takes in the directory `live`
/// under the name `name`, and whether that changed it: a template that it
/// does not hold is added at the end, one that it holds with an older time is
/// overwritten in place, one that is up to date stays.
pub open spec fn absorb_entries(entries: Seq<EntryModel>, name: Seq<char>, live: LiveModel) -> (
    Seq<EntryModel>,
    bool,
) {
    match find_entry(entries, name) {
        None => (entries.push(live.entry(name)), true),
        Some(i) => if entries[i].last_modified < live.stamp() {
            (entries.update(i, live.entry(name)), true)
        } else {
            (entries, false)
        },
    }
}

/// What the index becomes when it takes in the directory `live` as the
/// template `name`, and whether that changed it: the template goes into the
/// category that the directory names, which is added as the last one where
/// the index does not hold it yet.
pub open spec fn absorb_as(cache: Seq<CategoryModel>, name: Seq<char>, live: LiveModel) -> (
    Seq<CategoryModel>,
    bool,
) {
    match find_category(cache, live.category) {
        None => (
            cache.push(CategoryModel { name: live.category, entries: seq![live.entry(name)] }),
            true,
        ),
        Some(g) => {
            let (entries, changed) = absorb_entries(cache[g].entries, name, live);
            (cache.update(g, CategoryModel { name: cache[g].name, entries }), changed)
        },
    }
}

/// What the index becomes when it takes in the directory `live`, and whether
/// that changed it. The name of the template is the name of the directory; a
/// directory whose path has no final component has no template name and is
/// passed over.
pub open spec fn absorb(cache: Seq<CategoryModel>, live: LiveModel) -> (Seq<CategoryModel>, bool) {
    match live.name() {
        None => (cache, false),
        Some(name) => absorb_as(cache, name, live),
    }
}

/// The index after it has taken in every directory of `lives`, first to
/// last, and whether any of them changed it.
pub open spec fn absorb_all(cache: Seq<CategoryModel>, lives: Seq<LiveModel>) -> (
    Seq<CategoryModel>,
    bool,
)
    decreases lives.len(),
{
    if lives.len() == 0 {
        (cache, false)
    } else {
        let (before, changed_before) = absorb_all(cache, lives.drop_last());
        let (after, changed_now) = absorb(before, lives.last());
        (after, changed_before || changed_now)
    }
}

/// The template names of a scan, in the order of the scan: for each
/// directory its name, and `None` for a directory that has none.
pub open spec fn live_names(lives: Seq<LiveModel>) -> Seq<Option<Seq<char>>> {
    lives.map_values(|l: LiveModel| l.name())
}

/// A scan with the template names `names` saw the template `template_name`
/// in a directory named `folder`. A directory holds the template of its own
/// name, so this holds where both are the name of one directory of the scan.
pub open spec fn seen(
    names: Seq<Option<Seq<char>>>,
    template_name: Seq<char>,
    folder: Seq<char>,
) -> bool {
    exists|i: int|
        0 <= i < names.len() && #[trigger] names[i] == Some(template_name) && names[i] == Some(
            folder,
        )
}

/// An entry whose path leads to a directory named `folder` (`None`: to
/// none) survives a scan with the template names `names`: its name, paired
/// with that of the directory, was seen.
pub open spec fn survives_as(
    names: Seq<Option<Seq<char>>>,
    folder: Option<Seq<char>>,
    entry: EntryModel,
) -> bool {
    match folder {
        Some(folder) => seen(names, entry.template_name, folder),
        None => false,
    }
}

/// The entry survives the pruning that ends a refresh against the scan
/// `lives`: its name, paired with the name of the directory that its path
/// leads to, was seen.
pub open spec fn survives(lives: Seq<LiveModel>, entry: EntryModel) -> bool {
    survives_as(live_names(lives), path_file_name(entry.path), entry)
}

/// The entries among `entries` that survive, in their order.
pub open spec fn prune_entries(entries: Seq<EntryModel>, lives: Seq<LiveModel>) -> Seq<EntryModel> {
    entries.filter(|e: EntryModel| survives(lives, e))
}

/// The index with every entry removed that does not survive. Categories
/// stay, also where they are left empty.
pub open spec fn prune(cache: Seq<CategoryModel>, lives: Seq<LiveModel>) -> Seq<CategoryModel> {
    cache.map_values(
        |c: CategoryModel| CategoryModel { name: c.name, entries: prune_entries(c.entries, lives) },
    )
}

/// Some entry of the index does not survive.
pub open spec fn prunes_any(cache: Seq<CategoryModel>, lives: Seq<LiveModel>) -> bool {
    exists|g: int, i: int|
        0 <= g < cache.len() && 0 <= i < cache[g].entries.len() && !survives(
            lives,
            #[trigger] cache[g].entries[i],
        )
}

/// A refresh of the index against one scan: the index takes in every
/// directory of the scan, then drops the entries that do not survive. The
/// index counts as changed when a directory changed it or an entry was
/// dropped.
pub open spec fn refresh_model(cache: Seq<CategoryModel>, lives: Seq<LiveModel>) -> (
    Seq<CategoryModel>,
    bool,
) {
    let (taken, changed) = absorb_all(cache, lives);
    (prune(taken, lives), changed || prunes_any(taken, lives))
}

/// No category name occurs twice in the index, and no template name occurs
/// twice within a category.
pub open spec fn cache_wf(cache: Seq<CategoryModel>) -> bool {
    &&& forall|g: int, h: int|
        0 <= g < h < cache.len() ==> (#[trigger] cache[g]).name != (#[trigger] cache[h]).name
    &&& forall|g: int, i: int, j: int|
        0 <= g < cache.len() && 0 <= i < j < cache[g].entries.len() ==> (
        #[trigger] cache[g].entries[i]).template_name != (
        #[trigger] cache[g].entries[j]).template_name
}

/// The entries with `entry` added at the end, unless one of them bears its
/// name already.
pub open spec fn merge_entry(entries: Seq<EntryModel>, entry: EntryModel) -> Seq<EntryModel> {
    if find_entry(entries, entry.template_name) is None {
        entries.push(entry)
    } else {
        entries
    }
}

/// The entries after each entry of `more` was merged in, first to last.
pub open spec fn merge_entries(entries: Seq<EntryModel>, more: Seq<EntryModel>) -> Seq<EntryModel>
    decreases more.len(),
{
    if more.len() == 0 {
        entries
    } else {
        merge_entry(merge_entries(entries, more.drop_last()), more.last())
    }
}

/// The index after it merged in the entries of `category`: into the category
/// of that name where it has one, else into a new last category.
pub open spec fn merge_category(cache: Seq<CategoryModel>, category: CategoryModel) -> Seq<
    CategoryModel,
> {
    match find_category(cache, category.name) {
        None => cache.push(
            CategoryModel {
                name: category.name,
                entries: merge_entries(Seq::empty(), category.entries),
            },
        ),
        Some(g) => cache.update(
            g,
            CategoryModel {
                name: cache[g].name,
                entries: merge_entries(cache[g].entries, category.entries),
            },
        ),
    }
}

/// The index after it merged in each of `categories`, first to last.
pub open spec fn merge_categories(cache: Seq<CategoryModel>, categories: Seq<CategoryModel>) -> Seq<
    CategoryModel,
>
    decreases categories.len(),
{
    if categories.len() == 0 {
        cache
    } else {
        merge_category(merge_categories(cache, categories.drop_last()), categories.last())
    }
}

/// The line that shows one entry: its name and its description.
pub open spec fn entry_line(entry: EntryModel) -> Seq<char> {
    " - "@ + entry.template_name + ": "@ + entry.description
}

/// The lines that show one category: its name, then one line for each of
/// its entries, in their order.
pub open spec fn category_lines(category: CategoryModel) -> Seq<Seq<char>> {
    seq![category.name] + category.entries.map_values(|e: EntryModel| entry_line(e))
}

/// The lines that show the index: those of its categories, in their order.
pub open spec fn listing_lines(cache: Seq<CategoryModel>) -> Seq<Seq<char>>
    decreases cache.len(),
{
    if cache.len() == 0 {
        Seq::empty()
    } else {
        listing_lines(cache.drop_last()) + category_lines(cache.last())
    }
}

} // verus!
