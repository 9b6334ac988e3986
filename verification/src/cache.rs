//! The persisted index of templates, grouped by category.

use crate::cache_laws::{
    lemma_absorb_as, lemma_find_category, lemma_find_entry, lemma_merge_categories,
    lemma_refresh_outcome,
};
use crate::cache_model::{
    absorb_all, absorb_as, cache_wf, find_category, find_entry, is_first_category, is_first_entry,
    listing_lines, live_names, merge_categories, merge_category, merge_entries, merge_entry, prune,
    prune_entries, prunes_any, refresh_model, seen, survives, survives_as, category_lines,
    entry_line, CategoryModel, EntryModel, LiveModel,
};
use crate::config::{parse_model, Descriptor};
use crate::error::Failure;
use crate::paths::file_name_of;
use crate::text::string_views;
use vstd::prelude::*;
use vstd::string::StringExecFns;

verus! {

/// One template as the index records it.
pub struct TemplateCacheEntry {
    pub template_name: String,
    pub discription: String,
    pub path: String,
    pub last_modified: u64,
}

impl View for TemplateCacheEntry {
    type V = EntryModel;

    open spec fn view(&self) -> EntryModel {
        EntryModel {
            template_name: self.template_name@,
            description: self.discription@,
            path: self.path@,
            last_modified: self.last_modified,
        }
    }
}

impl Clone for TemplateCacheEntry {
    fn clone(&self) -> (res: Self)
        ensures
            res@ == self@,
    {
        TemplateCacheEntry {
            template_name: self.template_name.clone(),
            discription: self.discription.clone(),
            path: self.path.clone(),
            last_modified: self.last_modified,
        }
    }
}

/// A template directory as one scan of the configuration directory found it.
pub struct LiveTemplate {
    /// The directory of the template.
    pub path: String,
    /// The category that its descriptor names.
    pub category: String,
    /// The description that its descriptor gives.
    pub discription: String,
    /// When its descriptor was last modified, in seconds since the epoch;
    /// `None` where the time could not be read.
    pub modified: Option<u64>,
}

impl View for LiveTemplate {
    type V = LiveModel;

    open spec fn view(&self) -> LiveModel {
        LiveModel {
            path: self.path@,
            category: self.category@,
            description: self.discription@,
            modified: self.modified,
        }
    }
}

/// A directory of the configuration directory that holds a descriptor file,
/// as a scan found it.
pub struct FoundTemplate {
    /// The directory.
    pub path: String,
    /// When the descriptor file was last modified, in seconds since the
    /// epoch; `None` where the time could not be read.
    pub modified: Option<u64>,
    /// What the descriptor file holds.
    pub descriptor: Descriptor,
}

/// The directory holds a template: its descriptor can be read and
/// understood.
pub open spec fn is_live(found: FoundTemplate) -> bool {
    parse_model(found.descriptor) is Ok
}

/// The template that the directory holds.
pub open spec fn live_of(found: FoundTemplate) -> LiveModel {
    LiveModel {
        path: found.path@,
        category: parse_model(found.descriptor)->Ok_0.name,
        description: parse_model(found.descriptor)->Ok_0.description,
        modified: found.modified,
    }
}

/// The templates among the directories of a scan, in the order of the scan.
/// A directory whose descriptor cannot be read or understood is passed over.
pub open spec fn live_among(found: Seq<FoundTemplate>) -> Seq<LiveModel> {
    found.filter(|f: FoundTemplate| is_live(f)).map_values(|f: FoundTemplate| live_of(f))
}

/// The category and the description that a descriptor file gives; `None`
/// where the file is missing or malformed.
fn category_and_description(file: &Descriptor) -> (found: Option<(String, String)>)
    ensures
        match found {
            Some((category, description)) => parse_model(*file) is Ok && parse_model(
                *file,
            )->Ok_0.name == category@ && parse_model(*file)->Ok_0.description == description@,
            None => parse_model(*file) is Err,
        },
{
    match file {
        Descriptor::Parsed(parts) => Some(
            (
                parts.name.clone(),
                match &parts.description {
                    Some(d) => d.clone(),
                    None => String::new(),
                },
            ),
        ),
        _ => None,
    }
}

/// The templates among the directories of a scan: see [`live_among`].
pub fn live_templates(found: &Vec<FoundTemplate>) -> (live: Vec<LiveTemplate>)
    ensures
        live_models(live@) == live_among(found@),
{
    let ghost pick = |f: FoundTemplate| is_live(f);
    let ghost turn = |f: FoundTemplate| live_of(f);
    let mut live: Vec<LiveTemplate> = Vec::new();
    let mut i: usize = 0;
    assert(found@.take(0) =~= Seq::<FoundTemplate>::empty());
    assert(found@.take(0).filter(pick) =~= Seq::<FoundTemplate>::empty()) by {
        reveal(Seq::filter);
    }
    while i < found.len()
        invariant
            i <= found.len(),
            pick == |f: FoundTemplate| is_live(f),
            turn == |f: FoundTemplate| live_of(f),
            live_models(live@) == found@.take(i as int).filter(pick).map_values(turn),
        decreases found.len() - i,
    {
        let ghost seen = found@.take(i as int);
        let ghost before = live@;
        let next = &found[i];
        proof {
            assert(found@.take(i as int + 1) =~= seen.push(*next));
            seen.lemma_filter_push(*next, pick);
        }
        match category_and_description(&next.descriptor) {
            Some((category, discription)) => {
                let template = LiveTemplate {
                    path: next.path.clone(),
                    category,
                    discription,
                    modified: next.modified,
                };
                assert(template@ == live_of(*next));
                live.push(template);
                assert(live_models(live@) =~= live_models(before).push(template@));
                assert(seen.filter(pick).push(*next).map_values(turn) =~= seen.filter(
                    pick,
                ).map_values(turn).push(live_of(*next)));
            },
            None => {},
        }
        i += 1;
    }
    assert(found@.take(i as int) =~= found@);
    live
}

/// The views of a scan's directories, in the order of the scan.
pub open spec fn live_models(live: Seq<LiveTemplate>) -> Seq<LiveModel> {
    live.map_values(|l: LiveTemplate| l@)
}

/// The views of stored entries, in their order.
pub open spec fn entry_models(entries: Seq<TemplateCacheEntry>) -> Seq<EntryModel> {
    entries.map_values(|e: TemplateCacheEntry| e@)
}

/// One category with its templates, as the index hands it out and takes it
/// in.
pub struct Category {
    pub name: String,
    pub entries: Vec<TemplateCacheEntry>,
}

impl View for Category {
    type V = CategoryModel;

    open spec fn view(&self) -> CategoryModel {
        CategoryModel { name: self.name@, entries: entry_models(self.entries@) }
    }
}

/// The views of categories, in their order.
pub open spec fn category_models(categories: Seq<Category>) -> Seq<CategoryModel> {
    categories.map_values(|c: Category| c@)
}

/// What was found where the index file is kept.
pub enum CacheFile {
    /// No file is there.
    Absent,
    /// A file is there and cannot be read.
    Unreadable,
    /// A file of `length` bytes was read; `parsed` holds the categories that
    /// it spells out, or `None` where it spells out none.
    Read { length: u64, parsed: Option<Vec<Category>> },
}

/// The index that the index file stands for: an empty one where the file is
/// missing or empty, else the one that its categories make up. A file that
/// cannot be read or understood stands for none.
pub open spec fn loaded(file: CacheFile) -> Result<Seq<CategoryModel>, Failure> {
    match file {
        CacheFile::Absent => Ok(Seq::empty()),
        CacheFile::Unreadable => Err(Failure::IoError),
        CacheFile::Read { length, parsed } => if length == 0 {
            Ok(Seq::empty())
        } else {
            match parsed {
                Some(categories) => Ok(
                    merge_categories(Seq::empty(), category_models(categories@)),
                ),
                None => Err(Failure::CorruptCache),
            }
        },
    }
}

/// The index of templates: categories in the order in which they were first
/// seen, each with its templates in the order in which they were added. No
/// category name occurs twice, and no template name twice within a category.
pub struct TemplateCache {
    templates: Vec<Category>,
}

impl View for TemplateCache {
    type V = Seq<CategoryModel>;

    closed spec fn view(&self) -> Seq<CategoryModel> {
        category_models(self.templates@)
    }
}

/// The index at which `entries` first holds a template named `name`, or
/// their number where none has that name.
fn entry_index(entries: &Vec<TemplateCacheEntry>, name: &String) -> (i: usize)
    ensures
        i <= entries.len(),
        i < entries.len() ==> find_entry(entry_models(entries@), name@) == Some(i as int),
        i == entries.len() ==> find_entry(entry_models(entries@), name@) is None,
{
    let mut i: usize = 0;
    while i < entries.len()
        invariant
            i <= entries.len(),
            forall|j: int| 0 <= j < i ==> (#[trigger] entry_models(entries@)[j]).template_name != name@,
        decreases entries.len() - i,
    {
        if entries[i].template_name == *name {
            proof {
                assert(is_first_entry(entry_models(entries@), name@, i as int));
                lemma_find_entry(entry_models(entries@), name@);
            }
            return i;
        }
        i += 1;
    }
    proof {
        lemma_find_entry(entry_models(entries@), name@);
    }
    i
}

/// The index at which `templates` first hold a category named `name`, or
/// their number where none has that name.
fn category_index(templates: &Vec<Category>, name: &String) -> (g: usize)
    ensures
        g <= templates.len(),
        g < templates.len() ==> find_category(category_models(templates@), name@) == Some(g as int),
        g == templates.len() ==> find_category(category_models(templates@), name@) is None,
{
    let mut g: usize = 0;
    while g < templates.len()
        invariant
            g <= templates.len(),
            forall|h: int| 0 <= h < g ==> (#[trigger] category_models(templates@)[h]).name != name@,
        decreases templates.len() - g,
    {
        if templates[g].name == *name {
            proof {
                assert(category_models(templates@)[g as int].name == name@);
                assert(is_first_category(category_models(templates@), name@, g as int));
                lemma_find_category(category_models(templates@), name@);
            }
            return g;
        }
        assert(category_models(templates@)[g as int].name != name@);
        g += 1;
    }
    proof {
        lemma_find_category(category_models(templates@), name@);
    }
    g
}

/// Merges the entries of one category into `templates`.
fn merge(templates: &mut Vec<Category>, category: &Category)
    ensures
        category_models(final(templates)@) == merge_category(
            category_models(old(templates)@),
            category@,
        ),
{
    let g = category_index(templates, &category.name);
    if g == templates.len() {
        templates.push(Category { name: category.name.clone(), entries: Vec::new() });
        assert(entry_models(templates@[g as int].entries@) =~= Seq::<EntryModel>::empty());
    }
    let ghost start = category_models(templates@);
    let ghost first = start[g as int].entries;
    let ghost more = entry_models(category.entries@);
    assert(more.take(0) =~= Seq::<EntryModel>::empty());
    let mut i: usize = 0;
    while i < category.entries.len()
        invariant
            i <= category.entries.len(),
            g < templates.len(),
            templates@.len() == start.len(),
            more == entry_models(category.entries@),
            first == start[g as int].entries,
            category_models(templates@) =~= start.update(
                g as int,
                CategoryModel {
                    name: start[g as int].name,
                    entries: merge_entries(first, more.take(i as int)),
                },
            ),
        decreases category.entries.len() - i,
    {
        let ghost before = templates@[g as int].entries@;
        let ghost merged = merge_entries(first, more.take(i as int));
        let ghost mid = category_models(templates@);
        assert(mid[g as int].entries == entry_models(before));
        assert(mid[g as int].entries == merged);
        assert(more.take(i as int + 1).drop_last() =~= more.take(i as int));
        assert(more.take(i as int + 1).last() == more[i as int]);
        assert(merge_entries(first, more.take(i as int + 1)) == merge_entry(merged, more[i as int]));
        let at = entry_index(&templates[g].entries, &category.entries[i].template_name);
        if at == templates[g].entries.len() {
            let entry = category.entries[i].clone();
            templates[g].entries.push(entry);
            let ghost now = category_models(templates@);
            assert(templates@[g as int].entries@ == before.push(entry));
            assert(entry_models(before.push(entry)) =~= entry_models(before).push(entry@));
            assert(now[g as int].entries == merge_entry(merged, more[i as int]));
            assert(now[g as int].name == mid[g as int].name);
            assert forall|h: int| 0 <= h < now.len() && h != g implies #[trigger] now[h]
                == mid[h] by {}
        }
        i += 1;
    }
    assert(more.take(i as int) =~= more);
}

/// Takes one scanned directory into `templates`, as the template `name`.
fn take_into(templates: &mut Vec<Category>, name: String, live: &LiveTemplate) -> (changed: bool)
    ensures
        (category_models(final(templates)@), changed) == absorb_as(
            category_models(old(templates)@),
            name@,
            live@,
        ),
{
    let ghost start = category_models(templates@);
    let stamp: u64 = match live.modified {
        Some(t) => t,
        None => 0,
    };
    let entry = TemplateCacheEntry {
        template_name: name.clone(),
        discription: live.discription.clone(),
        path: live.path.clone(),
        last_modified: stamp,
    };
    assert(entry@ == live@.entry(name@));
    let g = category_index(templates, &live.category);
    if g == templates.len() {
        let mut entries: Vec<TemplateCacheEntry> = Vec::new();
        entries.push(entry);
        assert(entry_models(entries@) =~= seq![live@.entry(name@)]);
        templates.push(Category { name: live.category.clone(), entries });
        assert(category_models(templates@) =~= absorb_as(start, name@, live@).0);
        true
    } else {
        let i = entry_index(&templates[g].entries, &name);
        let ghost before = templates@[g as int].entries@;
        assert(start[g as int].entries == entry_models(before));
        if i == templates[g].entries.len() {
            templates[g].entries.push(entry);
            assert(templates@[g as int].entries@ == before.push(entry));
            assert(entry_models(before.push(entry)) =~= entry_models(before).push(entry@));
            assert(category_models(templates@) =~= absorb_as(start, name@, live@).0);
            true
        } else if templates[g].entries[i].last_modified < stamp {
            templates[g].entries[i] = entry;
            assert(templates@[g as int].entries@ == before.update(i as int, entry));
            assert(entry_models(before.update(i as int, entry)) =~= entry_models(before).update(
                i as int,
                entry@,
            ));
            assert(category_models(templates@) =~= absorb_as(start, name@, live@).0);
            true
        } else {
            assert(category_models(templates@) =~= absorb_as(start, name@, live@).0);
            false
        }
    }
}

/// The views of the template names of a scan, in the order of the scan.
pub open spec fn name_views(names: Seq<Option<String>>) -> Seq<Option<Seq<char>>> {
    names.map_values(
        |n: Option<String>|
            match n {
                Some(name) => Some(name@),
                None => None,
            },
    )
}

/// Whether a stored entry survives the pruning against one scan, given the
/// template names of the scan and the name of the directory that the
/// entry's path leads to (`None` where it leads to none).
pub fn survives_scan(
    entry: &TemplateCacheEntry,
    folder: &Option<String>,
    names: &Vec<Option<String>>,
) -> (kept: bool)
    ensures
        kept == survives_as(
            name_views(names@),
            match folder {
                Some(f) => Some(f@),
                None => None,
            },
            entry@,
        ),
{
    match folder {
        None => false,
        Some(dir) => {
            if !(entry.template_name == *dir) {
                return false;
            }
            let mut i: usize = 0;
            while i < names.len()
                invariant
                    i <= names.len(),
                    *folder == Some(*dir),
                    entry@.template_name == dir@,
                    forall|j: int| 0 <= j < i ==> #[trigger] name_views(names@)[j] != Some(dir@),
                decreases names.len() - i,
            {
                let found = match &names[i] {
                    Some(n) => *n == *dir,
                    None => false,
                };
                if found {
                    assert(name_views(names@)[i as int] == Some(dir@));
                    assert(seen(name_views(names@), entry@.template_name, dir@));
                    return true;
                }
                assert(name_views(names@)[i as int] != Some(dir@));
                i += 1;
            }
            false
        },
    }
}

/// `names` holds, for each directory of the scan, the name of its template.
spec fn names_match(names: Seq<Option<String>>, lives: Seq<LiveModel>) -> bool {
    name_views(names) =~= live_names(lives)
}

/// Whether a stored entry survives the pruning against one scan.
fn entry_survives(
    entry: &TemplateCacheEntry,
    names: &Vec<Option<String>>,
    Ghost(lives): Ghost<Seq<LiveModel>>,
) -> (kept: bool)
    requires
        names_match(names@, lives),
    ensures
        kept == survives(lives, entry@),
{
    let folder = file_name_of(&entry.path);
    survives_scan(entry, &folder, names)
}

/// The entries that survive the pruning against one scan, and whether any
/// was dropped.
fn surviving_entries(
    entries: &Vec<TemplateCacheEntry>,
    names: &Vec<Option<String>>,
    Ghost(lives): Ghost<Seq<LiveModel>>,
) -> (out: (Vec<TemplateCacheEntry>, bool))
    requires
        names_match(names@, lives),
    ensures
        entry_models(out.0@) == prune_entries(entry_models(entries@), lives),
        out.1 == exists|i: int|
            0 <= i < entries.len() && !survives(lives, #[trigger] entry_models(entries@)[i]),
{
    let ghost keep = |e: EntryModel| survives(lives, e);
    let ghost models = entry_models(entries@);
    let mut kept: Vec<TemplateCacheEntry> = Vec::new();
    let mut dropped = false;
    let mut i: usize = 0;
    assert(models.take(0) =~= Seq::<EntryModel>::empty());
    while i < entries.len()
        invariant
            i <= entries.len(),
            names_match(names@, lives),
            models == entry_models(entries@),
            keep == |e: EntryModel| survives(lives, e),
            entry_models(kept@) == models.take(i as int).filter(keep),
            dropped == exists|j: int| 0 <= j < i && !survives(lives, #[trigger] models[j]),
        decreases entries.len() - i,
    {
        let ghost so_far = models.take(i as int);
        assert(models.take(i as int + 1) =~= so_far.push(models[i as int]));
        proof {
            so_far.lemma_filter_push(models[i as int], keep);
        }
        if entry_survives(&entries[i], names, Ghost(lives)) {
            let ghost before = kept@;
            kept.push(entries[i].clone());
            assert(entry_models(kept@) =~= entry_models(before).push(models[i as int]));
        } else {
            dropped = true;
        }
        i += 1;
    }
    assert(models.take(i as int) =~= models);
    (kept, dropped)
}

/// Drops from `templates` the entries that do not survive the scan whose
/// template names are `names`.
fn drop_unseen(
    templates: &mut Vec<Category>,
    names: &Vec<Option<String>>,
    Ghost(lives): Ghost<Seq<LiveModel>>,
) -> (dropped: bool)
    requires
        names_match(names@, lives),
    ensures
        category_models(final(templates)@) == prune(category_models(old(templates)@), lives),
        dropped == prunes_any(category_models(old(templates)@), lives),
{
    let ghost start = category_models(templates@);
    let mut dropped = false;
    let mut g: usize = 0;
    while g < templates.len()
        invariant
            g <= templates.len(),
            names_match(names@, lives),
            templates@.len() == start.len(),
            forall|h: int|
                0 <= h < g ==> #[trigger] category_models(templates@)[h] == prune(start, lives)[h],
            forall|h: int|
                g <= h < start.len() ==> #[trigger] category_models(templates@)[h] == start[h],
            dropped == exists|h: int, i: int|
                0 <= h < g && 0 <= i < start[h].entries.len() && !survives(
                    lives,
                    #[trigger] start[h].entries[i],
                ),
        decreases templates.len() - g,
    {
        let ghost before = category_models(templates@);
        assert(before[g as int] == start[g as int]);
        let (kept, some_dropped) = surviving_entries(&templates[g].entries, names, Ghost(lives));
        templates[g].entries = kept;
        let ghost now = category_models(templates@);
        assert(now.len() == before.len());
        assert(now[g as int] == prune(start, lives)[g as int]);
        assert forall|h: int| 0 <= h < now.len() && h != g implies #[trigger] now[h]
            == before[h] by {}
        if some_dropped {
            dropped = true;
        }
        g += 1;
    }
    assert(category_models(templates@) =~= prune(start, lives));
    dropped
}

impl TemplateCache {
    #[verifier::type_invariant]
    spec fn well_formed(&self) -> bool {
        cache_wf(category_models(self.templates@))
    }

    /// An index without categories.
    pub fn empty() -> (cache: Self)
        ensures
            cache@ == Seq::<CategoryModel>::empty(),
    {
        TemplateCache { templates: Vec::new() }
    }

    /// The index that holds what `categories` hold, as far as an index can:
    /// categories of one name are merged into the first of them, and of the
    /// entries of one name within a category only the first is kept.
    pub fn from_categories(categories: Vec<Category>) -> (cache: Self)
        ensures
            cache@ == merge_categories(Seq::empty(), category_models(categories@)),
            cache_wf(cache@),
    {
        let ghost models = category_models(categories@);
        let mut templates: Vec<Category> = Vec::new();
        let mut g: usize = 0;
        assert(models.take(0) =~= Seq::<CategoryModel>::empty());
        assert(category_models(templates@) =~= Seq::<CategoryModel>::empty());
        while g < categories.len()
            invariant
                g <= categories.len(),
                models == category_models(categories@),
                category_models(templates@) == merge_categories(
                    Seq::empty(),
                    models.take(g as int),
                ),
            decreases categories.len() - g,
        {
            assert(models.take(g as int + 1).drop_last() =~= models.take(g as int));
            assert(models.take(g as int + 1).last() == categories@[g as int]@);
            merge(&mut templates, &categories[g]);
            g += 1;
        }
        assert(models.take(g as int) =~= models);
        proof {
            lemma_merge_categories(Seq::empty(), models);
        }
        TemplateCache { templates }
    }

    /// The categories of the index with their entries, in the order of the
    /// index.
    pub fn categories(&self) -> (categories: Vec<Category>)
        ensures
            category_models(categories@) == self@,
            cache_wf(self@),
    {
        proof {
            use_type_invariant(self);
        }
        let mut out: Vec<Category> = Vec::new();
        let mut g: usize = 0;
        while g < self.templates.len()
            invariant
                g <= self.templates.len(),
                category_models(out@) =~= self@.take(g as int),
            decreases self.templates.len() - g,
        {
            let source = &self.templates[g].entries;
            let mut entries: Vec<TemplateCacheEntry> = Vec::new();
            let mut i: usize = 0;
            while i < source.len()
                invariant
                    i <= source.len(),
                    entry_models(entries@) =~= entry_models(source@).take(i as int),
                decreases source.len() - i,
            {
                let ghost before = entries@;
                let entry = source[i].clone();
                entries.push(entry);
                assert(entry_models(entries@) =~= entry_models(before).push(entry@));
                i += 1;
            }
            assert(entry_models(source@).take(i as int) =~= entry_models(source@));
            let ghost before = out@;
            let category = Category { name: self.templates[g].name.clone(), entries };
            assert(category@ == self@[g as int]);
            out.push(category);
            assert(category_models(out@) =~= category_models(before).push(category@));
            g += 1;
        }
        assert(self@.take(g as int) =~= self@);
        out
    }

    /// Takes one scanned directory into the index, as the template `name`,
    /// and says whether that changed the index: a template that the
    /// directory's category does not hold yet is added, one that it holds
    /// with an older modification time is overwritten, one that is up to date
    /// stays as it is.
    pub fn take_in(&mut self, name: String, live: &LiveTemplate) -> (changed: bool)
        ensures
            (final(self)@, changed) == absorb_as(old(self)@, name@, live@),
            cache_wf(final(self)@),
    {
        proof {
            use_type_invariant(&*self);
            lemma_absorb_as(self@, name@, live@);
        }
        let mut taken = TemplateCache::empty();
        std::mem::swap(self, &mut taken);
        let mut templates = taken.templates;
        let changed = take_into(&mut templates, name, live);
        *self = TemplateCache { templates };
        changed
    }

    /// The index that the index file holds: an empty one where the file is
    /// missing or empty. Fails with `IoError` where the file cannot be read,
    /// and with `CorruptCache` where it is not empty and cannot be
    /// understood.
    pub fn load(file: CacheFile) -> (result: Result<Self, Failure>)
        ensures
            match result {
                Ok(cache) => loaded(file) == Ok::<Seq<CategoryModel>, Failure>(cache@),
                Err(failure) => loaded(file) == Err::<Seq<CategoryModel>, Failure>(failure),
            },
    {
        match file {
            CacheFile::Absent => Ok(TemplateCache::empty()),
            CacheFile::Unreadable => Err(Failure::IoError),
            CacheFile::Read { length, parsed } => {
                if length == 0 {
                    Ok(TemplateCache::empty())
                } else {
                    match parsed {
                        Some(categories) => Ok(TemplateCache::from_categories(categories)),
                        None => Err(Failure::CorruptCache),
                    }
                }
            },
        }
    }

    /// The lines that show the index: for each category its name, followed
    /// by one line for each of its templates with the template's name and
    /// description.
    pub fn display(&self) -> (lines: Vec<String>)
        ensures
            string_views(lines@) == listing_lines(self@),
    {
        let mut lines: Vec<String> = Vec::new();
        let mut g: usize = 0;
        assert(self@.take(0) =~= Seq::<CategoryModel>::empty());
        assert(string_views(lines@) =~= Seq::<Seq<char>>::empty());
        while g < self.templates.len()
            invariant
                g <= self.templates.len(),
                string_views(lines@) == listing_lines(self@.take(g as int)),
            decreases self.templates.len() - g,
        {
            let category = &self.templates[g];
            let ghost shown = string_views(lines@);
            let ghost model = self@[g as int];
            assert(self@.take(g as int + 1).drop_last() =~= self@.take(g as int));
            assert(self@.take(g as int + 1).last() == model);
            let ghost before = lines@;
            lines.push(category.name.clone());
            assert(string_views(lines@) =~= string_views(before).push(model.name));
            let mut i: usize = 0;
            while i < category.entries.len()
                invariant
                    i <= category.entries.len(),
                    model == category@,
                    string_views(lines@) =~= shown + seq![model.name] + model.entries.take(
                        i as int,
                    ).map_values(|e: EntryModel| entry_line(e)),
                decreases category.entries.len() - i,
            {
                let entry = &category.entries[i];
                let mut line = String::from_str(" - ");
                line.append(entry.template_name.as_str());
                line.append(": ");
                line.append(entry.discription.as_str());
                assert(line@ =~= entry_line(model.entries[i as int]));
                let ghost before = lines@;
                lines.push(line);
                assert(string_views(lines@) =~= string_views(before).push(line@));
                assert(model.entries.take(i as int + 1).map_values(|e: EntryModel| entry_line(e))
                    =~= model.entries.take(i as int).map_values(|e: EntryModel| entry_line(e)).push(
                    entry_line(model.entries[i as int]),
                ));
                i += 1;
            }
            assert(model.entries.take(i as int) =~= model.entries);
            assert(string_views(lines@) =~= shown + category_lines(model));
            g += 1;
        }
        assert(self@.take(g as int) =~= self@);
        lines
    }

    /// Brings the index up to date with one scan of the configuration
    /// directory, and says whether that changed it.
    ///
    /// Every directory of the scan is taken in, first to last: a template
    /// that its category does not hold yet is added, one that the index holds
    /// with an older modification time has its description, path and time
    /// overwritten, one that is up to date stays as it is. Then every entry
    /// is dropped whose name, paired with the name of the directory that its
    /// path leads to, the scan did not see.
    pub fn refresh(&mut self, live: &Vec<LiveTemplate>) -> (changed: bool)
        ensures
            (final(self)@, changed) == refresh_model(old(self)@, live_models(live@)),
            cache_wf(old(self)@),
            cache_wf(final(self)@),
    {
        proof {
            use_type_invariant(&*self);
        }
        let ghost lives = live_models(live@);
        let mut taken = TemplateCache::empty();
        std::mem::swap(self, &mut taken);
        let mut templates = taken.templates;
        let mut changed = false;
        let mut names: Vec<Option<String>> = Vec::new();
        let mut i: usize = 0;
        assert(lives.take(0) =~= Seq::<LiveModel>::empty());
        while i < live.len()
            invariant
                i <= live.len(),
                lives == live_models(live@),
                names_match(names@, lives.take(i as int)),
                (category_models(templates@), changed) == absorb_all(
                    old(self)@,
                    lives.take(i as int),
                ),
            decreases live.len() - i,
        {
            let ghost done = lives.take(i as int);
            let ghost next = lives.take(i as int + 1);
            let ghost before_names = names@;
            assert(next.drop_last() =~= done);
            assert(next.last() == live[i as int]@);
            match file_name_of(&live[i].path) {
                Some(name) => {
                    let now = take_into(&mut templates, name.clone(), &live[i]);
                    if now {
                        changed = true;
                    }
                    names.push(Some(name));
                },
                None => {
                    names.push(None);
                },
            }
            assert(names_match(names@, next)) by {
                assert forall|j: int| 0 <= j < names@.len() implies #[trigger] name_views(names@)[j]
                    == live_names(next)[j] by {
                    if j < i {
                        assert(name_views(before_names)[j] == live_names(done)[j]);
                    }
                }
            }
            i += 1;
        }
        assert(lives.take(i as int) =~= lives);
        let dropped = drop_unseen(&mut templates, &names, Ghost(lives));
        proof {
            lemma_refresh_outcome(old(self)@, lives);
        }
        *self = TemplateCache { templates };
        changed || dropped
    }
}

} // verus!
