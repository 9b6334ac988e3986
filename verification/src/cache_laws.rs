//! What holds of a refresh of the index, whatever the index and the scan.

use crate::cache::{category_models, loaded, CacheFile, Category};
use crate::cache_model::{
    absorb, absorb_all, absorb_as, cache_wf, find_category, find_entry, is_first_category,
    is_first_entry, live_names, merge_categories, merge_category, merge_entries, merge_entry, prune,
    prune_entries, prunes_any, refresh_model, seen, survives, CategoryModel, EntryModel, LiveModel,
};
use crate::error::Failure;
use crate::paths::path_file_name;
use vstd::prelude::*;

verus! {

/// The index holds, as entry `i` of its category `g`, a template named
/// `name` under the category `category`.
pub open spec fn holds_at(
    cache: Seq<CategoryModel>,
    g: int,
    i: int,
    category: Seq<char>,
    name: Seq<char>,
) -> bool {
    &&& 0 <= g < cache.len()
    &&& 0 <= i < cache[g].entries.len()
    &&& cache[g].name == category
    &&& cache[g].entries[i].template_name == name
}

/// The index holds exactly one entry for the template `name` of the
/// category `category`.
pub open spec fn holds_once(cache: Seq<CategoryModel>, category: Seq<char>, name: Seq<char>) -> bool {
    exists|g: int, i: int|
        {
            &&& #[trigger] holds_at(cache, g, i, category, name)
            &&& forall|h: int, j: int| #[trigger]
                holds_at(cache, h, j, category, name) ==> h == g && j == i
        }
}

/// The entry's path leads to a directory that bears the entry's name.
pub open spec fn entry_anchored(entry: EntryModel) -> bool {
    path_file_name(entry.path) == Some(entry.template_name)
}

/// Every entry of the index is anchored.
pub open spec fn anchored(cache: Seq<CategoryModel>) -> bool {
    forall|g: int, i: int|
        0 <= g < cache.len() && 0 <= i < cache[g].entries.len() ==> entry_anchored(
            #[trigger] cache[g].entries[i],
        )
}

/// The scan found a directory named `name`.
pub open spec fn found(lives: Seq<LiveModel>, name: Seq<char>) -> bool {
    exists|k: int| 0 <= k < lives.len() && (#[trigger] lives[k]).name() == Some(name)
}

/// No two directories of the scan bear the same name, as is the case for
/// the directories of one parent.
pub open spec fn distinct_names(lives: Seq<LiveModel>) -> bool {
    forall|k: int, m: int|
        0 <= k < m < lives.len() && (#[trigger] lives[k]).name() is Some ==> lives[k].name() != (
        #[trigger] lives[m]).name()
}

/// What `find_category` returns.
pub proof fn lemma_find_category(cache: Seq<CategoryModel>, name: Seq<char>)
    ensures
        match find_category(cache, name) {
            Some(g) => is_first_category(cache, name, g),
            None => forall|h: int| 0 <= h < cache.len() ==> (#[trigger] cache[h]).name != name,
        },
    decreases cache.len(),
{
    if cache.len() > 0 && cache[0].name != name {
        let rest = cache.drop_first();
        lemma_find_category(rest, name);
        match find_category(rest, name) {
            Some(g) => {
                assert(cache[g + 1] == rest[g]);
                assert forall|h: int| 0 <= h < g + 1 implies (#[trigger] cache[h]).name != name by {
                    if h > 0 {
                        assert(cache[h] == rest[h - 1]);
                    }
                }
            },
            None => {
                assert forall|h: int| 0 <= h < cache.len() implies (#[trigger] cache[h]).name
                    != name by {
                    if h > 0 {
                        assert(cache[h] == rest[h - 1]);
                    }
                }
            },
        }
    }
}

/// What `find_entry` returns.
pub proof fn lemma_find_entry(entries: Seq<EntryModel>, name: Seq<char>)
    ensures
        match find_entry(entries, name) {
            Some(i) => is_first_entry(entries, name, i),
            None => forall|j: int|
                0 <= j < entries.len() ==> (#[trigger] entries[j]).template_name != name,
        },
    decreases entries.len(),
{
    if entries.len() > 0 && entries[0].template_name != name {
        let rest = entries.drop_first();
        lemma_find_entry(rest, name);
        match find_entry(rest, name) {
            Some(i) => {
                assert(entries[i + 1] == rest[i]);
                assert forall|j: int| 0 <= j < i + 1 implies (
                #[trigger] entries[j]).template_name != name by {
                    if j > 0 {
                        assert(entries[j] == rest[j - 1]);
                    }
                }
            },
            None => {
                assert forall|j: int| 0 <= j < entries.len() implies (
                #[trigger] entries[j]).template_name != name by {
                    if j > 0 {
                        assert(entries[j] == rest[j - 1]);
                    }
                }
            },
        }
    }
}

/// In a well-formed index an entry is found where it stands.
pub proof fn lemma_find_where_held(
    cache: Seq<CategoryModel>,
    g: int,
    i: int,
    category: Seq<char>,
    name: Seq<char>,
)
    requires
        cache_wf(cache),
        holds_at(cache, g, i, category, name),
    ensures
        find_category(cache, category) == Some(g),
        find_entry(cache[g].entries, name) == Some(i),
{
    lemma_find_category(cache, category);
    lemma_find_entry(cache[g].entries, name);
    assert(is_first_category(cache, category, g));
    assert(is_first_entry(cache[g].entries, name, i));
}

/// What a stored entry of the category `category` becomes when the index
/// takes in the directory `live`.
pub open spec fn touched(category: Seq<char>, entry: EntryModel, live: LiveModel) -> EntryModel {
    if live.name() == Some(entry.template_name) && category == live.category
        && entry.last_modified < live.stamp() {
        live.entry(entry.template_name)
    } else {
        entry
    }
}

/// `after` holds every category and entry of `before` at its place, under
/// its name, and with a modification time that is no older.
pub open spec fn extends(before: Seq<CategoryModel>, after: Seq<CategoryModel>) -> bool {
    &&& before.len() <= after.len()
    &&& forall|g: int|
        0 <= g < before.len() ==> (#[trigger] after[g]).name == before[g].name
            && before[g].entries.len() <= after[g].entries.len()
    &&& forall|g: int, i: int|
        0 <= g < before.len() && 0 <= i < before[g].entries.len() ==> (
        #[trigger] after[g].entries[i]).template_name == before[g].entries[i].template_name
            && after[g].entries[i].last_modified >= before[g].entries[i].last_modified
}

/// How the index after it took in `live` relates to the index before.
pub open spec fn absorbed(
    before: Seq<CategoryModel>,
    after: Seq<CategoryModel>,
    live: LiveModel,
) -> bool {
    &&& extends(before, after)
    &&& forall|g: int, i: int|
        0 <= g < before.len() && 0 <= i < before[g].entries.len() ==> #[trigger] after[g].entries[i]
            == touched(before[g].name, before[g].entries[i], live)
    &&& forall|g: int, i: int|
        0 <= g < after.len() && 0 <= i < after[g].entries.len() && !(g < before.len() && i
            < before[g].entries.len()) ==> live.name() is Some && after[g].name == live.category
            && #[trigger] after[g].entries[i] == live.entry(live.name()->0)
}

/// A directory taken in under any name leaves the index well formed.
pub proof fn lemma_absorb_as(cache: Seq<CategoryModel>, name: Seq<char>, live: LiveModel)
    requires
        cache_wf(cache),
    ensures
        cache_wf(absorb_as(cache, name, live).0),
{
    lemma_find_category(cache, live.category);
    if let Some(g) = find_category(cache, live.category) {
        lemma_find_entry(cache[g].entries, name);
    }
}

/// One directory taken in: the index stays well formed, nothing but the
/// entry of that directory changes, and afterwards the index holds an entry
/// for it that is no older than the directory.
pub proof fn lemma_absorb(cache: Seq<CategoryModel>, live: LiveModel)
    requires
        cache_wf(cache),
    ensures
        cache_wf(absorb(cache, live).0),
        absorbed(cache, absorb(cache, live).0, live),
        !absorb(cache, live).1 ==> absorb(cache, live).0 == cache,
        live.name() is Some ==> exists|g: int, i: int|
            #[trigger] holds_at(absorb(cache, live).0, g, i, live.category, live.name()->0)
                && absorb(cache, live).0[g].entries[i].last_modified >= live.stamp(),
{
    let after = absorb(cache, live).0;
    match live.name() {
        None => {},
        Some(name) => {
            lemma_find_category(cache, live.category);
            match find_category(cache, live.category) {
                None => {
                    let g = cache.len() as int;
                    assert(holds_at(after, g, 0, live.category, name));
                },
                Some(g) => {
                    let entries = cache[g].entries;
                    lemma_find_entry(entries, name);
                    match find_entry(entries, name) {
                        None => {
                            let i = entries.len() as int;
                            assert(holds_at(after, g, i, live.category, name));
                        },
                        Some(i) => {
                            assert(holds_at(after, g, i, live.category, name));
                            assert forall|h: int, j: int|
                                0 <= h < cache.len() && 0 <= j < cache[h].entries.len() implies #[trigger] after[h].entries[j]
                                == touched(cache[h].name, cache[h].entries[j], live) by {
                                if h == g && j != i {
                                    if j < i {
                                        assert(cache[g].entries[j].template_name
                                            != cache[g].entries[i].template_name);
                                    } else {
                                        assert(cache[g].entries[i].template_name
                                            != cache[g].entries[j].template_name);
                                    }
                                }
                                if h != g {
                                    if h < g {
                                        assert(cache[h].name != cache[g].name);
                                    } else {
                                        assert(cache[g].name != cache[h].name);
                                    }
                                }
                            }
                        },
                    }
                },
            }
        },
    }
}

/// A whole scan taken in: the index stays well formed, keeps what it held,
/// and afterwards holds, for each directory of the scan, an entry that is no
/// older than the directory.
pub proof fn lemma_absorb_all(cache: Seq<CategoryModel>, lives: Seq<LiveModel>)
    requires
        cache_wf(cache),
    ensures
        cache_wf(absorb_all(cache, lives).0),
        extends(cache, absorb_all(cache, lives).0),
        forall|k: int|
            0 <= k < lives.len() && (#[trigger] lives[k]).name() is Some ==> exists|g: int, i: int|
                #[trigger] holds_at(
                    absorb_all(cache, lives).0,
                    g,
                    i,
                    lives[k].category,
                    lives[k].name()->0,
                ) && absorb_all(cache, lives).0[g].entries[i].last_modified >= lives[k].stamp(),
    decreases lives.len(),
{
    if lives.len() > 0 {
        let rest = lives.drop_last();
        let live = lives.last();
        let before = absorb_all(cache, rest).0;
        let after = absorb_all(cache, lives).0;
        lemma_absorb_all(cache, rest);
        lemma_absorb(before, live);
        assert(after == absorb(before, live).0);
        assert(extends(cache, after));
        assert forall|k: int| 0 <= k < lives.len() && (#[trigger] lives[k]).name() is Some implies exists|
            g: int,
            i: int,
        |
            #[trigger] holds_at(after, g, i, lives[k].category, lives[k].name()->0)
                && after[g].entries[i].last_modified >= lives[k].stamp() by {
            if k < rest.len() {
                assert(rest[k] == lives[k]);
                let (g, i) = choose|g: int, i: int|
                    #[trigger] holds_at(before, g, i, rest[k].category, rest[k].name()->0)
                        && before[g].entries[i].last_modified >= rest[k].stamp();
                assert(after[g].name == before[g].name);
                assert(after[g].entries[i].template_name == before[g].entries[i].template_name);
                assert(holds_at(after, g, i, lives[k].category, lives[k].name()->0));
            }
        }
    }
}

/// No template name occurs twice among `entries`.
pub open spec fn distinct_entries(entries: Seq<EntryModel>) -> bool {
    forall|i: int, j: int|
        0 <= i < j < entries.len() ==> (#[trigger] entries[i]).template_name != (
        #[trigger] entries[j]).template_name
}

/// The pruning of one category keeps exactly the entries that survive, in
/// their order.
pub proof fn lemma_prune_entries(entries: Seq<EntryModel>, lives: Seq<LiveModel>)
    ensures
        prune_entries(entries, lives).len() <= entries.len(),
        forall|i: int|
            0 <= i < prune_entries(entries, lives).len() ==> survives(
                lives,
                #[trigger] prune_entries(entries, lives)[i],
            ) && entries.contains(prune_entries(entries, lives)[i]),
        forall|j: int|
            0 <= j < entries.len() && survives(lives, #[trigger] entries[j]) ==> prune_entries(
                entries,
                lives,
            ).contains(entries[j]),
        distinct_entries(entries) ==> distinct_entries(prune_entries(entries, lives)),
        (forall|j: int| 0 <= j < entries.len() ==> survives(lives, #[trigger] entries[j]))
            ==> prune_entries(entries, lives) == entries,
    decreases entries.len(),
{
    reveal(Seq::filter);
    let keep = |e: EntryModel| survives(lives, e);
    let kept = prune_entries(entries, lives);
    if entries.len() > 0 {
        let rest = entries.drop_last();
        let last = entries.last();
        let sub = prune_entries(rest, lives);
        lemma_prune_entries(rest, lives);
        assert(kept == if keep(last) {
            sub.push(last)
        } else {
            sub
        });
        assert forall|i: int| 0 <= i < kept.len() implies survives(lives, #[trigger] kept[i])
            && entries.contains(kept[i]) by {
            if i < sub.len() {
                assert(kept[i] == sub[i]);
                assert(rest.contains(sub[i]));
                let j = choose|j: int| 0 <= j < rest.len() && rest[j] == sub[i];
                assert(entries[j] == kept[i]);
            } else {
                assert(kept[i] == last);
                assert(entries[entries.len() - 1] == last);
            }
        }
        assert forall|j: int|
            0 <= j < entries.len() && survives(lives, #[trigger] entries[j]) implies kept.contains(
            entries[j],
        ) by {
            if j < rest.len() {
                assert(rest[j] == entries[j]);
                assert(sub.contains(rest[j]));
                let i = choose|i: int| 0 <= i < sub.len() && sub[i] == rest[j];
                assert(kept[i] == entries[j]);
            } else {
                assert(kept[kept.len() - 1] == last);
            }
        }
        if distinct_entries(entries) {
            assert(distinct_entries(rest)) by {
                assert forall|i: int, j: int| 0 <= i < j < rest.len() implies (
                #[trigger] rest[i]).template_name != (#[trigger] rest[j]).template_name by {
                    assert(rest[i] == entries[i]);
                    assert(rest[j] == entries[j]);
                }
            }
            assert forall|i: int, j: int| 0 <= i < j < kept.len() implies (
            #[trigger] kept[i]).template_name != (#[trigger] kept[j]).template_name by {
                if j < sub.len() {
                    assert(kept[i] == sub[i]);
                    assert(kept[j] == sub[j]);
                } else {
                    assert(kept[j] == last);
                    assert(kept[i] == sub[i]);
                    assert(rest.contains(sub[i]));
                    let m = choose|m: int| 0 <= m < rest.len() && rest[m] == sub[i];
                    assert(entries[m] == kept[i]);
                    assert(entries[entries.len() - 1] == last);
                }
            }
        }
        if forall|j: int| 0 <= j < entries.len() ==> survives(lives, #[trigger] entries[j]) {
            assert forall|j: int| 0 <= j < rest.len() implies survives(lives, #[trigger] rest[j]) by {
                assert(rest[j] == entries[j]);
            }
            assert(survives(lives, entries[entries.len() - 1]));
            assert(kept =~= entries);
        }
    } else {
        assert(kept =~= entries);
    }
}

/// The pruning keeps the categories, keeps the index well formed, and
/// leaves exactly the entries that survive.
pub proof fn lemma_prune(cache: Seq<CategoryModel>, lives: Seq<LiveModel>)
    ensures
        prune(cache, lives).len() == cache.len(),
        forall|g: int|
            0 <= g < cache.len() ==> (#[trigger] prune(cache, lives)[g]).name == cache[g].name,
        forall|g: int, i: int|
            0 <= g < cache.len() && 0 <= i < prune(cache, lives)[g].entries.len() ==> survives(
                lives,
                #[trigger] prune(cache, lives)[g].entries[i],
            ) && cache[g].entries.contains(prune(cache, lives)[g].entries[i]),
        forall|g: int, j: int|
            0 <= g < cache.len() && 0 <= j < cache[g].entries.len() && survives(
                lives,
                #[trigger] cache[g].entries[j],
            ) ==> prune(cache, lives)[g].entries.contains(cache[g].entries[j]),
        cache_wf(cache) ==> cache_wf(prune(cache, lives)),
        !prunes_any(cache, lives) ==> prune(cache, lives) == cache,
{
    let pruned = prune(cache, lives);
    assert forall|g: int| 0 <= g < cache.len() implies (#[trigger] pruned[g]).entries
        == prune_entries(cache[g].entries, lives) by {}
    assert forall|g: int, i: int|
        0 <= g < cache.len() && 0 <= i < pruned[g].entries.len() implies survives(
        lives,
        #[trigger] pruned[g].entries[i],
    ) && cache[g].entries.contains(pruned[g].entries[i]) by {
        lemma_prune_entries(cache[g].entries, lives);
    }
    assert forall|g: int, j: int|
        0 <= g < cache.len() && 0 <= j < cache[g].entries.len() && survives(
            lives,
            #[trigger] cache[g].entries[j],
        ) implies pruned[g].entries.contains(cache[g].entries[j]) by {
        lemma_prune_entries(cache[g].entries, lives);
    }
    if cache_wf(cache) {
        assert forall|g: int, i: int, j: int|
            0 <= g < pruned.len() && 0 <= i < j < pruned[g].entries.len() implies (
        #[trigger] pruned[g].entries[i]).template_name != (
        #[trigger] pruned[g].entries[j]).template_name by {
            lemma_prune_entries(cache[g].entries, lives);
            assert(distinct_entries(cache[g].entries));
        }
        assert forall|g: int, h: int| 0 <= g < h < pruned.len() implies (#[trigger] pruned[g]).name
            != (#[trigger] pruned[h]).name by {
            assert(cache[g].name != cache[h].name);
        }
    }
    if !prunes_any(cache, lives) {
        assert forall|g: int| 0 <= g < cache.len() implies #[trigger] pruned[g] == cache[g] by {
            lemma_prune_entries(cache[g].entries, lives);
            assert forall|j: int| 0 <= j < cache[g].entries.len() implies survives(
                lives,
                #[trigger] cache[g].entries[j],
            ) by {}
        }
        assert(pruned =~= cache);
    }
}

/// The directory `live` is the one that an entry of the category `category`
/// stands for: it has the entry's name and names that category.
pub open spec fn matches(live: LiveModel, category: Seq<char>, entry: EntryModel) -> bool {
    live.category == category && live.name() == Some(entry.template_name)
}

/// The scan holds the directory of the entry and nothing newer than the
/// entry, so that taking in the scan leaves the entry as it is.
pub open spec fn kept_as_is(lives: Seq<LiveModel>, category: Seq<char>, entry: EntryModel) -> bool {
    &&& exists|k: int| 0 <= k < lives.len() && matches(#[trigger] lives[k], category, entry)
    &&& forall|k: int|
        0 <= k < lives.len() && matches(#[trigger] lives[k], category, entry)
            ==> entry.last_modified >= lives[k].stamp()
}

/// Every entry that the scan would leave as it is, is anchored. An index
/// that a refresh has produced meets this against every scan, and so does
/// the empty index.
pub open spec fn settled(cache: Seq<CategoryModel>, lives: Seq<LiveModel>) -> bool {
    forall|g: int, i: int|
        0 <= g < cache.len() && 0 <= i < cache[g].entries.len() && kept_as_is(
            lives,
            cache[g].name,
            #[trigger] cache[g].entries[i],
        ) ==> entry_anchored(cache[g].entries[i])
}

/// After a scan was taken in, every entry of the index is anchored or is an
/// entry of the old index that no directory of the scan outdated.
proof fn lemma_absorb_all_anchors(cache: Seq<CategoryModel>, lives: Seq<LiveModel>)
    requires
        cache_wf(cache),
    ensures
        forall|g: int, i: int|
            0 <= g < absorb_all(cache, lives).0.len() && 0 <= i < absorb_all(
                cache,
                lives,
            ).0[g].entries.len() ==> entry_anchored(
                #[trigger] absorb_all(cache, lives).0[g].entries[i],
            ) || {
                &&& g < cache.len()
                &&& i < cache[g].entries.len()
                &&& absorb_all(cache, lives).0[g].entries[i] == cache[g].entries[i]
                &&& forall|k: int|
                    0 <= k < lives.len() && matches(
                        #[trigger] lives[k],
                        cache[g].name,
                        cache[g].entries[i],
                    ) ==> cache[g].entries[i].last_modified >= lives[k].stamp()
            },
    decreases lives.len(),
{
    if lives.len() > 0 {
        let rest = lives.drop_last();
        let live = lives.last();
        let before = absorb_all(cache, rest).0;
        let after = absorb_all(cache, lives).0;
        lemma_absorb_all_anchors(cache, rest);
        lemma_absorb_all(cache, rest);
        lemma_absorb(before, live);
        assert(after == absorb(before, live).0);
        assert forall|g: int, i: int|
            0 <= g < after.len() && 0 <= i < after[g].entries.len() implies entry_anchored(
            #[trigger] after[g].entries[i],
        ) || {
            &&& g < cache.len()
            &&& i < cache[g].entries.len()
            &&& after[g].entries[i] == cache[g].entries[i]
            &&& forall|k: int|
                0 <= k < lives.len() && matches(
                    #[trigger] lives[k],
                    cache[g].name,
                    cache[g].entries[i],
                ) ==> cache[g].entries[i].last_modified >= lives[k].stamp()
        } by {
            if g < before.len() && i < before[g].entries.len() {
                assert(after[g].entries[i] == touched(before[g].name, before[g].entries[i], live));
                if !entry_anchored(after[g].entries[i]) {
                    assert(after[g].entries[i] == before[g].entries[i]);
                    assert(!entry_anchored(before[g].entries[i]));
                    assert(before[g].name == cache[g].name);
                    assert forall|k: int|
                        0 <= k < lives.len() && matches(
                            #[trigger] lives[k],
                            cache[g].name,
                            cache[g].entries[i],
                        ) implies cache[g].entries[i].last_modified >= lives[k].stamp() by {
                        if k < rest.len() {
                            assert(rest[k] == lives[k]);
                        }
                    }
                }
            }
        }
    }
}

/// In an index that holds, for each directory of a scan, an entry that is
/// no older than the directory, taking in the scan changes nothing.
proof fn lemma_absorb_all_idle(cache: Seq<CategoryModel>, lives: Seq<LiveModel>)
    requires
        cache_wf(cache),
        forall|k: int|
            0 <= k < lives.len() && (#[trigger] lives[k]).name() is Some ==> exists|g: int, i: int|
                #[trigger] holds_at(cache, g, i, lives[k].category, lives[k].name()->0)
                    && cache[g].entries[i].last_modified >= lives[k].stamp(),
    ensures
        absorb_all(cache, lives) == (cache, false),
    decreases lives.len(),
{
    if lives.len() > 0 {
        let rest = lives.drop_last();
        let live = lives.last();
        assert forall|k: int| 0 <= k < rest.len() && (#[trigger] rest[k]).name() is Some implies exists|
            g: int,
            i: int,
        |
            #[trigger] holds_at(cache, g, i, rest[k].category, rest[k].name()->0)
                && cache[g].entries[i].last_modified >= rest[k].stamp() by {
            assert(rest[k] == lives[k]);
        }
        lemma_absorb_all_idle(cache, rest);
        if live.name() is Some {
            let name = live.name()->0;
            assert(lives[lives.len() - 1] == live);
            let (g, i) = choose|g: int, i: int|
                #[trigger] holds_at(cache, g, i, live.category, name)
                    && cache[g].entries[i].last_modified >= live.stamp();
            lemma_find_where_held(cache, g, i, live.category, name);
            assert(cache.update(g, CategoryModel { name: cache[g].name, entries: cache[g].entries })
                =~= cache);
        }
    }
}

/// After a refresh, the index holds exactly one entry for each template
/// that the scan found, under the template's category and name, and no entry
/// whose name the scan did not find; and it is well formed.
///
/// This is stated of an index that is settled against the scan. Of one that
/// is not it fails: an entry that the scan leaves as it is, and whose path
/// leads elsewhere than to a directory of its name, is pruned, and its
/// template is then missing until the next refresh.
pub proof fn law_refresh_tracks_scan(cache: Seq<CategoryModel>, lives: Seq<LiveModel>)
    requires
        cache_wf(cache),
        settled(cache, lives),
    ensures
        cache_wf(refresh_model(cache, lives).0),
        forall|k: int|
            0 <= k < lives.len() && (#[trigger] lives[k]).name() is Some ==> holds_once(
                refresh_model(cache, lives).0,
                lives[k].category,
                lives[k].name()->0,
            ),
        forall|g: int, i: int|
            0 <= g < refresh_model(cache, lives).0.len() && 0 <= i < refresh_model(
                cache,
                lives,
            ).0[g].entries.len() ==> found(
                lives,
                (#[trigger] refresh_model(cache, lives).0[g].entries[i]).template_name,
            ),
{
    lemma_refresh_outcome(cache, lives);
    let after = refresh_model(cache, lives).0;
    assert forall|k: int| 0 <= k < lives.len() && (#[trigger] lives[k]).name() is Some implies holds_once(
        after,
        lives[k].category,
        lives[k].name()->0,
    ) by {
        let (g, i) = choose|g: int, i: int|
            #[trigger] holds_at(after, g, i, lives[k].category, lives[k].name()->0)
                && after[g].entries[i].last_modified >= lives[k].stamp();
        assert forall|h: int, j: int| #[trigger]
            holds_at(after, h, j, lives[k].category, lives[k].name()->0) implies h == g && j
            == i by {
            if h < g {
                assert(after[h].name != after[g].name);
            }
            if g < h {
                assert(after[g].name != after[h].name);
            }
            if j < i {
                assert(after[g].entries[j].template_name != after[g].entries[i].template_name);
            }
            if i < j {
                assert(after[g].entries[i].template_name != after[g].entries[j].template_name);
            }
        }
    }
}

/// What a refresh leaves behind: a well-formed index whose entries all
/// survive the scan and bear names that the scan found. Where the old index
/// was settled against the scan, the new one holds, for each directory of
/// the scan, an entry that is no older than the directory.
pub proof fn lemma_refresh_outcome(cache: Seq<CategoryModel>, lives: Seq<LiveModel>)
    requires
        cache_wf(cache),
    ensures
        cache_wf(refresh_model(cache, lives).0),
        anchored(refresh_model(cache, lives).0),
        !prunes_any(refresh_model(cache, lives).0, lives),
        forall|g: int, i: int|
            0 <= g < refresh_model(cache, lives).0.len() && 0 <= i < refresh_model(
                cache,
                lives,
            ).0[g].entries.len() ==> found(
                lives,
                (#[trigger] refresh_model(cache, lives).0[g].entries[i]).template_name,
            ),
        settled(cache, lives) ==> forall|k: int|
            0 <= k < lives.len() && (#[trigger] lives[k]).name() is Some ==> exists|g: int, i: int|
                #[trigger] holds_at(
                    refresh_model(cache, lives).0,
                    g,
                    i,
                    lives[k].category,
                    lives[k].name()->0,
                ) && refresh_model(cache, lives).0[g].entries[i].last_modified >= lives[k].stamp(),
{
    let taken = absorb_all(cache, lives).0;
    let after = refresh_model(cache, lives).0;
    lemma_absorb_all(cache, lives);
    lemma_absorb_all_anchors(cache, lives);
    lemma_prune(taken, lives);
    assert(after == prune(taken, lives));
    assert forall|g: int, i: int|
        0 <= g < after.len() && 0 <= i < after[g].entries.len() implies found(
        lives,
        (#[trigger] after[g].entries[i]).template_name,
    ) && entry_anchored(after[g].entries[i]) by {
        let e = after[g].entries[i];
        let names = live_names(lives);
        assert(survives(lives, e));
        let folder = path_file_name(e.path)->0;
        assert(seen(names, e.template_name, folder));
        let k = choose|k: int|
            0 <= k < names.len() && #[trigger] names[k] == Some(e.template_name) && names[k]
                == Some(folder);
        assert(lives[k].name() == Some(e.template_name));
    }
    if settled(cache, lives) {
        assert forall|k: int| 0 <= k < lives.len() && (#[trigger] lives[k]).name() is Some implies exists|
            g: int,
            i: int,
        |
            #[trigger] holds_at(after, g, i, lives[k].category, lives[k].name()->0)
                && after[g].entries[i].last_modified >= lives[k].stamp() by {
            let name = lives[k].name()->0;
            let (g, i) = choose|g: int, i: int|
                #[trigger] holds_at(taken, g, i, lives[k].category, name)
                    && taken[g].entries[i].last_modified >= lives[k].stamp();
            let e = taken[g].entries[i];
            if !entry_anchored(e) {
                assert(e == cache[g].entries[i]);
                assert(taken[g].name == cache[g].name);
                assert(matches(lives[k], cache[g].name, e));
                assert(kept_as_is(lives, cache[g].name, cache[g].entries[i]));
            }
            assert(entry_anchored(e));
            assert(live_names(lives)[k] == Some(name));
            assert(seen(live_names(lives), name, name));
            assert(survives(lives, e));
            assert(after[g].entries.contains(taken[g].entries[i]));
            let j = choose|j: int| 0 <= j < after[g].entries.len() && after[g].entries[j] == e;
            assert(holds_at(after, g, j, lives[k].category, name));
        }
    }
}

/// A second refresh against the same scan changes nothing and reports no
/// change.
///
/// This is stated of an index that is settled against the scan: of one that
/// is not, the first refresh prunes the entry of a template that the scan
/// found, and the second one adds it again.
pub proof fn law_refresh_idempotent(cache: Seq<CategoryModel>, lives: Seq<LiveModel>)
    requires
        cache_wf(cache),
        settled(cache, lives),
    ensures
        refresh_model(refresh_model(cache, lives).0, lives) == (
            refresh_model(cache, lives).0,
            false,
        ),
{
    let first = refresh_model(cache, lives).0;
    lemma_refresh_outcome(cache, lives);
    lemma_absorb_all_idle(first, lives);
    lemma_prune(first, lives);
}

/// An index whose entries are all anchored is settled against every scan;
/// so is, then, every index that a refresh has produced.
pub proof fn law_refreshed_index_is_settled(
    cache: Seq<CategoryModel>,
    lives: Seq<LiveModel>,
    next: Seq<LiveModel>,
)
    requires
        cache_wf(cache),
    ensures
        settled(refresh_model(cache, lives).0, next),
{
    lemma_refresh_outcome(cache, lives);
    let after = refresh_model(cache, lives).0;
    assert forall|g: int, i: int|
        0 <= g < after.len() && 0 <= i < after[g].entries.len() implies entry_anchored(
        #[trigger] after[g].entries[i],
    ) by {}
}

/// Where the first `taken` directories of a scan with distinct names were
/// taken in, the entry that stands for directory `k` is still the old one
/// before `k` was taken in, and the one of directory `k` afterwards.
proof fn lemma_absorb_tracks(
    cache: Seq<CategoryModel>,
    lives: Seq<LiveModel>,
    g: int,
    i: int,
    k: int,
    taken: int,
)
    requires
        cache_wf(cache),
        distinct_names(lives),
        0 <= k < lives.len(),
        0 <= taken <= lives.len(),
        lives[k].name() is Some,
        holds_at(cache, g, i, lives[k].category, lives[k].name()->0),
        cache[g].entries[i].last_modified < lives[k].stamp(),
    ensures
        cache_wf(absorb_all(cache, lives.take(taken)).0),
        extends(cache, absorb_all(cache, lives.take(taken)).0),
        taken <= k ==> absorb_all(cache, lives.take(taken)).0[g].entries[i] == cache[g].entries[i],
        taken > k ==> absorb_all(cache, lives.take(taken)).0[g].entries[i] == lives[k].entry(
            lives[k].name()->0,
        ) && absorb_all(cache, lives.take(taken)).1,
    decreases taken,
{
    let prefix = lives.take(taken);
    lemma_absorb_all(cache, prefix);
    if taken > 0 {
        let rest = lives.take(taken - 1);
        let live = lives[taken - 1];
        assert(prefix.drop_last() =~= rest);
        assert(prefix.last() == live);
        let before = absorb_all(cache, rest).0;
        let after = absorb_all(cache, prefix).0;
        lemma_absorb_tracks(cache, lives, g, i, k, taken - 1);
        lemma_absorb(before, live);
        assert(after == absorb(before, live).0);
        assert(before[g].name == cache[g].name);
        assert(after[g].entries[i] == touched(before[g].name, before[g].entries[i], live));
        if taken - 1 < k {
            assert(lives[taken - 1].name() is Some ==> lives[taken - 1].name() != lives[k].name());
        } else if taken - 1 > k {
            assert(lives[k].name() != lives[taken - 1].name());
        } else {
            assert(after != before);
        }
    }
}

/// A refresh against a scan in which a directory is newer than the entry
/// that the index holds for it overwrites that entry with the directory's
/// description, path and modification time, and reports a change.
///
/// The names of the scan's directories are distinct, as those of the
/// directories of one parent are.
pub proof fn law_refresh_updates_stale(
    cache: Seq<CategoryModel>,
    lives: Seq<LiveModel>,
    g: int,
    i: int,
    k: int,
)
    requires
        cache_wf(cache),
        distinct_names(lives),
        0 <= k < lives.len(),
        lives[k].name() is Some,
        holds_at(cache, g, i, lives[k].category, lives[k].name()->0),
        cache[g].entries[i].last_modified < lives[k].stamp(),
    ensures
        refresh_model(cache, lives).1,
        exists|j: int|
            #[trigger] holds_at(
                refresh_model(cache, lives).0,
                g,
                j,
                lives[k].category,
                lives[k].name()->0,
            ) && refresh_model(cache, lives).0[g].entries[j] == lives[k].entry(
                lives[k].name()->0,
            ),
        holds_once(refresh_model(cache, lives).0, lives[k].category, lives[k].name()->0),
{
    let name = lives[k].name()->0;
    let taken = absorb_all(cache, lives).0;
    let after = refresh_model(cache, lives).0;
    assert(lives.take(lives.len() as int) =~= lives);
    lemma_absorb_tracks(cache, lives, g, i, k, lives.len() as int);
    lemma_prune(taken, lives);
    let e = taken[g].entries[i];
    assert(e == lives[k].entry(name));
    assert(live_names(lives)[k] == Some(name));
    assert(seen(live_names(lives), name, name));
    assert(survives(lives, e));
    assert(after[g].entries.contains(taken[g].entries[i]));
    let j = choose|j: int| 0 <= j < after[g].entries.len() && after[g].entries[j] == e;
    assert(holds_at(after, g, j, lives[k].category, name));
    assert forall|h: int, m: int| #[trigger]
        holds_at(after, h, m, lives[k].category, name) implies h == g && m == j by {
        if h < g {
            assert(after[h].name != after[g].name);
        }
        if g < h {
            assert(after[g].name != after[h].name);
        }
        if m < j {
            assert(after[g].entries[m].template_name != after[g].entries[j].template_name);
        }
        if j < m {
            assert(after[g].entries[j].template_name != after[g].entries[m].template_name);
        }
    }
}

/// Merging entries in keeps names distinct; into no entries at all, entries
/// of distinct names come out as they went in.
pub proof fn lemma_merge_entries(entries: Seq<EntryModel>, more: Seq<EntryModel>)
    ensures
        distinct_entries(entries) ==> distinct_entries(merge_entries(entries, more)),
        entries.len() == 0 && distinct_entries(more) ==> merge_entries(entries, more) == more,
    decreases more.len(),
{
    if more.len() > 0 {
        let rest = more.drop_last();
        let last = more.last();
        let merged = merge_entries(entries, rest);
        lemma_merge_entries(entries, rest);
        lemma_find_entry(merged, last.template_name);
        if entries.len() == 0 && distinct_entries(more) {
            assert(distinct_entries(rest)) by {
                assert forall|i: int, j: int| 0 <= i < j < rest.len() implies (
                #[trigger] rest[i]).template_name != (#[trigger] rest[j]).template_name by {
                    assert(rest[i] == more[i]);
                    assert(rest[j] == more[j]);
                }
            }
            assert(merged == rest);
            if find_entry(merged, last.template_name) is Some {
                let i = find_entry(merged, last.template_name)->0;
                assert(more[i] == rest[i]);
                assert(more[more.len() - 1] == last);
            }
            assert(merge_entries(entries, more) =~= more);
        }
    } else {
        assert(merge_entries(entries, more) =~= entries);
    }
}

/// Merging categories in keeps the index well formed.
pub proof fn lemma_merge_categories(cache: Seq<CategoryModel>, categories: Seq<CategoryModel>)
    requires
        cache_wf(cache),
    ensures
        cache_wf(merge_categories(cache, categories)),
    decreases categories.len(),
{
    if categories.len() > 0 {
        let before = merge_categories(cache, categories.drop_last());
        let category = categories.last();
        let after = merge_category(before, category);
        lemma_merge_categories(cache, categories.drop_last());
        lemma_find_category(before, category.name);
        match find_category(before, category.name) {
            None => {
                lemma_merge_entries(Seq::empty(), category.entries);
                assert(distinct_entries(after[before.len() as int].entries));
            },
            Some(g) => {
                lemma_merge_entries(before[g].entries, category.entries);
                assert(distinct_entries(before[g].entries));
                assert(distinct_entries(after[g].entries));
            },
        }
        assert forall|g: int, i: int, j: int|
            0 <= g < after.len() && 0 <= i < j < after[g].entries.len() implies (
        #[trigger] after[g].entries[i]).template_name != (
        #[trigger] after[g].entries[j]).template_name by {
            if g < before.len() && after[g] == before[g] {
            } else {
                assert(distinct_entries(after[g].entries));
            }
        }
    }
}

/// The categories that a well-formed index hands out make up, merged into
/// an empty index, the same index again: nothing is lost or reordered
/// between the index and what is written of it.
pub proof fn law_categories_round_trip(cache: Seq<CategoryModel>)
    requires
        cache_wf(cache),
    ensures
        merge_categories(Seq::empty(), cache) == cache,
    decreases cache.len(),
{
    if cache.len() > 0 {
        let rest = cache.drop_last();
        let last = cache.last();
        assert(cache_wf(rest)) by {
            assert forall|g: int, h: int| 0 <= g < h < rest.len() implies (#[trigger] rest[g]).name
                != (#[trigger] rest[h]).name by {
                assert(rest[g] == cache[g]);
                assert(rest[h] == cache[h]);
            }
            assert forall|g: int, i: int, j: int|
                0 <= g < rest.len() && 0 <= i < j < rest[g].entries.len() implies (
            #[trigger] rest[g].entries[i]).template_name != (
            #[trigger] rest[g].entries[j]).template_name by {
                assert(rest[g] == cache[g]);
            }
        }
        law_categories_round_trip(rest);
        lemma_find_category(rest, last.name);
        if find_category(rest, last.name) is Some {
            let g = find_category(rest, last.name)->0;
            assert(rest[g] == cache[g]);
            assert(cache[cache.len() - 1] == last);
        }
        assert(distinct_entries(last.entries)) by {
            assert(cache[cache.len() - 1] == last);
        }
        lemma_merge_entries(Seq::empty(), last.entries);
        assert(merge_categories(Seq::empty(), cache) =~= cache);
    } else {
        assert(merge_categories(Seq::empty(), cache) =~= cache);
    }
}

/// An index file that holds the categories which a well-formed index
/// handed out, and is not empty, loads back as that index.
pub proof fn law_written_index_loads_back(categories: Vec<Category>, length: u64)
    requires
        cache_wf(category_models(categories@)),
        length > 0,
    ensures
        loaded(CacheFile::Read { length, parsed: Some(categories) }) == Ok::<
            Seq<CategoryModel>,
            Failure,
        >(category_models(categories@)),
{
    law_categories_round_trip(category_models(categories@));
}

} // verus!
