use kick::cache::{
    live_templates, survives_scan, Category, FoundTemplate, LiveTemplate, TemplateCache,
    TemplateCacheEntry,
};
use kick::config::{Descriptor, DescriptorParts};

fn live(path: &str, category: &str, description: &str, modified: Option<u64>) -> LiveTemplate {
    LiveTemplate {
        path: path.to_string(),
        category: category.to_string(),
        discription: description.to_string(),
        modified,
    }
}

fn entry(name: &str, description: &str, path: &str, last_modified: u64) -> TemplateCacheEntry {
    TemplateCacheEntry {
        template_name: name.to_string(),
        discription: description.to_string(),
        path: path.to_string(),
        last_modified,
    }
}

fn shape(cache: &TemplateCache) -> Vec<(String, Vec<(String, String, String, u64)>)> {
    cache
        .categories()
        .into_iter()
        .map(|c| {
            (
                c.name,
                c.entries
                    .into_iter()
                    .map(|e| (e.template_name, e.discription, e.path, e.last_modified))
                    .collect(),
            )
        })
        .collect()
}

#[test]
fn empty_cache_has_no_categories() {
    let cache = TemplateCache::empty();
    assert!(cache.categories().is_empty());
}

#[test]
fn refresh_adds_each_live_template_once() {
    let mut cache = TemplateCache::empty();
    let scan = vec![
        live("/cfg/kick/cli", "rust", "a command line tool", Some(10)),
        live("/cfg/kick/web", "rust", "a web service", Some(20)),
        live("/cfg/kick/script", "python", "", None),
    ];
    let changed = cache.refresh(&scan);
    assert!(changed);
    assert_eq!(
        shape(&cache),
        vec![
            (
                "rust".to_string(),
                vec![
                    (
                        "cli".to_string(),
                        "a command line tool".to_string(),
                        "/cfg/kick/cli".to_string(),
                        10
                    ),
                    ("web".to_string(), "a web service".to_string(), "/cfg/kick/web".to_string(), 20),
                ]
            ),
            (
                "python".to_string(),
                vec![("script".to_string(), "".to_string(), "/cfg/kick/script".to_string(), 0)]
            ),
        ]
    );
}

#[test]
fn refresh_twice_reports_no_change() {
    let mut cache = TemplateCache::empty();
    let scan = vec![
        live("/cfg/kick/cli", "rust", "a command line tool", Some(10)),
        live("/cfg/kick/script", "python", "", Some(3)),
    ];
    assert!(cache.refresh(&scan));
    let first = shape(&cache);
    assert!(!cache.refresh(&scan));
    assert_eq!(shape(&cache), first);
}

#[test]
fn refresh_overwrites_an_outdated_entry() {
    let mut cache = TemplateCache::empty();
    assert!(cache.refresh(&vec![live("/cfg/kick/cli", "rust", "old words", Some(10))]));
    let changed = cache.refresh(&vec![live("/cfg/kick/cli", "rust", "new words", Some(11))]);
    assert!(changed);
    assert_eq!(
        shape(&cache),
        vec![(
            "rust".to_string(),
            vec![("cli".to_string(), "new words".to_string(), "/cfg/kick/cli".to_string(), 11)]
        )]
    );
}

#[test]
fn refresh_leaves_an_entry_of_equal_time() {
    let mut cache = TemplateCache::empty();
    assert!(cache.refresh(&vec![live("/cfg/kick/cli", "rust", "old words", Some(10))]));
    let changed = cache.refresh(&vec![live("/cfg/kick/cli", "rust", "new words", Some(10))]);
    assert!(!changed);
    assert_eq!(
        shape(&cache),
        vec![(
            "rust".to_string(),
            vec![("cli".to_string(), "old words".to_string(), "/cfg/kick/cli".to_string(), 10)]
        )]
    );
}

#[test]
fn refresh_prunes_a_deleted_template_and_keeps_its_category() {
    let mut cache = TemplateCache::empty();
    let scan = vec![
        live("/cfg/kick/cli", "rust", "", Some(1)),
        live("/cfg/kick/web", "rust", "", Some(1)),
        live("/cfg/kick/script", "python", "", Some(1)),
    ];
    assert!(cache.refresh(&scan));
    let changed = cache.refresh(&vec![live("/cfg/kick/web", "rust", "", Some(1))]);
    assert!(changed);
    assert_eq!(
        shape(&cache),
        vec![
            (
                "rust".to_string(),
                vec![("web".to_string(), "".to_string(), "/cfg/kick/web".to_string(), 1)]
            ),
            ("python".to_string(), vec![]),
        ]
    );
}

#[test]
fn refresh_prunes_an_entry_whose_path_leads_elsewhere() {
    let stored = vec![Category {
        name: "rust".to_string(),
        entries: vec![entry("cli", "", "/somewhere/else", 100)],
    }];
    let mut cache = TemplateCache::from_categories(stored);
    let scan = vec![live("/cfg/kick/cli", "rust", "", Some(50))];
    assert!(cache.refresh(&scan));
    assert_eq!(shape(&cache), vec![("rust".to_string(), vec![])]);
    assert!(cache.refresh(&scan));
    assert_eq!(
        shape(&cache),
        vec![(
            "rust".to_string(),
            vec![("cli".to_string(), "".to_string(), "/cfg/kick/cli".to_string(), 50)]
        )]
    );
    assert!(!cache.refresh(&scan));
}

#[test]
fn refresh_passes_over_a_path_without_a_name() {
    let mut cache = TemplateCache::empty();
    let changed = cache.refresh(&vec![live("/", "rust", "", Some(1))]);
    assert!(!changed);
    assert!(cache.categories().is_empty());
}

#[test]
fn a_template_that_changes_category_is_held_under_both() {
    let mut cache = TemplateCache::empty();
    assert!(cache.refresh(&vec![live("/cfg/kick/cli", "rust", "", Some(1))]));
    assert!(cache.refresh(&vec![live("/cfg/kick/cli", "go", "", Some(2))]));
    assert_eq!(
        shape(&cache),
        vec![
            (
                "rust".to_string(),
                vec![("cli".to_string(), "".to_string(), "/cfg/kick/cli".to_string(), 1)]
            ),
            (
                "go".to_string(),
                vec![("cli".to_string(), "".to_string(), "/cfg/kick/cli".to_string(), 2)]
            ),
        ]
    );
}

#[test]
fn from_categories_keeps_the_first_of_two_entries_of_one_name() {
    let stored = vec![
        Category {
            name: "rust".to_string(),
            entries: vec![entry("cli", "first", "/a/cli", 1), entry("cli", "second", "/b/cli", 2)],
        },
        Category { name: "rust".to_string(), entries: vec![entry("web", "", "/a/web", 3)] },
    ];
    let cache = TemplateCache::from_categories(stored);
    assert_eq!(
        shape(&cache),
        vec![(
            "rust".to_string(),
            vec![
                ("cli".to_string(), "first".to_string(), "/a/cli".to_string(), 1),
                ("web".to_string(), "".to_string(), "/a/web".to_string(), 3),
            ]
        )]
    );
}

#[test]
fn categories_round_trip_through_from_categories() {
    let mut cache = TemplateCache::empty();
    let scan = vec![
        live("/cfg/kick/cli", "rust", "tool", Some(10)),
        live("/cfg/kick/script", "python", "", Some(3)),
        live("/cfg/kick/web", "rust", "service", Some(7)),
    ];
    cache.refresh(&scan);
    let again = TemplateCache::from_categories(cache.categories());
    assert_eq!(shape(&again), shape(&cache));
}

#[test]
fn load_of_a_missing_file_is_an_empty_cache() {
    let cache = TemplateCache::load(kick::cache::CacheFile::Absent).unwrap();
    assert!(cache.categories().is_empty());
}

#[test]
fn load_of_an_empty_file_is_an_empty_cache() {
    let file = kick::cache::CacheFile::Read { length: 0, parsed: None };
    let cache = TemplateCache::load(file).unwrap();
    assert!(cache.categories().is_empty());
}

#[test]
fn load_of_an_unparseable_file_is_corrupt() {
    let file = kick::cache::CacheFile::Read { length: 12, parsed: None };
    assert!(matches!(TemplateCache::load(file), Err(kick::error::Failure::CorruptCache)));
}

#[test]
fn load_of_an_unreadable_file_is_an_io_error() {
    let file = kick::cache::CacheFile::Unreadable;
    assert!(matches!(TemplateCache::load(file), Err(kick::error::Failure::IoError)));
}

#[test]
fn load_takes_the_parsed_categories() {
    let stored = vec![
        Category { name: "rust".to_string(), entries: vec![entry("cli", "tool", "/c/cli", 5)] },
        Category { name: "go".to_string(), entries: vec![] },
    ];
    let file = kick::cache::CacheFile::Read { length: 80, parsed: Some(stored) };
    let cache = TemplateCache::load(file).unwrap();
    assert_eq!(
        shape(&cache),
        vec![
            (
                "rust".to_string(),
                vec![("cli".to_string(), "tool".to_string(), "/c/cli".to_string(), 5)]
            ),
            ("go".to_string(), vec![]),
        ]
    );
}

#[test]
fn display_shows_each_category_and_its_entries_in_order() {
    let mut cache = TemplateCache::empty();
    let scan = vec![
        live("/cfg/kick/cli", "rust", "a command line tool", Some(10)),
        live("/cfg/kick/script", "python", "", Some(3)),
        live("/cfg/kick/web", "rust", "a web service", Some(7)),
    ];
    cache.refresh(&scan);
    assert_eq!(
        cache.display(),
        vec![
            "rust".to_string(),
            " - cli: a command line tool".to_string(),
            " - web: a web service".to_string(),
            "python".to_string(),
            " - script: ".to_string(),
        ]
    );
}

#[test]
fn display_of_an_empty_cache_is_empty() {
    assert!(TemplateCache::empty().display().is_empty());
}

fn found(path: &str, category: &str, description: Option<&str>, modified: Option<u64>) -> FoundTemplate {
    FoundTemplate {
        path: path.to_string(),
        modified,
        descriptor: Descriptor::Parsed(DescriptorParts {
            name: category.to_string(),
            description: description.map(|d| d.to_string()),
            setup: None,
            variables: None,
        }),
    }
}

#[test]
fn listing_refreshes_and_reports_the_change() {
    let mut command = kick::list::CmdList::new(vec!["kick".to_string()]);
    let scan = || vec![found("/cfg/kick/cli", "rust", Some("tool"), Some(10))];
    let listing = command.init(kick::cache::CacheFile::Absent, &scan()).ok().unwrap();
    assert!(listing.changed);
    assert_eq!(listing.lines, vec!["rust".to_string(), " - cli: tool".to_string()]);
    let file = kick::cache::CacheFile::Read { length: 10, parsed: Some(listing.cache.categories()) };
    let again = command.init(file, &scan()).ok().unwrap();
    assert!(!again.changed);
    assert_eq!(again.lines, vec!["rust".to_string(), " - cli: tool".to_string()]);
    assert_eq!(shape(&again.cache), shape(&listing.cache));
}

#[test]
fn listing_fails_on_a_corrupt_index() {
    let mut command = kick::list::CmdList::new(vec![]);
    let file = kick::cache::CacheFile::Read { length: 3, parsed: None };
    assert!(matches!(command.init(file, &vec![]), Err(kick::error::Failure::CorruptCache)));
}

#[test]
fn listing_passes_over_a_template_with_a_bad_descriptor() {
    let mut command = kick::list::CmdList::new(vec![]);
    let scan = vec![
        FoundTemplate {
            path: "/cfg/kick/broken".to_string(),
            modified: Some(1),
            descriptor: Descriptor::Malformed,
        },
        found("/cfg/kick/cli", "rust", None, None),
        FoundTemplate {
            path: "/cfg/kick/gone".to_string(),
            modified: None,
            descriptor: Descriptor::Missing,
        },
    ];
    let listing = command.init(kick::cache::CacheFile::Absent, &scan).ok().unwrap();
    assert!(listing.changed);
    assert_eq!(listing.lines, vec!["rust".to_string(), " - cli: ".to_string()]);
}

#[test]
fn live_templates_are_those_with_a_descriptor() {
    let live = live_templates(&vec![
        found("/cfg/kick/a", "rust", Some("first"), Some(3)),
        FoundTemplate {
            path: "/cfg/kick/b".to_string(),
            modified: Some(1),
            descriptor: Descriptor::Malformed,
        },
        found("/cfg/kick/c", "go", None, None),
    ]);
    let plain: Vec<(String, String, String, Option<u64>)> =
        live.into_iter().map(|l| (l.path, l.category, l.discription, l.modified)).collect();
    assert_eq!(
        plain,
        vec![
            ("/cfg/kick/a".to_string(), "rust".to_string(), "first".to_string(), Some(3)),
            ("/cfg/kick/c".to_string(), "go".to_string(), "".to_string(), None),
        ]
    );
    assert!(live_templates(&vec![]).is_empty());
}

#[test]
fn take_in_adds_then_leaves_then_overwrites() {
    let mut cache = TemplateCache::empty();
    assert!(cache.take_in("cli".to_string(), &live("/cfg/kick/cli", "rust", "one", Some(5))));
    assert!(!cache.take_in("cli".to_string(), &live("/cfg/kick/cli", "rust", "two", Some(5))));
    assert!(!cache.take_in("cli".to_string(), &live("/cfg/kick/cli", "rust", "two", Some(4))));
    assert_eq!(
        shape(&cache),
        vec![(
            "rust".to_string(),
            vec![("cli".to_string(), "one".to_string(), "/cfg/kick/cli".to_string(), 5)]
        )]
    );
    assert!(cache.take_in("cli".to_string(), &live("/moved/cli", "rust", "three", Some(6))));
    assert_eq!(
        shape(&cache),
        vec![(
            "rust".to_string(),
            vec![("cli".to_string(), "three".to_string(), "/moved/cli".to_string(), 6)]
        )]
    );
}

#[test]
fn take_in_uses_the_name_it_is_given() {
    let mut cache = TemplateCache::empty();
    assert!(cache.take_in("alias".to_string(), &live("/cfg/kick/cli", "rust", "", None)));
    assert!(cache.take_in("web".to_string(), &live("/cfg/kick/web", "rust", "", Some(2))));
    assert_eq!(
        shape(&cache),
        vec![(
            "rust".to_string(),
            vec![
                ("alias".to_string(), "".to_string(), "/cfg/kick/cli".to_string(), 0),
                ("web".to_string(), "".to_string(), "/cfg/kick/web".to_string(), 2),
            ]
        )]
    );
}

#[test]
fn an_entry_survives_only_if_its_name_and_folder_were_seen_together() {
    let names = vec![Some("cli".to_string()), None, Some("web".to_string())];
    let stored = entry("cli", "", "/cfg/kick/cli", 1);
    assert!(survives_scan(&stored, &Some("cli".to_string()), &names));
    assert!(!survives_scan(&stored, &Some("web".to_string()), &names));
    assert!(!survives_scan(&stored, &Some("other".to_string()), &names));
    assert!(!survives_scan(&stored, &None, &names));
    let gone = entry("old", "", "/cfg/kick/old", 1);
    assert!(!survives_scan(&gone, &Some("old".to_string()), &names));
    assert!(!survives_scan(&gone, &Some("cli".to_string()), &names));
    assert!(!survives_scan(&stored, &Some("cli".to_string()), &vec![]));
}

#[test]
fn refresh_goes_by_the_last_component_of_a_path() {
    let mut cache = TemplateCache::empty();
    let scan = vec![
        live("/cfg/kick/cli/", "rust", "", Some(1)),
        live("relative/web", "rust", "", Some(1)),
        live("/cfg/kick/..", "rust", "", Some(1)),
        live("", "rust", "", Some(1)),
    ];
    assert!(cache.refresh(&scan));
    assert_eq!(
        shape(&cache),
        vec![(
            "rust".to_string(),
            vec![
                ("cli".to_string(), "".to_string(), "/cfg/kick/cli/".to_string(), 1),
                ("web".to_string(), "".to_string(), "relative/web".to_string(), 1),
            ]
        )]
    );
    assert!(!cache.refresh(&scan));
}
