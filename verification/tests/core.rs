use gdsfx::cache::{CacheError, CacheStore, FetchOutcome};
use gdsfx::catalog::{CatalogError, Credit, Library};
use gdsfx::favourites::FavouritesSet;
use gdsfx::filter::{favourite_sounds, filter_sounds};
use gdsfx::library::{u32_to_string, LibraryEntry};
use gdsfx::matching::str_matches;
use gdsfx::prune::remove_empty_category_nodes;
use gdsfx::sorting::{sort_children, str_le, Sorting};
use gdsfx::state::{GdSfx, Stage};
use gdsfx::stats::stats;

fn sound(id: u32, name: &str, parent: u32, bytes: u64, duration: i64) -> LibraryEntry {
    LibraryEntry::Sound {
        id,
        name: name.to_string(),
        parent,
        bytes,
        duration,
    }
}

fn category(id: u32, name: &str, parent: u32, children: Vec<LibraryEntry>) -> LibraryEntry {
    LibraryEntry::Category {
        id,
        name: name.to_string(),
        parent,
        children,
    }
}

fn scenario_root() -> LibraryEntry {
    category(
        1,
        "root",
        0,
        vec![category(
            10,
            "CategoryA",
            0,
            vec![
                sound(100, "jump", 10, 500, 200),
                sound(101, "land", 10, 300, 150),
            ],
        )],
    )
}

fn children_of(entry: &LibraryEntry) -> &Vec<LibraryEntry> {
    match entry {
        LibraryEntry::Category { children, .. } => children,
        LibraryEntry::Sound { .. } => panic!("expected a category"),
    }
}

fn ids_in_order(entries: &[LibraryEntry]) -> Vec<u32> {
    entries.iter().map(|e| e.id()).collect()
}

#[test]
fn accessors_report_fields() {
    let s = sound(100, "jump", 10, 500, 200);
    assert_eq!(s.id(), 100);
    assert_eq!(s.name(), "jump");
    assert_eq!(s.parent(), 10);
    assert_eq!(s.bytes(), 500);
    assert_eq!(s.duration(), 200);
    assert!(!s.is_category());
    let c = category(10, "CategoryA", 0, vec![]);
    assert!(c.is_category());
    assert_eq!(c.bytes(), 0);
    assert_eq!(c.duration(), 0);
    assert_eq!(c.child_count(), 0);
}

#[test]
fn pretty_name_is_name_and_id() {
    let s = sound(100, "jump", 10, 500, 200);
    assert_eq!(s.pretty_name(), "jump #100");
    let c = category(7, "Drums", 0, vec![]);
    assert_eq!(c.pretty_name(), "Drums #7");
}

#[test]
fn decimal_formatting() {
    assert_eq!(u32_to_string(0), "0");
    assert_eq!(u32_to_string(9), "9");
    assert_eq!(u32_to_string(10), "10");
    assert_eq!(u32_to_string(12345), "12345");
    assert_eq!(u32_to_string(u32::MAX), "4294967295");
}

#[test]
fn matching_is_case_insensitive_substring() {
    assert!(str_matches("jump", "jump"));
    assert!(str_matches("Jump", "jUMP"));
    assert!(str_matches("big jump 3", "JUMP"));
    assert!(str_matches("anything", ""));
    assert!(str_matches("", ""));
    assert!(!str_matches("", "a"));
    assert!(!str_matches("jump", "land"));
    assert!(!str_matches("jum", "jump"));
}

#[test]
fn scenario_filter_keeps_only_matching_branch() {
    let root = scenario_root();
    let filtered = filter_sounds(&root, "jump");
    assert_eq!(filtered.len(), 1);
    let new_root = &filtered[0];
    assert_eq!(new_root.id(), 1);
    let top = children_of(new_root);
    assert_eq!(top.len(), 1);
    assert_eq!(top[0].id(), 10);
    assert_eq!(top[0].name(), "CategoryA");
    let leaves = children_of(&top[0]);
    assert_eq!(leaves.len(), 1);
    assert_eq!(leaves[0].id(), 100);
    assert_eq!(leaves[0].name(), "jump");
}

#[test]
fn filter_with_no_match_drops_everything() {
    let root = scenario_root();
    let filtered = filter_sounds(&root, "thunder");
    assert!(filtered.is_empty());
}

#[test]
fn filter_with_empty_query_keeps_every_sound() {
    let root = scenario_root();
    let filtered = filter_sounds(&root, "");
    assert_eq!(filtered.len(), 1);
    let leaves = children_of(&children_of(&filtered[0])[0]);
    assert_eq!(ids_in_order(leaves), vec![100, 101]);
}

#[test]
fn filter_is_case_insensitive() {
    let root = scenario_root();
    let filtered = filter_sounds(&root, "JUMP");
    assert_eq!(filtered.len(), 1);
    let leaves = children_of(&children_of(&filtered[0])[0]);
    assert_eq!(ids_in_order(leaves), vec![100]);
}

#[test]
fn scenario_stats_totals() {
    let root = scenario_root();
    let (total_bytes, total_duration, total_files) = stats(&root);
    assert_eq!(total_bytes, 800);
    assert_eq!(total_duration, 350);
    assert_eq!(total_files, 2);
}

#[test]
fn stats_of_empty_category_is_one_file() {
    let c = category(5, "empty", 0, vec![]);
    assert_eq!(stats(&c), (0, 0, 1));
}

#[test]
fn stats_add_up_pairwise() {
    let a = category(2, "a", 1, vec![sound(20, "x", 2, 10, 4)]);
    let b = category(3, "b", 1, vec![sound(30, "y", 3, 7, 5), sound(31, "z", 3, 1, 1)]);
    let (ab, ad, af) = stats(&a);
    let (bb, bd, bf) = stats(&b);
    let joined = category(1, "joined", 0, vec![a, b]);
    assert_eq!(stats(&joined), (ab + bb, ad + bd, af + bf));
}

#[test]
fn sort_default_keeps_order_categories_first() {
    let children = vec![
        sound(3, "c", 1, 30, 3),
        category(8, "cat", 1, vec![]),
        sound(1, "a", 1, 10, 1),
    ];
    let sorted = sort_children(children, Sorting::Default);
    assert_eq!(ids_in_order(&sorted), vec![8, 3, 1]);
}

#[test]
fn sort_by_id_is_reversed_by_convention() {
    let children = vec![
        sound(3, "c", 1, 30, 3),
        sound(1, "a", 1, 10, 1),
        sound(2, "b", 1, 20, 2),
    ];
    let inc = sort_children(children, Sorting::IdInc);
    assert_eq!(ids_in_order(&inc), vec![3, 2, 1]);
    let children = vec![
        sound(3, "c", 1, 30, 3),
        sound(1, "a", 1, 10, 1),
        sound(2, "b", 1, 20, 2),
    ];
    let dec = sort_children(children, Sorting::IdDec);
    assert_eq!(ids_in_order(&dec), vec![1, 2, 3]);
}

#[test]
fn sort_by_name_both_ways() {
    let children = vec![
        sound(1, "land", 1, 10, 1),
        sound(2, "Fall", 1, 20, 2),
        sound(3, "jump", 1, 30, 3),
    ];
    let inc = sort_children(children, Sorting::NameInc);
    assert_eq!(ids_in_order(&inc), vec![2, 3, 1]);
    let children = vec![
        sound(1, "land", 1, 10, 1),
        sound(2, "Fall", 1, 20, 2),
        sound(3, "jump", 1, 30, 3),
    ];
    let dec = sort_children(children, Sorting::NameDec);
    assert_eq!(ids_in_order(&dec), vec![1, 3, 2]);
}

#[test]
fn sort_by_length_and_size() {
    let children = vec![
        sound(1, "a", 1, 30, 9),
        sound(2, "b", 1, 10, 7),
        sound(3, "c", 1, 20, 8),
    ];
    let by_len = sort_children(children, Sorting::LengthInc);
    assert_eq!(ids_in_order(&by_len), vec![2, 3, 1]);
    let children = vec![
        sound(1, "a", 1, 30, 9),
        sound(2, "b", 1, 10, 7),
        sound(3, "c", 1, 20, 8),
    ];
    let by_size_dec = sort_children(children, Sorting::SizeDec);
    assert_eq!(ids_in_order(&by_size_dec), vec![1, 3, 2]);
}

#[test]
fn string_order_is_lexicographic() {
    assert!(str_le("", "a"));
    assert!(str_le("abc", "abd"));
    assert!(str_le("abc", "abc"));
    assert!(!str_le("abd", "abc"));
    assert!(str_le("ab", "abc"));
    assert!(!str_le("abc", "ab"));
    assert!(str_le("Zoo", "apple"));
}

#[test]
fn prune_drops_empty_branches_bottom_up() {
    let mut root = category(
        99,
        "root",
        0,
        vec![
            category(10, "a", 99, vec![category(20, "b", 10, vec![])]),
            category(11, "c", 99, vec![sound(100, "x", 11, 1, 1)]),
        ],
    );
    remove_empty_category_nodes(&mut root);
    let top = children_of(&root);
    assert_eq!(ids_in_order(top), vec![11]);
    assert_eq!(children_of(&top[0]).len(), 1);
}

#[test]
fn prune_twice_equals_prune_once() {
    let build = || {
        category(
            99,
            "root",
            0,
            vec![
                category(10, "a", 99, vec![category(20, "b", 10, vec![])]),
                category(11, "c", 99, vec![sound(100, "x", 11, 1, 1)]),
            ],
        )
    };
    let mut once = build();
    remove_empty_category_nodes(&mut once);
    let mut twice = build();
    remove_empty_category_nodes(&mut twice);
    remove_empty_category_nodes(&mut twice);
    assert_eq!(ids_in_order(children_of(&once)), ids_in_order(children_of(&twice)));
    assert_eq!(
        children_of(&children_of(&once)[0]).len(),
        children_of(&children_of(&twice)[0]).len()
    );
}

#[test]
fn prune_keeps_exempt_empty_category() {
    let mut root = category(
        99,
        "root",
        0,
        vec![category(10, "kept", 1, vec![]), category(11, "dropped", 2, vec![])],
    );
    remove_empty_category_nodes(&mut root);
    assert_eq!(ids_in_order(children_of(&root)), vec![10]);
}

#[test]
fn favourites_view_lists_matching_favourite_sounds() {
    let root = scenario_root();
    let mut favs = FavouritesSet::new();
    favs.add(101);
    let shown = favourite_sounds(&root, &favs, "");
    assert_eq!(ids_in_order(&shown), vec![101]);
    let none_match = favourite_sounds(&root, &favs, "jump");
    assert!(none_match.is_empty());
    favs.add(100);
    let both = favourite_sounds(&root, &favs, "");
    assert_eq!(ids_in_order(&both), vec![100, 101]);
}

#[test]
fn favourites_add_and_remove_are_idempotent() {
    let mut favs = FavouritesSet::new();
    favs.add(7);
    favs.add(7);
    assert!(favs.contains(7));
    favs.remove(7);
    favs.remove(7);
    assert!(!favs.contains(7));
}

#[test]
fn favourites_round_trip_through_list() {
    let mut favs = FavouritesSet::new();
    favs.add(1);
    favs.add(2);
    let list = favs.to_list();
    let back = FavouritesSet::from_list(list);
    assert!(back.contains(1));
    assert!(back.contains(2));
    assert!(!back.contains(3));
}

#[test]
fn cache_round_trip() {
    let mut store = CacheStore::new();
    assert!(!store.contains(5));
    assert_eq!(store.fetch_and_store(5, FetchOutcome::Stored), Ok(()));
    assert!(store.contains(5));
    assert_eq!(store.delete(5), Ok(()));
    assert!(!store.contains(5));
    assert_eq!(store.delete(5), Err(CacheError::NotFound));
}

#[test]
fn cache_failed_fetch_leaves_no_artifact() {
    let mut store = CacheStore::new();
    assert_eq!(
        store.fetch_and_store(5, FetchOutcome::TransferFailed),
        Err(CacheError::TransferError)
    );
    assert!(!store.contains(5));
    assert_eq!(
        store.fetch_and_store(5, FetchOutcome::PersistFailed),
        Err(CacheError::PersistError)
    );
    assert!(!store.contains(5));
}

#[test]
fn cache_rejects_concurrent_fetches_and_guarded_delete() {
    let mut store = CacheStore::new();
    assert_eq!(store.begin_fetch(5), Ok(()));
    assert_eq!(store.begin_fetch(5), Err(CacheError::FetchInFlight));
    assert_eq!(store.delete(5), Err(CacheError::FetchInFlight));
    assert_eq!(store.finish_fetch(5, FetchOutcome::Stored), Ok(()));
    assert!(store.contains(5));
    assert_eq!(store.begin_fetch(5), Ok(()));
}

#[test]
fn cache_inventory_populates_membership() {
    let store = CacheStore::from_inventory(vec![1, 2, 2, 3]);
    assert!(store.contains(1));
    assert!(store.contains(2));
    assert!(store.contains(3));
    assert!(!store.contains(4));
}

#[test]
fn catalog_accepts_well_formed_tree() {
    let root = scenario_root();
    let credits = vec![Credit { name: "someone".to_string(), link: "https://example.test".to_string() }];
    let lib = Library::new(9, root, credits);
    assert!(lib.is_ok());
    let lib = lib.unwrap();
    assert_eq!(lib.version, 9);
    assert_eq!(lib.credits.len(), 1);
    assert_eq!(lib.sound_effects.id(), 1);
}

#[test]
fn catalog_refuses_duplicate_ids() {
    let root = category(
        1,
        "root",
        0,
        vec![category(10, "a", 0, vec![sound(10, "dup", 10, 1, 1)])],
    );
    assert!(matches!(Library::new(1, root, vec![]), Err(CatalogError::MalformedCatalog)));
}

#[test]
fn catalog_refuses_dangling_parent() {
    let root = category(
        1,
        "root",
        0,
        vec![category(10, "a", 0, vec![sound(100, "x", 99, 1, 1)])],
    );
    assert!(matches!(Library::new(1, root, vec![]), Err(CatalogError::MalformedCatalog)));
    let not_category = sound(1, "root", 0, 1, 1);
    assert!(matches!(
        Library::new(1, not_category, vec![]),
        Err(CatalogError::MalformedCatalog)
    ));
}

#[test]
fn library_view_filters_and_prunes() {
    let mut state = GdSfx::default();
    assert_eq!(state.stage, Stage::Library);
    assert!(state.library_view().is_none());
    let lib = Library::new(9, scenario_root(), vec![]).unwrap();
    state.sfx_library = Some(lib);
    state.search_query = "jump".to_string();
    let view = state.library_view().expect("a matching view");
    let top = children_of(&view);
    assert_eq!(ids_in_order(top), vec![10]);
    assert_eq!(ids_in_order(children_of(&top[0])), vec![100]);
    state.search_query = "thunder".to_string();
    assert!(state.library_view().is_none());
}
