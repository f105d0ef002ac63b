use proxima_backend::database::folders::{
    FolderError, Folders, NewFolder, ProxFolder, RecursivityLevel,
};
use proxima_backend::database::ids::ItemKind;
use proxima_backend::database::{DatabaseItem, ProxDatabase};
use std::collections::HashSet;

fn t(x: &str) -> String {
    x.to_string()
}

fn two_folders() -> Folders {
    let mut folders = Folders::new();
    let home = NewFolder::new(t("/home"), RecursivityLevel::Fixed(2), 1);
    assert_eq!(folders.register_folder(home, t("home"), None), Ok((0, RecursivityLevel::Fixed(2))));
    let ada = NewFolder::new(t("/home/ada"), RecursivityLevel::Fixed(1), 1);
    assert_eq!(
        folders.register_folder(ada, t("ada"), Some(0)),
        Ok((1, RecursivityLevel::Fixed(1)))
    );
    folders
}

#[test]
fn new_folders_hold_nothing() {
    let folders = Folders::new();
    assert_eq!(folders.number_of_folders(), 0);
    assert!(folders.get_starting_points().is_empty());
    assert!(folders.get_ignored_folders().is_empty());
    assert!(folders.get_ignored_folder_names().is_empty());
    assert!(folders.get_ignored_extensions().is_empty());
    assert!(folders.is_dense());
    assert!(!folders.is_ignored("/home", "home"));
}

#[test]
fn levels_below_a_folder() {
    assert_eq!(RecursivityLevel::No.below(), None);
    assert_eq!(RecursivityLevel::Fixed(0).below(), None);
    assert_eq!(RecursivityLevel::Fixed(1).below(), Some(RecursivityLevel::Fixed(0)));
    assert_eq!(RecursivityLevel::Fixed(7).below(), Some(RecursivityLevel::Fixed(6)));
    assert_eq!(RecursivityLevel::Infinite.below(), Some(RecursivityLevel::Infinite));
}

#[test]
fn ignore_lists_grow_in_order() {
    let mut folders = Folders::new();
    folders.add_to_ignore_list(vec![t("/proc"), t("/sys")]);
    folders.add_to_ignore_list(vec![t("/tmp")]);
    folders.add_to_folder_name_ignore_list(vec![t("target")]);
    folders.add_to_folder_name_ignore_list(vec![t(".git"), t("target")]);
    folders.add_to_extension_ignore_list(vec![t("o")]);
    folders.add_to_extension_ignore_list(vec![t("lock")]);
    assert_eq!(folders.get_ignored_folders(), &vec![t("/proc"), t("/sys"), t("/tmp")]);
    assert_eq!(folders.get_ignored_folder_names(), &vec![t("target"), t(".git"), t("target")]);
    assert_eq!(folders.get_ignored_extensions(), &vec![t("o"), t("lock")]);
    assert_eq!(folders.number_of_folders(), 0);
    assert!(folders.get_starting_points().is_empty());
}

#[test]
fn folders_are_passed_over_by_path_or_by_name() {
    let mut folders = Folders::new();
    folders.add_to_ignore_list(vec![t("/proc")]);
    folders.add_to_folder_name_ignore_list(vec![t("target")]);
    folders.add_to_extension_ignore_list(vec![t("lock")]);
    assert!(folders.is_ignored("/proc", "proc"));
    assert!(folders.is_ignored("/work/target", "target"));
    assert!(folders.is_ignored("/work/target", "/target/"));
    assert!(folders.is_ignored("/work/target", "//target"));
    assert!(!folders.is_ignored("/work/target", "tar/get"));
    assert!(!folders.is_ignored("/proc/1", "1"));
    assert!(!folders.is_ignored("/work", "/proc"));
    assert!(!folders.is_ignored("target", "work"));
    assert!(folders.is_ignored_extension("lock"));
    assert!(!folders.is_ignored_extension("loc"));
    assert!(!folders.is_ignored_extension(""));
}

#[test]
fn a_folder_is_found_by_its_path() {
    let folders = two_folders();
    assert_eq!(folders.get_folder_if_already_exists(t("/home")), Some(0));
    assert_eq!(folders.get_folder_if_already_exists(t("/home/ada")), Some(1));
    assert_eq!(folders.get_folder_if_already_exists(t("/home/ad")), None);
    assert_eq!(folders.get_folder_if_already_exists(t("")), None);
    assert_eq!(folders.get_parent_to(Some(t("/home"))), Some(0));
    assert_eq!(folders.get_parent_to(Some(t("/home/ada"))), Some(1));
    assert_eq!(folders.get_parent_to(Some(t("/var"))), None);
    assert_eq!(folders.get_parent_to(None), None);
}

#[test]
fn the_first_folder_at_a_path_is_the_one_found() {
    let mut folders = Folders::new();
    folders.add_folder_raw(ProxFolder::new_empty(0, t("/a"), t("a"), None, RecursivityLevel::No, 0));
    folders.add_folder_raw(ProxFolder::new_empty(0, t("/b"), t("b"), None, RecursivityLevel::No, 0));
    folders.add_folder_raw(ProxFolder::new_empty(0, t("/b"), t("c"), None, RecursivityLevel::No, 0));
    assert_eq!(folders.get_folder_if_already_exists(t("/b")), Some(1));
}

#[test]
fn a_new_folder_is_added_at_the_end() {
    let mut folders = two_folders();
    let work = NewFolder::new(t("/home/ada/work"), RecursivityLevel::Infinite, 3);
    assert_eq!(
        folders.register_folder(work, t("work"), Some(1)),
        Ok((2, RecursivityLevel::Infinite))
    );
    assert_eq!(folders.number_of_folders(), 3);
    assert!(folders.is_dense());
    let added = folders.get_folder_by_id(2);
    assert_eq!(added.id, 2);
    assert_eq!(added.absolute_path, "/home/ada/work");
    assert_eq!(added.name, "work");
    assert_eq!(added.parent, Some(1));
    assert_eq!(added.recursive, RecursivityLevel::Infinite);
    assert_eq!(added.from_device, 3);
    assert_eq!(added.desc, None);
    assert_eq!(added.last_updated, None);
    assert!(added.tags.is_empty());
    assert!(added.children.is_empty());
    assert!(added.files.is_empty());
    assert_eq!(added.access_modes, HashSet::from([0]));
    assert_eq!(folders.get_folder_by_id(1).children, Vec::<usize>::new());
}

#[test]
fn a_folder_that_is_passed_over_is_refused() {
    let mut folders = two_folders();
    folders.add_to_ignore_list(vec![t("/home/ada/secret")]);
    folders.add_to_folder_name_ignore_list(vec![t("target")]);
    let before = folders.clone();
    let secret = NewFolder::new(t("/home/ada/secret"), RecursivityLevel::Infinite, 1);
    assert_eq!(folders.register_folder(secret, t("secret"), Some(1)), Err(FolderError::Ignored));
    let target = NewFolder::new(t("/home/ada/target"), RecursivityLevel::No, 1);
    assert_eq!(folders.register_folder(target, t("target/"), Some(1)), Err(FolderError::Ignored));
    assert!(folders == before);
    let known_but_ignored = NewFolder::new(t("/home"), RecursivityLevel::No, 1);
    folders.add_to_ignore_list(vec![t("/home")]);
    assert_eq!(
        folders.register_folder(known_but_ignored, t("home"), None),
        Err(FolderError::Ignored)
    );
}

#[test]
fn a_known_folder_keeps_its_id_and_the_further_level() {
    let mut folders = two_folders();
    let before = folders.clone();
    let deeper = NewFolder::new(t("/home/ada"), RecursivityLevel::Fixed(4), 9);
    assert_eq!(
        folders.register_folder(deeper, t("other name"), Some(0)),
        Ok((1, RecursivityLevel::Fixed(4)))
    );
    let shallower = NewFolder::new(t("/home/ada"), RecursivityLevel::No, 9);
    assert_eq!(
        folders.register_folder(shallower, t("ada"), Some(0)),
        Ok((1, RecursivityLevel::Fixed(1)))
    );
    let endless = NewFolder::new(t("/home"), RecursivityLevel::Infinite, 9);
    assert_eq!(
        folders.register_folder(endless, t("home"), Some(5)),
        Ok((0, RecursivityLevel::Infinite))
    );
    assert!(folders == before);
}

#[test]
fn a_known_folder_under_another_parent_is_refused() {
    let mut folders = two_folders();
    let before = folders.clone();
    let moved = NewFolder::new(t("/home/ada"), RecursivityLevel::Infinite, 1);
    assert_eq!(folders.register_folder(moved, t("ada"), Some(1)), Err(FolderError::ParentMismatch));
    let orphan = NewFolder::new(t("/home/ada"), RecursivityLevel::Infinite, 1);
    assert_eq!(folders.register_folder(orphan, t("ada"), None), Err(FolderError::ParentMismatch));
    assert!(folders == before);
}

#[test]
fn a_scanned_folder_joins_its_parent() {
    let mut folders = two_folders();
    assert_eq!(folders.complete_folder(1, Some(0)), 1);
    assert_eq!(folders.get_folder_by_id(0).children, vec![1]);
    assert_eq!(folders.get_folder_by_id(1).children, Vec::<usize>::new());
    assert_eq!(folders.complete_folder(0, None), 0);
    assert_eq!(folders.get_folder_by_id(0).children, vec![1]);
    assert_eq!(folders.complete_folder(1, Some(0)), 1);
    assert_eq!(folders.get_folder_by_id(0).children, vec![1, 1]);
    assert_eq!(folders.number_of_folders(), 2);
    assert!(folders.is_dense());
}

#[test]
fn starting_points_are_a_set() {
    let mut folders = two_folders();
    folders.add_to_extension_ignore_list(vec![t("o")]);
    folders.mark_starting_point(1);
    folders.mark_starting_point(0);
    folders.mark_starting_point(1);
    assert_eq!(folders.get_starting_points(), &HashSet::from([0, 1]));
    assert_eq!(folders.get_ignored_extensions(), &vec![t("o")]);
    assert_eq!(folders.number_of_folders(), 2);
}

#[test]
fn changes_of_folders_keep_the_scan_rules() {
    let mut folders = two_folders();
    folders.add_to_ignore_list(vec![t("/proc")]);
    folders.add_to_folder_name_ignore_list(vec![t("target")]);
    folders.add_to_extension_ignore_list(vec![t("o")]);
    folders.mark_starting_point(0);
    let mut first = ProxFolder::new_empty(0, t("/"), t(""), None, RecursivityLevel::No, 0);
    first.id = 0;
    folders.insert_folder(first);
    let again = folders.get_folder_by_id(1).clone();
    folders.update_folder(again);
    folders.add_folder_raw(ProxFolder::new_empty(0, t("/z"), t("z"), None, RecursivityLevel::No, 0));
    assert_eq!(folders.number_of_folders(), 4);
    assert_eq!(folders.get_folder_by_id(1).absolute_path, "/home");
    assert_eq!(folders.get_ignored_folders(), &vec![t("/proc")]);
    assert_eq!(folders.get_ignored_folder_names(), &vec![t("target")]);
    assert_eq!(folders.get_ignored_extensions(), &vec![t("o")]);
    assert_eq!(folders.get_starting_points(), &HashSet::from([0]));
}

#[test]
fn an_inserted_folder_moves_the_starting_points_behind_it() {
    let mut folders = two_folders();
    folders.mark_starting_point(0);
    folders.mark_starting_point(1);
    folders.add_to_ignore_list(vec![t("/proc")]);
    folders.shift_references(ItemKind::Folder, 1);
    assert_eq!(folders.get_starting_points(), &HashSet::from([0, 2]));
    assert_eq!(folders.get_folder_by_id(1).parent, Some(0));
    folders.shift_references(ItemKind::Folder, 0);
    assert_eq!(folders.get_starting_points(), &HashSet::from([1, 3]));
    assert_eq!(folders.get_folder_by_id(1).parent, Some(1));
    folders.shift_references(ItemKind::File, 0);
    folders.shift_references(ItemKind::Tag, 0);
    assert_eq!(folders.get_starting_points(), &HashSet::from([1, 3]));
    assert_eq!(folders.get_ignored_folders(), &vec![t("/proc")]);
}

#[test]
fn the_database_moves_starting_points_with_an_inserted_folder() {
    let mut database = ProxDatabase::new_just_data(t("ada"), t("hash"));
    database.folders = two_folders();
    database.folders.mark_starting_point(1);
    let mut root = ProxFolder::new_empty(0, t("/"), t(""), None, RecursivityLevel::No, 0);
    root.id = 0;
    let item = DatabaseItem::Folder(root);
    assert!(database.is_well_formed());
    assert!(database.can_insert(&item));
    database.insert_directly(item);
    assert!(database.is_well_formed());
    assert_eq!(database.folders.number_of_folders(), 3);
    assert_eq!(database.folders.get_folder_by_id(0).absolute_path, "/");
    assert_eq!(database.folders.get_folder_by_id(2).absolute_path, "/home/ada");
    assert_eq!(database.folders.get_folder_by_id(2).parent, Some(1));
    assert_eq!(database.folders.get_starting_points(), &HashSet::from([2]));
}
