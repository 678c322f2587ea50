use path_trail::path_container::dir_path::DirPath;
use path_trail::path_container::directory_container::{
    get_truncation_setting, select_low_level_truncation_option, AutomaticTruncationOptions,
    DirectoryContainer, DirectoryEntry, LowLevelTruncationOptions,
};
use path_trail::path_container::directory_item::{ItemState, ItemType};
use path_trail::path_container::PathContainer;

fn dir_path(components: &[&str]) -> DirPath {
    DirPath {
        components: components.iter().map(|c| c.to_string()).collect(),
    }
}

fn entry(name: &str, item_type: ItemType) -> DirectoryEntry {
    DirectoryEntry {
        file_name: name.to_string(),
        item_type,
    }
}

fn docs_box() -> DirectoryContainer {
    DirectoryContainer::new(
        dir_path(&["docs"]),
        vec![
            entry("be", ItemType::File),
            entry("alpha", ItemType::File),
        ],
        &None,
        None,
    )
}

fn three_deep_chain(terminal: (usize, usize)) -> PathContainer {
    let listings = vec![
        vec![entry("a", ItemType::Directory), entry("zeta", ItemType::File)],
        vec![entry("b", ItemType::Directory)],
        vec![entry("c", ItemType::Directory), entry("note", ItemType::File)],
        vec![entry("one", ItemType::File), entry("two", ItemType::File)],
    ];
    PathContainer::new(dir_path(&["a", "b", "c"]), listings, terminal)
}

#[test]
fn box_total_width_is_minimum_width_plus_four() {
    let container = docs_box();
    assert_eq!(container.minimum_width, 5);
    assert_eq!(container.get_total_width_of_directory_container(), 9);
}

#[test]
fn box_total_height_is_item_count_plus_four() {
    let container = docs_box();
    assert_eq!(container.get_number_of_directory_items(), 2);
    assert_eq!(container.get_total_height_of_directory_container(), 6);
}

#[test]
fn minimum_width_covers_title_and_every_rendered_name() {
    let container = DirectoryContainer::new(
        dir_path(&["a-rather-long-title"]),
        vec![entry("x", ItemType::File), entry("yy", ItemType::File)],
        &None,
        None,
    );
    assert_eq!(container.minimum_width, "a-rather-long-title".len());
    for length in container.get_lengths_of_file_names() {
        assert!(length <= container.minimum_width);
    }
}

#[test]
fn items_are_sorted_ascending_by_raw_name() {
    let container = docs_box();
    let names: Vec<String> = container
        .directory_item_vec
        .iter()
        .map(|item| item.file_name.clone())
        .collect();
    assert_eq!(names, vec!["alpha".to_string(), "be".to_string()]);
}

#[test]
fn rendered_rows_read_as_bordered_box() {
    let container = docs_box();
    assert_eq!(container.print_directory_container_by_row(0), " ------- ");
    assert_eq!(container.print_directory_container_by_row(1), "| docs  |");
    assert_eq!(container.print_directory_container_by_row(2), "|=======|");
    assert_eq!(container.print_directory_container_by_row(3), "| alpha |");
    assert_eq!(container.print_directory_container_by_row(4), "| be    |");
    assert_eq!(container.print_directory_container_by_row(5), " ------- ");
    assert_eq!(container.print_directory_container_by_row(9), " ------- ");
}

#[test]
fn constant_truncation_cuts_rendered_names() {
    let container = DirectoryContainer::new(
        dir_path(&["x"]),
        vec![entry("abcdef", ItemType::File)],
        &None,
        Some(3),
    );
    assert_eq!(container.minimum_width, 3);
    assert_eq!(container.print_directory_container_by_row(3), "| abc |");
    // The raw name survives untruncated for sorting and statistics.
    assert_eq!(container.get_lengths_of_file_names(), vec![6]);
}

#[test]
fn marked_child_becomes_directory_in_path() {
    let container = DirectoryContainer::new(
        dir_path(&["a"]),
        vec![entry("b", ItemType::Directory), entry("c", ItemType::File)],
        &Some(dir_path(&["a", "b"])),
        None,
    );
    let states: Vec<ItemState> = container
        .directory_item_vec
        .iter()
        .map(|item| item.item_state)
        .collect();
    assert_eq!(states, vec![ItemState::DirectoryInPath, ItemState::Normal]);
}

#[test]
fn statistical_truncation_settles_on_longest_unremarkable_length() {
    let lengths = vec![10, 12, 11, 15, 11, 14, 13, 17, 12, 22, 14, 11];
    let setting = get_truncation_setting(&LowLevelTruncationOptions::ByFileNameLength, &lengths);
    assert_eq!(setting, Some(17));
}

#[test]
fn statistical_truncation_without_outliers_leaves_names_alone() {
    let lengths = vec![10, 11, 12, 13];
    let setting = get_truncation_setting(&LowLevelTruncationOptions::ByFileNameLength, &lengths);
    assert_eq!(setting, None);
}

#[test]
fn truncation_settings_follow_the_primitive_strategy() {
    let lengths = vec![4, 5, 6];
    assert_eq!(
        get_truncation_setting(&LowLevelTruncationOptions::NoTruncation, &lengths),
        None
    );
    assert_eq!(
        get_truncation_setting(&LowLevelTruncationOptions::Constant(3), &lengths),
        Some(3)
    );
}

#[test]
fn automatic_modes_drive_their_primitive_strategies() {
    let statistical =
        select_low_level_truncation_option(&AutomaticTruncationOptions::Statistical, 4, 100, 1);
    assert!(matches!(
        statistical,
        LowLevelTruncationOptions::ByFileNameLength
    ));
    let one_row = select_low_level_truncation_option(
        &AutomaticTruncationOptions::FitAllDirectoryContainersInOneRow,
        4,
        100,
        1,
    );
    assert!(matches!(one_row, LowLevelTruncationOptions::Constant(20)));
}

#[test]
fn chain_length_is_ancestor_count_plus_one() {
    let chain = three_deep_chain((100, 30));
    assert_eq!(chain.get_number_of_directory_containers(), 4);
    // The first box is the filesystem root: a path with no parent.
    assert!(chain.get_directory_container(0).path_to_directory.components.is_empty());
    assert_eq!(
        chain.get_directory_container(3).path_to_directory.components,
        vec!["a".to_string(), "b".to_string(), "c".to_string()]
    );
}

#[test]
fn exactly_one_selected_item_and_one_mark_per_ancestor() {
    let chain = three_deep_chain((100, 30));
    let mut selected_count = 0;
    for i in 0..chain.get_number_of_directory_containers() {
        let container = chain.get_directory_container(i);
        let in_path: Vec<&str> = container
            .directory_item_vec
            .iter()
            .filter(|item| item.item_state == ItemState::DirectoryInPath)
            .map(|item| item.file_name.as_str())
            .collect();
        selected_count += container
            .directory_item_vec
            .iter()
            .filter(|item| item.item_state == ItemState::Selected)
            .count();
        match i {
            0 => assert_eq!(in_path, vec!["a"]),
            1 => assert_eq!(in_path, vec!["b"]),
            2 => assert_eq!(in_path, vec!["c"]),
            _ => assert!(in_path.is_empty()),
        }
    }
    assert_eq!(selected_count, 1);
    let leaf = chain.get_directory_container(3);
    assert_eq!(leaf.directory_item_vec[0].file_name, "one");
    assert_eq!(leaf.directory_item_vec[0].item_state, ItemState::Selected);
}

#[test]
fn wide_terminal_renders_the_whole_chain_in_one_row() {
    let chain = three_deep_chain((100, 30));
    let first_row = chain.update_start_and_end_iteration_tuple((0, 0));
    assert_eq!(first_row, (0, 4));
    let after = chain.update_start_and_end_iteration_tuple(first_row);
    assert_eq!(after, (4, 4));
    // One row of the tallest box's height plus one spacing line.
    assert_eq!(chain.get_height_of_tallest_directory_container_in_range((0, 4)), 6);
    let lines = chain.print_path();
    assert_eq!(lines.len(), 7);
    // Every box is 9, 5, 8 and 7 columns wide, with one space between.
    assert_eq!(lines[0].len(), 8 + 1 + 5 + 1 + 8 + 1 + 7);
}

#[test]
fn narrow_terminal_wraps_every_box_onto_its_own_row() {
    let chain = three_deep_chain((10, 30));
    assert_eq!(chain.update_start_and_end_iteration_tuple((0, 0)), (0, 1));
    assert_eq!(chain.update_start_and_end_iteration_tuple((0, 1)), (1, 2));
    assert_eq!(chain.update_start_and_end_iteration_tuple((1, 2)), (2, 3));
    assert_eq!(chain.update_start_and_end_iteration_tuple((2, 3)), (3, 4));
}

#[test]
fn oversized_box_still_gets_a_row_of_its_own() {
    let chain = three_deep_chain((5, 30));
    // No box fits a five-column terminal; forward progress admits one anyway.
    assert_eq!(chain.update_start_and_end_iteration_tuple((0, 0)), (0, 1));
    let lines = chain.print_path();
    // Four rows: 6 + 5 + 6 + 6 lines of boxes plus one spacing line each.
    assert_eq!(lines.len(), 6 + 1 + 5 + 1 + 6 + 1 + 6 + 1);
}

#[test]
fn parent_walk_stops_at_the_root() {
    let path = dir_path(&["a", "b"]);
    let up = path.parent().unwrap();
    assert_eq!(up.components, vec!["a".to_string()]);
    let root = up.parent().unwrap();
    assert!(root.components.is_empty());
    assert!(root.parent().is_none());
    assert_eq!(root.display_name(), "/");
}

#[test]
fn get_selected_directory_option_reads_the_front_box() {
    let empty: Vec<DirectoryContainer> = Vec::new();
    assert!(PathContainer::get_selected_directory_option(&empty).is_none());
    let containers = vec![docs_box()];
    let selected = PathContainer::get_selected_directory_option(&containers).unwrap();
    assert_eq!(selected.components, vec!["docs".to_string()]);
}
