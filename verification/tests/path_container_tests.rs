use termifind::path_container::{DirectoryItem, DirectoryLevel, ItemState, ItemType, PathContainer};
use termifind::settings::{
    get_default_settings, DirectoryItemSettings, PathContainerSettings, TruncationOptions,
};
use termifind::utils::string::styled_line_text;

fn item_settings() -> DirectoryItemSettings {
    DirectoryItemSettings {
        item_type_indicator_directory: String::from("(D)"),
        item_type_indicator_file: String::from("(F)"),
        item_type_indicator_symlink: String::from("(S)"),
        item_type_indicator_unknown: String::from("(U)"),
    }
}

fn plain_settings() -> PathContainerSettings {
    let mut settings = get_default_settings().path_container_settings;
    settings.directory_container_settings.truncation_options = TruncationOptions::NoTruncation;
    settings
}

fn file(name: &str, path: &str) -> DirectoryItem {
    DirectoryItem::new(
        String::from(name),
        String::from(path),
        ItemType::File,
        item_settings(),
    )
}

fn dir(name: &str, path: &str) -> DirectoryItem {
    DirectoryItem::new(
        String::from(name),
        String::from(path),
        ItemType::Directory,
        item_settings(),
    )
}

fn level(path: &str, name: &str, items: Vec<DirectoryItem>) -> DirectoryLevel {
    DirectoryLevel {
        path: String::from(path),
        directory_name: String::from(name),
        directory_item_vec: items,
    }
}

/// A chain for /a/b: the levels arrive deepest first, as a caller walks
/// upward from the working directory.
fn three_level_chain(terminal: (usize, usize)) -> PathContainer {
    let levels = vec![
        level("/a/b", "b", vec![file("y", "/a/b/y"), file("x", "/a/b/x")]),
        level("/a", "a", vec![dir("b", "/a/b"), file("z", "/a/z")]),
        level("/", "/", vec![dir("a", "/a"), dir("etc", "/etc")]),
    ];
    PathContainer::new(String::from("/a/b"), levels, terminal, plain_settings())
}

#[test]
fn chain_is_root_first() {
    let chain = three_level_chain((80, 24));
    assert_eq!(chain.directory_container_vec.len(), 3);
    assert_eq!(chain.directory_container_vec[0].get_directory_name(), "/");
    assert_eq!(chain.directory_container_vec[1].get_directory_name(), "a");
    assert_eq!(chain.directory_container_vec[2].get_directory_name(), "b");
}

#[test]
fn exactly_one_entry_is_selected_across_the_chain() {
    let chain = three_level_chain((80, 24));
    let mut selected_count: usize = 0;
    for container in &chain.directory_container_vec {
        for item in &container.directory_item_vec {
            if matches!(item.item_state, ItemState::Selected) {
                selected_count += 1;
            }
        }
    }
    assert_eq!(selected_count, 1);
    // ... and it is the first entry, in sorted order, of the deepest panel,
    // which holds no on-path entry of its own.
    let deepest = &chain.directory_container_vec[2];
    assert_eq!(deepest.directory_item_vec[0].file_name, "x");
    assert!(matches!(
        deepest.directory_item_vec[0].item_state,
        ItemState::Selected
    ));
    for item in &deepest.directory_item_vec {
        assert!(!matches!(item.item_state, ItemState::DirectoryInPath));
    }
}

#[test]
fn each_parent_panel_marks_exactly_its_child_on_path() {
    let chain = three_level_chain((80, 24));
    for j in 0..2 {
        let parent = &chain.directory_container_vec[j];
        let child_path = &chain.directory_container_vec[j + 1].path_to_directory;
        let on_path: Vec<&DirectoryItem> = parent
            .directory_item_vec
            .iter()
            .filter(|item| matches!(item.item_state, ItemState::DirectoryInPath))
            .collect();
        assert_eq!(on_path.len(), 1);
        assert_eq!(&on_path[0].path, child_path);
    }
}

/// Panels with empty interiors whose directory names force the wanted
/// total widths: a name of length w - 4 gives a panel of width w.
fn chain_with_widths(widths: &[usize], terminal: (usize, usize)) -> PathContainer {
    let names: Vec<String> = widths
        .iter()
        .enumerate()
        .map(|(i, width)| {
            let letter = (b'a' + i as u8) as char;
            std::iter::repeat(letter).take(width - 4).collect()
        })
        .collect();
    // deepest level first; the chain reverses them into root-first order,
    // so hand the widths in reverse.
    let levels: Vec<DirectoryLevel> = names
        .iter()
        .rev()
        .map(|name| level(&format!("/{}", name), name, Vec::new()))
        .collect();
    PathContainer::new(String::from("/x"), levels, terminal, plain_settings())
}

#[test]
fn packing_groups_panels_without_splitting_and_covers_them_in_order() {
    // widths 10, 12, 40; terminal 54: 10 + 1 + 12 = 23 fits, adding 40 does
    // not (23 + 1 + 40 = 64), so the 40-wide panel starts the second row.
    let chain = chain_with_widths(&[10, 12, 40], (54, 24));
    let rows = chain.pack_all_rows();
    assert_eq!(rows, vec![(0, 2), (2, 3)]);
}

#[test]
fn packing_scenario_with_a_wide_panel_that_still_fits() {
    // P7's layout with a terminal the 40-wide panel still fits in: widths
    // 10 and 12 share the first row, the 40-wide panel stands alone.
    let chain = chain_with_widths(&[10, 12, 40], (41, 24));
    let rows = chain.pack_all_rows();
    assert_eq!(rows, vec![(0, 2), (2, 3)]);
    assert!(chain.print_path().is_ok());
}

#[test]
fn a_panel_as_wide_as_the_terminal_is_fatal() {
    // widths 10, 12, 40 against a terminal exactly 30 wide: the third
    // panel triggers the fatal condition and is reported by name.
    let chain = chain_with_widths(&[10, 12, 40], (30, 24));
    let result = chain.print_path();
    assert_eq!(result.unwrap_err(), "c".repeat(36));
}

#[test]
fn print_path_lines_fit_the_terminal() {
    let chain = chain_with_widths(&[10, 12, 40], (41, 24));
    let lines = chain.print_path().expect("chain should render");
    for line in &lines {
        assert!(styled_line_text(line).chars().count() <= 41);
    }
}

#[test]
fn print_path_renders_a_single_panel() {
    let levels = vec![level("/d", "d", vec![file("a", "/d/a")])];
    let chain = PathContainer::new(String::from("/d"), levels, (80, 24), plain_settings());
    let lines = chain.print_path().expect("chain should render");
    let texts: Vec<String> = lines.iter().map(styled_line_text).collect();
    let expected: Vec<String> = vec![
        " ------- ",
        "|   d   |",
        "|=======|",
        "| (F) a |",
        " ------- ",
    ]
    .into_iter()
    .map(String::from)
    .collect();
    assert_eq!(texts, expected);
}

#[test]
fn print_path_separates_packed_rows_with_spacing_lines() {
    // Two empty panels of width 10 that cannot share a 15-column terminal:
    // two rows of four lines each, separated by one full-width spacing line.
    let chain = chain_with_widths(&[10, 10], (15, 24));
    let lines = chain.print_path().expect("chain should render");
    let texts: Vec<String> = lines.iter().map(styled_line_text).collect();
    assert_eq!(texts.len(), 9);
    assert_eq!(texts[4], " ".repeat(15));
}

#[test]
fn tail_truncation_shows_only_the_deepest_panels() {
    let mut settings = plain_settings();
    settings.number_of_directory_containers_to_print_option = Some(1);
    let levels = vec![
        level("/a/b", "b", Vec::new()),
        level("/a", "a", Vec::new()),
        level("/", "/", Vec::new()),
    ];
    let chain = PathContainer::new(String::from("/a/b"), levels, (80, 24), settings);
    let rows = chain.pack_all_rows();
    assert_eq!(rows, vec![(2, 3)]);
    // ... and the printed lines are exactly the deepest panel's rows.
    let lines = chain.print_path().expect("chain should render");
    let texts: Vec<String> = lines.iter().map(styled_line_text).collect();
    let expected: Vec<String> = vec![" --- ", "| b |", "|===|", " --- "]
        .into_iter()
        .map(String::from)
        .collect();
    assert_eq!(texts, expected);
}
