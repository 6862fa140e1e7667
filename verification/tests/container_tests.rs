use termifind::path_container::{DirectoryContainer, DirectoryItem, ItemState, ItemType};
use termifind::settings::{
    get_default_settings, DirectoryContainerSettings, DirectoryItemSettings, TruncationOptions,
};
use termifind::utils::string::{styled_line_text, Color};

fn item_settings() -> DirectoryItemSettings {
    DirectoryItemSettings {
        item_type_indicator_directory: String::from("(D)"),
        item_type_indicator_file: String::from("(F)"),
        item_type_indicator_symlink: String::from("(S)"),
        item_type_indicator_unknown: String::from("(U)"),
    }
}

fn container_settings(truncation_options: TruncationOptions) -> DirectoryContainerSettings {
    DirectoryContainerSettings {
        sort_directory_item_by_item_type_indicator: false,
        should_display_hidden_files: false,
        truncation_options,
        truncated_text_indicator: String::from("..."),
        horizontal_border_symbol: '-',
        vertical_border_symbol: '|',
        content_divider_symbol: '=',
        padding_symbol_to_center_directory_names: ' ',
        directory_item_settings: item_settings(),
    }
}

fn file(name: &str, path: &str) -> DirectoryItem {
    DirectoryItem::new(
        String::from(name),
        String::from(path),
        ItemType::File,
        item_settings(),
    )
}

fn dir(name: &str, path: &str) -> DirectoryItem {
    DirectoryItem::new(
        String::from(name),
        String::from(path),
        ItemType::Directory,
        item_settings(),
    )
}

fn docs_container(truncation_options: TruncationOptions) -> DirectoryContainer {
    DirectoryContainer::new(
        String::from("/docs"),
        String::from("docs"),
        vec![file("b", "/docs/b"), file("a.txt", "/docs/a.txt")],
        &None,
        container_settings(truncation_options),
    )
}

#[test]
fn item_display_name_with_and_without_indicator() {
    let item = file("notes.txt", "/d/notes.txt");
    assert_eq!(item.get_file_name(false, &None), "notes.txt");
    assert_eq!(item.get_file_name(true, &None), "(F) notes.txt");
    assert_eq!(item.get_file_name_length(true, &None), 13);
}

#[test]
fn item_colors_follow_state_then_type() {
    let mut item = file("a", "/a");
    assert_eq!(item.get_file_name_color(), Color::Magenta);
    item.item_state = ItemState::DirectoryInPath;
    assert_eq!(item.get_file_name_color(), Color::Blue);
    item.item_state = ItemState::Selected;
    assert_eq!(item.get_file_name_color(), Color::Green);
    let mut other = dir("b", "/b");
    assert_eq!(other.get_file_name_color(), Color::White);
    other.item_type = ItemType::Symlink;
    assert_eq!(other.get_file_name_color(), Color::Red);
    other.item_type = ItemType::Unknown;
    assert_eq!(other.get_file_name_color(), Color::Cyan);
}

#[test]
fn item_styled_name_carries_text_and_color() {
    let mut item = file("a", "/a");
    item.item_state = ItemState::Selected;
    let styled = item.print_styled_file_name(true, &None);
    assert_eq!(styled.text, "(F) a");
    assert_eq!(styled.color, Some(Color::Green));
}

#[test]
fn item_hidden_files_start_with_a_dot() {
    assert!(file(".config", "/d/.config").is_hidden_file());
    assert!(!file("config", "/d/config").is_hidden_file());
    assert!(!file("", "/d/x").is_hidden_file());
}

#[test]
fn container_sorts_entries_by_display_name() {
    let container = docs_container(TruncationOptions::NoTruncation);
    assert_eq!(container.get_number_of_directory_items(), 2);
    assert_eq!(container.directory_item_vec[0].file_name, "a.txt");
    assert_eq!(container.directory_item_vec[1].file_name, "b");
}

#[test]
fn container_sorts_by_kind_tag_first_when_configured() {
    let mut settings = container_settings(TruncationOptions::NoTruncation);
    settings.sort_directory_item_by_item_type_indicator = true;
    let container = DirectoryContainer::new(
        String::from("/d"),
        String::from("d"),
        vec![file("aaa", "/d/aaa"), dir("zzz", "/d/zzz")],
        &None,
        settings,
    );
    // "(D) zzz" sorts before "(F) aaa".
    assert_eq!(container.directory_item_vec[0].file_name, "zzz");
    assert_eq!(container.directory_item_vec[1].file_name, "aaa");
}

#[test]
fn container_filters_hidden_entries_by_default() {
    let container = DirectoryContainer::new(
        String::from("/d"),
        String::from("d"),
        vec![file(".hidden", "/d/.hidden"), file("shown", "/d/shown")],
        &None,
        container_settings(TruncationOptions::NoTruncation),
    );
    assert_eq!(container.get_number_of_directory_items(), 1);
    assert_eq!(container.directory_item_vec[0].file_name, "shown");
}

#[test]
fn container_keeps_hidden_entries_when_configured() {
    let mut settings = container_settings(TruncationOptions::NoTruncation);
    settings.should_display_hidden_files = true;
    let container = DirectoryContainer::new(
        String::from("/d"),
        String::from("d"),
        vec![file(".hidden", "/d/.hidden"), file("shown", "/d/shown")],
        &None,
        settings,
    );
    assert_eq!(container.get_number_of_directory_items(), 2);
}

#[test]
fn container_marks_the_selected_child_on_path() {
    let container = DirectoryContainer::new(
        String::from("/a"),
        String::from("a"),
        vec![dir("b", "/a/b"), file("z", "/a/z")],
        &Some(String::from("/a/b")),
        container_settings(TruncationOptions::NoTruncation),
    );
    let on_path: Vec<&DirectoryItem> = container
        .directory_item_vec
        .iter()
        .filter(|item| matches!(item.item_state, ItemState::DirectoryInPath))
        .collect();
    assert_eq!(on_path.len(), 1);
    assert_eq!(on_path[0].file_name, "b");
}

#[test]
fn container_width_and_height() {
    let container = docs_container(TruncationOptions::NoTruncation);
    // widest display string is "(F) a.txt" (9), directory name "docs" (4):
    // interior 9, total width 13; 2 entries + 4 frame rows.
    assert_eq!(container.get_total_width_of_directory_container(), 13);
    assert_eq!(container.get_total_height_of_directory_container(), 6);
    assert_eq!(container.get_directory_name(), "docs");
}

#[test]
fn container_renders_every_row() {
    let container = docs_container(TruncationOptions::NoTruncation);
    let rows: Vec<String> = (0..6)
        .map(|row| styled_line_text(&container.print_directory_container_by_row(row)))
        .collect();
    assert_eq!(rows[0], " ----------- ");
    assert_eq!(rows[1], "|   docs    |");
    assert_eq!(rows[2], "|===========|");
    assert_eq!(rows[3], "| (F) a.txt |");
    assert_eq!(rows[4], "| (F) b     |");
    assert_eq!(rows[5], " ----------- ");
}

#[test]
fn container_item_row_is_styled_in_the_item_color() {
    let container = docs_container(TruncationOptions::NoTruncation);
    let row = container.print_directory_container_by_row(3);
    assert_eq!(row.len(), 3);
    assert_eq!(row[0].color, None);
    assert_eq!(row[1].color, Some(Color::Magenta));
    assert_eq!(row[1].text, "(F) a.txt");
    assert_eq!(row[2].color, None);
}

#[test]
fn truncation_option_none_leaves_names_whole() {
    let container = docs_container(TruncationOptions::NoTruncation);
    assert!(container.name_truncation_settings_option.is_none());
}

#[test]
fn truncation_option_constant_is_taken_verbatim() {
    let container = docs_container(TruncationOptions::Constant {
        constant: 2,
        should_include_truncated_text_indicator_in_length: false,
    });
    let settings = container.name_truncation_settings_option.as_ref().unwrap();
    assert_eq!(settings.name_length_after_truncation, 2);
    assert!(!settings.should_include_truncated_text_indicator_in_length);
    assert_eq!(settings.truncated_text_indicator, "...");
    // names "a.txt" and "b" cut to 2 characters with the indicator appended:
    assert_eq!(
        container.directory_item_vec[0].get_file_name(
            false,
            &container.name_truncation_settings_option
        ),
        "a...."
    );
}

#[test]
fn truncation_option_level_picks_the_nth_longest_distinct_length() {
    // untruncated name lengths: 2 ("aa"), 4 ("bbbb"), 6 ("cccccc").
    let items = vec![
        file("aa", "/d/aa"),
        file("bbbb", "/d/bbbb"),
        file("cccccc", "/d/cccccc"),
    ];
    let container = DirectoryContainer::new(
        String::from("/d"),
        String::from("d"),
        items,
        &None,
        container_settings(TruncationOptions::Level {
            level: 1,
            should_include_truncated_text_indicator_in_length: false,
        }),
    );
    let settings = container.name_truncation_settings_option.unwrap();
    assert_eq!(settings.name_length_after_truncation, 4);
}

#[test]
fn truncation_option_level_zero_is_a_no_op() {
    let container = docs_container(TruncationOptions::Level {
        level: 0,
        should_include_truncated_text_indicator_in_length: false,
    });
    assert!(container.name_truncation_settings_option.is_none());
}

#[test]
fn truncation_option_level_clamps_to_the_shortest_length() {
    let items = vec![file("aa", "/d/aa"), file("bbbb", "/d/bbbb")];
    let container = DirectoryContainer::new(
        String::from("/d"),
        String::from("d"),
        items,
        &None,
        container_settings(TruncationOptions::Level {
            level: 9,
            should_include_truncated_text_indicator_in_length: false,
        }),
    );
    let settings = container.name_truncation_settings_option.unwrap();
    assert_eq!(settings.name_length_after_truncation, 2);
}

#[test]
fn truncation_option_average_takes_the_floored_mean() {
    // lengths 2 and 3: mean 2.5, floored to 2.
    let items = vec![file("aa", "/d/aa"), file("bbb", "/d/bbb")];
    let container = DirectoryContainer::new(
        String::from("/d"),
        String::from("d"),
        items,
        &None,
        container_settings(TruncationOptions::AverageFileNameLength {
            should_include_truncated_text_indicator_in_length: false,
        }),
    );
    let settings = container.name_truncation_settings_option.unwrap();
    assert_eq!(settings.name_length_after_truncation, 2);
}

#[test]
fn truncation_option_outliers_scales_with_the_outlier_count() {
    // name lengths 10..22 with one statistical outlier (22): one high
    // outlier, so the target is the second-longest distinct length, 17.
    let names = [
        "aaaaaaaaaa",
        "bbbbbbbbbbbb",
        "ccccccccccc",
        "ddddddddddddddd",
        "eeeeeeeeeee",
        "ffffffffffffff",
        "ggggggggggggg",
        "hhhhhhhhhhhhhhhhh",
        "iiiiiiiiiiii",
        "jjjjjjjjjjjjjjjjjjjjjj",
        "kkkkkkkkkkkkkk",
        "lllllllllll",
    ];
    let items: Vec<DirectoryItem> = names
        .iter()
        .map(|name| file(name, &format!("/d/{}", name)))
        .collect();
    let container = DirectoryContainer::new(
        String::from("/d"),
        String::from("d"),
        items,
        &None,
        container_settings(TruncationOptions::Outliers {
            should_include_truncated_text_indicator_in_length: false,
        }),
    );
    let settings = container.name_truncation_settings_option.unwrap();
    assert_eq!(settings.name_length_after_truncation, 17);
}

#[test]
fn truncation_option_outliers_on_an_empty_panel_truncates_nothing() {
    let container = DirectoryContainer::new(
        String::from("/d"),
        String::from("d"),
        Vec::new(),
        &None,
        container_settings(TruncationOptions::Outliers {
            should_include_truncated_text_indicator_in_length: true,
        }),
    );
    assert!(container.name_truncation_settings_option.is_none());
}

#[test]
fn default_settings_use_outlier_truncation() {
    let settings = get_default_settings();
    let path = settings.path_container_settings;
    assert_eq!(path.spaces_between_directory_containers, 1);
    assert_eq!(path.spaces_between_directory_container_rows, 1);
    assert_eq!(path.filler_char, ' ');
    assert!(path.number_of_directory_containers_to_print_option.is_none());
    let container = path.directory_container_settings;
    assert!(!container.should_display_hidden_files);
    assert!(!container.sort_directory_item_by_item_type_indicator);
    assert!(matches!(
        container.truncation_options,
        TruncationOptions::Outliers {
            should_include_truncated_text_indicator_in_length: true
        }
    ));
    assert_eq!(container.truncated_text_indicator, "...");
    assert_eq!(container.directory_item_settings.item_type_indicator_directory, "(D)");
}

#[test]
fn applying_truncation_recomputes_the_width() {
    let mut container = docs_container(TruncationOptions::NoTruncation);
    assert_eq!(container.get_total_width_of_directory_container(), 13);
    container.apply_truncation_settings_to_directory_container(TruncationOptions::Constant {
        constant: 1,
        should_include_truncated_text_indicator_in_length: true,
    });
    // every name is cut to one character ("." from the indicator), so the
    // widest display string is "(F) ." (5); the name "docs" (4) is narrower.
    assert_eq!(container.get_total_width_of_directory_container(), 9);
}
