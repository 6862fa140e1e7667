//! The configuration shape: which entries are shown, how panels are drawn,
//! how names are truncated and how panels are spaced, together with the
//! fully specified default configuration that callers fall back to when no
//! usable configuration is available.

use vstd::prelude::*;
use vstd::string::StringExecFns;

verus! {

/// How a panel chooses the target length its entry names are cut to.
#[derive(Clone, Copy, Debug, PartialEq, Eq, Structural)]
pub enum TruncationOptions {
    /// No truncation at all.
    NoTruncation,
    /// A fixed target, taken verbatim.
    Constant { constant: usize, should_include_truncated_text_indicator_in_length: bool },
    /// The target is the `level`-th longest distinct name length; zero means
    /// the longest, which truncates nothing.
    Level { level: usize, should_include_truncated_text_indicator_in_length: bool },
    /// The target is the mean name length, rounded down.
    AverageFileNameLength { should_include_truncated_text_indicator_in_length: bool },
    /// The target comes from the count of statistically over-long names.
    Outliers { should_include_truncated_text_indicator_in_length: bool },
    /// Reserved: choose the largest constant that lets all sibling panels
    /// share one terminal row. Not implemented; truncates nothing.
    HorizontalFit,
}

/// The short tags shown before entry names, one per entry kind.
pub struct DirectoryItemSettings {
    pub item_type_indicator_directory: String,
    pub item_type_indicator_file: String,
    pub item_type_indicator_symlink: String,
    pub item_type_indicator_unknown: String,
}

/// How one panel is built and drawn.
pub struct DirectoryContainerSettings {
    pub sort_directory_item_by_item_type_indicator: bool,
    pub should_display_hidden_files: bool,
    pub truncation_options: TruncationOptions,
    pub truncated_text_indicator: String,
    pub horizontal_border_symbol: char,
    pub vertical_border_symbol: char,
    pub content_divider_symbol: char,
    pub padding_symbol_to_center_directory_names: char,
    pub directory_item_settings: DirectoryItemSettings,
}

/// How the whole chain of panels is laid out.
pub struct PathContainerSettings {
    pub number_of_directory_containers_to_print_option: Option<usize>,
    pub spaces_between_directory_containers: usize,
    pub char_between_directory_containers: char,
    pub spaces_between_directory_container_rows: usize,
    pub char_between_directory_container_rows: char,
    pub filler_char: char,
    pub directory_container_settings: DirectoryContainerSettings,
}

/// The whole configuration.
pub struct Settings {
    pub path_container_settings: PathContainerSettings,
}

/// A copy of the per-entry indicator tags, field for field.
pub fn clone_directory_item_settings(settings: &DirectoryItemSettings) -> (result:
    DirectoryItemSettings)
    ensures
        result.item_type_indicator_directory@ == settings.item_type_indicator_directory@,
        result.item_type_indicator_file@ == settings.item_type_indicator_file@,
        result.item_type_indicator_symlink@ == settings.item_type_indicator_symlink@,
        result.item_type_indicator_unknown@ == settings.item_type_indicator_unknown@,
{
    DirectoryItemSettings {
        item_type_indicator_directory: settings.item_type_indicator_directory.clone(),
        item_type_indicator_file: settings.item_type_indicator_file.clone(),
        item_type_indicator_symlink: settings.item_type_indicator_symlink.clone(),
        item_type_indicator_unknown: settings.item_type_indicator_unknown.clone(),
    }
}

/// Whether two per-entry indicator settings show the same tags.
pub open spec fn directory_item_settings_like(
    a: DirectoryItemSettings,
    b: DirectoryItemSettings,
) -> bool {
    &&& a.item_type_indicator_directory@ == b.item_type_indicator_directory@
    &&& a.item_type_indicator_file@ == b.item_type_indicator_file@
    &&& a.item_type_indicator_symlink@ == b.item_type_indicator_symlink@
    &&& a.item_type_indicator_unknown@ == b.item_type_indicator_unknown@
}

/// Whether two panel settings agree on everything a panel's construction and
/// rendering read.
pub open spec fn directory_container_settings_like(
    a: DirectoryContainerSettings,
    b: DirectoryContainerSettings,
) -> bool {
    &&& a.sort_directory_item_by_item_type_indicator == b.sort_directory_item_by_item_type_indicator
    &&& a.should_display_hidden_files == b.should_display_hidden_files
    &&& a.truncation_options == b.truncation_options
    &&& a.truncated_text_indicator@ == b.truncated_text_indicator@
    &&& a.horizontal_border_symbol == b.horizontal_border_symbol
    &&& a.vertical_border_symbol == b.vertical_border_symbol
    &&& a.content_divider_symbol == b.content_divider_symbol
    &&& a.padding_symbol_to_center_directory_names == b.padding_symbol_to_center_directory_names
    &&& directory_item_settings_like(a.directory_item_settings, b.directory_item_settings)
}

/// A copy of a panel's settings, field for field.
pub fn clone_directory_container_settings(settings: &DirectoryContainerSettings) -> (result:
    DirectoryContainerSettings)
    ensures
        directory_container_settings_like(result, *settings),
{
    DirectoryContainerSettings {
        sort_directory_item_by_item_type_indicator:
            settings.sort_directory_item_by_item_type_indicator,
        should_display_hidden_files: settings.should_display_hidden_files,
        truncation_options: settings.truncation_options,
        truncated_text_indicator: settings.truncated_text_indicator.clone(),
        horizontal_border_symbol: settings.horizontal_border_symbol,
        vertical_border_symbol: settings.vertical_border_symbol,
        content_divider_symbol: settings.content_divider_symbol,
        padding_symbol_to_center_directory_names:
            settings.padding_symbol_to_center_directory_names,
        directory_item_settings: clone_directory_item_settings(&settings.directory_item_settings),
    }
}

/// The default configuration: outlier-based truncation with a `...`
/// indicator counted toward the target, hidden files not shown, name-only
/// sorting, one space between panels and between rows, and plain ASCII
/// border glyphs.
pub fn get_default_settings() -> (result: Settings)
    ensures
        ({
            let path = result.path_container_settings;
            let container = path.directory_container_settings;
            let item = container.directory_item_settings;
            &&& path.number_of_directory_containers_to_print_option is None
            &&& path.spaces_between_directory_containers == 1
            &&& path.char_between_directory_containers == ' '
            &&& path.spaces_between_directory_container_rows == 1
            &&& path.char_between_directory_container_rows == ' '
            &&& path.filler_char == ' '
            &&& !container.sort_directory_item_by_item_type_indicator
            &&& !container.should_display_hidden_files
            &&& container.truncation_options == (TruncationOptions::Outliers {
                should_include_truncated_text_indicator_in_length: true,
            })
            &&& container.truncated_text_indicator@ == "..."@
            &&& container.horizontal_border_symbol == '-'
            &&& container.vertical_border_symbol == '|'
            &&& container.content_divider_symbol == '='
            &&& container.padding_symbol_to_center_directory_names == ' '
            &&& item.item_type_indicator_directory@ == "(D)"@
            &&& item.item_type_indicator_file@ == "(F)"@
            &&& item.item_type_indicator_symlink@ == "(S)"@
            &&& item.item_type_indicator_unknown@ == "(U)"@
        }),
{
    Settings {
        path_container_settings: PathContainerSettings {
            number_of_directory_containers_to_print_option: Option::None,
            spaces_between_directory_containers: 1,
            char_between_directory_containers: ' ',
            spaces_between_directory_container_rows: 1,
            char_between_directory_container_rows: ' ',
            filler_char: ' ',
            directory_container_settings: DirectoryContainerSettings {
                sort_directory_item_by_item_type_indicator: false,
                should_display_hidden_files: false,
                truncation_options: TruncationOptions::Outliers {
                    should_include_truncated_text_indicator_in_length: true,
                },
                truncated_text_indicator: String::from_str("..."),
                horizontal_border_symbol: '-',
                vertical_border_symbol: '|',
                content_divider_symbol: '=',
                padding_symbol_to_center_directory_names: ' ',
                directory_item_settings: DirectoryItemSettings {
                    item_type_indicator_directory: String::from_str("(D)"),
                    item_type_indicator_file: String::from_str("(F)"),
                    item_type_indicator_symlink: String::from_str("(S)"),
                    item_type_indicator_unknown: String::from_str("(U)"),
                },
            },
        },
    }
}

} // verus!
