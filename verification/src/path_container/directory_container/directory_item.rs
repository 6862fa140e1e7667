//! One child of a directory: its name, kind, highlight state, and the logic
//! that renders its display string — optionally tagged with its kind and cut
//! down by the owning panel's truncation settings.

use vstd::prelude::*;
use vstd::string::{StrSliceExecFns, StringExecFns};

use crate::settings::DirectoryItemSettings;
use crate::utils::string::{truncate_text, truncated_seq, Color, StyledText};

verus! {

/// How an entry is highlighted: on the chain's path, the single selected
/// entry of the deepest panel, or neither.
#[derive(Clone, Copy, Debug, PartialEq, Eq, Structural)]
pub enum ItemState {
    DirectoryInPath,
    Selected,
    Unselected,
}

/// What kind of filesystem object an entry is; `Unknown` stands for a
/// failed metadata read.
#[derive(Clone, Copy, Debug, PartialEq, Eq, Structural)]
pub enum ItemType {
    Directory,
    File,
    Symlink,
    Unknown,
}

/// A panel's truncation decision: the target length, the indicator appended
/// to cut names, and whether the indicator's own length counts against the
/// target.
pub struct NameTruncationSettings {
    pub name_length_after_truncation: usize,
    pub should_include_truncated_text_indicator_in_length: bool,
    pub truncated_text_indicator: String,
}

/// One child of a directory, as plain values: its display name, its full
/// path (which identifies it within the chain), its highlight state, its
/// kind, and the kind tags it renders with.
pub struct DirectoryItem {
    pub file_name: String,
    pub path: String,
    pub item_state: ItemState,
    pub item_type: ItemType,
    pub directory_item_settings: DirectoryItemSettings,
}

/// `name` cut by the given truncation settings; `None` leaves it whole.
pub open spec fn truncated_name_seq(
    name: Seq<char>,
    option: Option<NameTruncationSettings>,
) -> Seq<char> {
    match option {
        Option::None => name,
        Option::Some(settings) => truncated_seq(
            name,
            settings.name_length_after_truncation as int,
            Option::Some(
                (
                    settings.truncated_text_indicator@,
                    settings.should_include_truncated_text_indicator_in_length,
                ),
            ),
        ),
    }
}

/// The tag an item's kind is shown with.
pub open spec fn item_type_indicator_seq(item: DirectoryItem) -> Seq<char> {
    match item.item_type {
        ItemType::Directory => item.directory_item_settings.item_type_indicator_directory@,
        ItemType::File => item.directory_item_settings.item_type_indicator_file@,
        ItemType::Symlink => item.directory_item_settings.item_type_indicator_symlink@,
        ItemType::Unknown => item.directory_item_settings.item_type_indicator_unknown@,
    }
}

/// What an item displays: its possibly truncated name, preceded when asked
/// by its kind tag and one space.
pub open spec fn display_name_seq(
    item: DirectoryItem,
    include_item_type_indicator: bool,
    option: Option<NameTruncationSettings>,
) -> Seq<char> {
    if include_item_type_indicator {
        item_type_indicator_seq(item) + seq![' '] + truncated_name_seq(item.file_name@, option)
    } else {
        truncated_name_seq(item.file_name@, option)
    }
}

/// The number of characters an item displays.
pub open spec fn display_length(
    item: DirectoryItem,
    include_item_type_indicator: bool,
    option: Option<NameTruncationSettings>,
) -> int {
    display_name_seq(item, include_item_type_indicator, option).len() as int
}

/// The color an item is styled in, decided by its highlight state and then
/// its kind. Color never influences layout.
pub open spec fn file_name_color(item: DirectoryItem) -> Color {
    match item.item_state {
        ItemState::DirectoryInPath => Color::Blue,
        ItemState::Selected => Color::Green,
        ItemState::Unselected => match item.item_type {
            ItemType::Directory => Color::White,
            ItemType::File => Color::Magenta,
            ItemType::Symlink => Color::Red,
            ItemType::Unknown => Color::Cyan,
        },
    }
}

/// Whether an item is hidden: its name starts with a dot.
pub open spec fn is_hidden(item: DirectoryItem) -> bool {
    item.file_name@.len() > 0 && item.file_name@[0] == '.'
}

impl DirectoryItem {
    /// A freshly classified, unhighlighted entry.
    pub fn new(
        file_name: String,
        path: String,
        item_type: ItemType,
        directory_item_settings: DirectoryItemSettings,
    ) -> (result: Self)
        ensures
            result.file_name == file_name,
            result.path == path,
            result.item_state == ItemState::Unselected,
            result.item_type == item_type,
            result.directory_item_settings == directory_item_settings,
    {
        DirectoryItem {
            file_name,
            path,
            item_state: ItemState::Unselected,
            item_type,
            directory_item_settings,
        }
    }

    fn get_item_type_indicator_string(&self) -> (result: &str)
        ensures
            result@ == item_type_indicator_seq(*self),
    {
        match self.item_type {
            ItemType::Directory => self.directory_item_settings.item_type_indicator_directory.as_str(),
            ItemType::File => self.directory_item_settings.item_type_indicator_file.as_str(),
            ItemType::Symlink => self.directory_item_settings.item_type_indicator_symlink.as_str(),
            ItemType::Unknown => self.directory_item_settings.item_type_indicator_unknown.as_str(),
        }
    }

    fn get_truncated_file_name(&self, name_truncation_settings_option: &Option<
        NameTruncationSettings,
    >) -> (result: String)
        ensures
            result@ == truncated_name_seq(self.file_name@, *name_truncation_settings_option),
    {
        match name_truncation_settings_option {
            Option::Some(name_truncation_settings) => truncate_text(
                self.file_name.clone(),
                name_truncation_settings.name_length_after_truncation,
                Option::Some(
                    (
                        name_truncation_settings.truncated_text_indicator.clone(),
                        name_truncation_settings.should_include_truncated_text_indicator_in_length,
                    ),
                ),
            ),
            Option::None => self.file_name.clone(),
        }
    }

    /// The item's display string, cut by the given truncation settings and
    /// prefixed with its kind tag when asked.
    pub fn get_file_name(
        &self,
        should_include_item_type_indicator: bool,
        name_truncation_settings_option: &Option<NameTruncationSettings>,
    ) -> (result: String)
        ensures
            result@ == display_name_seq(
                *self,
                should_include_item_type_indicator,
                *name_truncation_settings_option,
            ),
    {
        let truncated = self.get_truncated_file_name(name_truncation_settings_option);
        if should_include_item_type_indicator {
            let mut result = String::from_str(self.get_item_type_indicator_string());
            result.append(" ");
            result.append(truncated.as_str());
            proof {
                reveal_strlit(" ");
                assert(" "@ =~= seq![' ']);
                assert(result@ =~= display_name_seq(
                    *self,
                    should_include_item_type_indicator,
                    *name_truncation_settings_option,
                ));
            }
            result
        } else {
            truncated
        }
    }

    /// The character count of the item's display string.
    pub fn get_file_name_length(
        &self,
        should_include_item_type_indicator_in_length: bool,
        name_truncation_settings_option: &Option<NameTruncationSettings>,
    ) -> (result: usize)
        ensures
            result == display_length(
                *self,
                should_include_item_type_indicator_in_length,
                *name_truncation_settings_option,
            ),
    {
        let file_name = self.get_file_name(
            should_include_item_type_indicator_in_length,
            name_truncation_settings_option,
        );
        file_name.as_str().unicode_len()
    }

    /// The color the item is shown in.
    pub fn get_file_name_color(&self) -> (result: Color)
        ensures
            result == file_name_color(*self),
    {
        match self.item_state {
            ItemState::DirectoryInPath => Color::Blue,
            ItemState::Selected => Color::Green,
            ItemState::Unselected => match self.item_type {
                ItemType::Directory => Color::White,
                ItemType::File => Color::Magenta,
                ItemType::Symlink => Color::Red,
                ItemType::Unknown => Color::Cyan,
            },
        }
    }

    /// The item's display string together with the color it is printed
    /// in.
    pub fn print_styled_file_name(
        &self,
        should_include_item_type_indicator: bool,
        name_truncation_settings_option: &Option<NameTruncationSettings>,
    ) -> (result: StyledText)
        ensures
            result.text@ == display_name_seq(
                *self,
                should_include_item_type_indicator,
                *name_truncation_settings_option,
            ),
            result.color == Option::Some(file_name_color(*self)),
    {
        StyledText {
            text: self.get_file_name(
                should_include_item_type_indicator,
                name_truncation_settings_option,
            ),
            color: Option::Some(self.get_file_name_color()),
        }
    }

    /// Whether the item's name starts with a dot.
    pub fn is_hidden_file(&self) -> (result: bool)
        ensures
            result == is_hidden(*self),
    {
        if self.file_name.as_str().unicode_len() == 0 {
            false
        } else {
            self.file_name.as_str().get_char(0) == '.'
        }
    }
}

} // verus!
