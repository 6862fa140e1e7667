//! The chain of panels from the filesystem root down to the working
//! directory. Construction marks, in each panel, the entry leading to the
//! next panel, and marks the first entry of the deepest panel as selected.
//! Layout packs the panels greedily into rows narrower than the terminal
//! and emits the rows line by line; a single panel at least as wide as the
//! terminal is a fatal condition, reported with its directory name.

use vstd::prelude::*;

mod directory_container;

pub use directory_container::{
    DirectoryContainer, DirectoryItem, ItemState, ItemType, NameTruncationSettings,
};
use directory_container::{
    container_built_from, display_length, item_like, items_sorted, kept_marked_items,
    lemma_display_name_like, lemma_minimum_width_like, lemma_row_text_len,
    lemma_truncation_settings_like, lex_leq, marking_consistent, path_option_view, sort_key,
    truncation_settings_from_options,
};

use crate::settings::{
    clone_directory_container_settings, directory_container_settings_like, PathContainerSettings,
};
use crate::utils::string::{
    lemma_pieces_text_concat, lines_texts, make_repeated_char_string, pieces_text,
    repeated_char_seq, StyledText,
};

verus! {

/// One directory level handed in by the caller: the directory's path, its
/// name, and its freshly classified children. Levels arrive deepest first,
/// as a caller walks from the working directory up to the root.
pub struct DirectoryLevel {
    pub path: String,
    pub directory_name: String,
    pub directory_item_vec: Vec<DirectoryItem>,
}

/// The chain of panels, root first, with the terminal size and layout
/// configuration it is drawn under.
pub struct PathContainer {
    pub current_path: String,
    pub directory_container_vec: Vec<DirectoryContainer>,
    pub terminal_dimensions: (usize, usize),
    pub path_container_settings: PathContainerSettings,
}

/// The selected-child path of the level at `level_index` (deepest level is
/// index 0): the path of the level one step deeper, if any.
pub open spec fn child_path_of_level(levels: Seq<DirectoryLevel>, level_index: int) -> Option<
    Seq<char>,
> {
    if level_index >= 1 {
        Option::Some(levels[level_index - 1].path@)
    } else {
        Option::None
    }
}

/// What the deepest panel satisfies: built like the others, with no
/// selected child, and then its first entry in sorted order — and only it —
/// marked `Selected`.
pub open spec fn leaf_container_built_from(
    container: DirectoryContainer,
    level: DirectoryLevel,
    settings: PathContainerSettings,
) -> bool {
    let kept = kept_marked_items(
        level.directory_item_vec@,
        settings.directory_container_settings.should_display_hidden_files,
        Option::None,
    );
    let items = container.directory_item_vec@;
    &&& container.path_to_directory@ == level.path@
    &&& container.directory_name@ == level.directory_name@
    &&& directory_container_settings_like(
        container.directory_container_settings,
        settings.directory_container_settings,
    )
    &&& items.len() == kept.len()
    &&& items_sorted(
        items,
        settings.directory_container_settings.sort_directory_item_by_item_type_indicator,
    )
    &&& (items.len() > 0 ==> items[0].item_state == ItemState::Selected)
    &&& forall|i: int|
        1 <= i < items.len() ==> (#[trigger] items[i]).item_state == ItemState::Unselected
    &&& container.name_truncation_settings_option == truncation_settings_from_options(
        items,
        settings.directory_container_settings.truncation_options,
        container.directory_container_settings.truncated_text_indicator,
    )
    &&& container.well_formed()
}

/// What chain construction guarantees: panel `j`, root first, is built from
/// level `n - 1 - j` with the next deeper level's path as its selected
/// child; the deepest panel additionally has its first entry selected.
pub open spec fn chain_built_from(
    containers: Seq<DirectoryContainer>,
    levels: Seq<DirectoryLevel>,
    settings: PathContainerSettings,
) -> bool {
    let n = levels.len() as int;
    &&& containers.len() == n
    &&& forall|j: int|
        0 <= j < n - 1 ==> container_built_from(
            #[trigger] containers[j],
            levels[n - 1 - j].directory_item_vec@,
            child_path_of_level(levels, n - 1 - j),
            levels[n - 1 - j].path@,
            levels[n - 1 - j].directory_name@,
            settings.directory_container_settings,
        )
    &&& n > 0 ==> leaf_container_built_from(containers[n - 1], levels[0], settings)
}

/// Exactly one entry of `items` has path `path`.
pub open spec fn exactly_one_path_match(items: Seq<DirectoryItem>, path: Seq<char>) -> bool {
    exists|i: int|
        0 <= i < items.len() && (#[trigger] items[i]).path@ == path && (forall|t: int|
            0 <= t < items.len() && t != i ==> (#[trigger] items[t]).path@ != path)
}

/// A panel's settings transfer between field-for-field equal
/// configurations.
proof fn lemma_container_built_from_like(
    container: DirectoryContainer,
    source_items: Seq<DirectoryItem>,
    selected: Option<Seq<char>>,
    path: Seq<char>,
    directory_name: Seq<char>,
    a: crate::settings::DirectoryContainerSettings,
    b: crate::settings::DirectoryContainerSettings,
)
    requires
        container_built_from(container, source_items, selected, path, directory_name, a),
        directory_container_settings_like(a, b),
    ensures
        container_built_from(container, source_items, selected, path, directory_name, b),
{
}

/// Marks the first entry of a panel as the selected one. An empty panel is
/// left unchanged; no other entry and no other field of the panel changes.
fn select_first_directory_in_current_directory_container(container: &mut DirectoryContainer)
    ensures
        old(container).directory_item_vec@.len() == 0 ==> *final(container) == *old(container),
        old(container).directory_item_vec@.len() > 0 ==> ({
            let old_items = old(container).directory_item_vec@;
            let new_items = final(container).directory_item_vec@;
            &&& new_items.len() == old_items.len()
            &&& new_items[0] == (DirectoryItem {
                item_state: ItemState::Selected,
                ..old_items[0]
            })
            &&& forall|i: int| 1 <= i < new_items.len() ==> new_items[i] == old_items[i]
            &&& final(container).path_to_directory == old(container).path_to_directory
            &&& final(container).directory_name == old(container).directory_name
            &&& final(container).minimum_width == old(container).minimum_width
            &&& final(container).name_truncation_settings_option == old(
                container,
            ).name_truncation_settings_option
            &&& final(container).directory_container_settings == old(
                container,
            ).directory_container_settings
        }),
{
    if container.directory_item_vec.len() > 0 {
        let ghost old_items = container.directory_item_vec@;
        let mut first = container.directory_item_vec.remove(0);
        first.item_state = ItemState::Selected;
        container.directory_item_vec.insert(0, first);
        proof {
            assert(container.directory_item_vec@ =~= old_items.update(
                0,
                DirectoryItem { item_state: ItemState::Selected, ..old_items[0] },
            ));
        }
    }
}

/// The path of the deepest level still unprocessed, which the next panel up
/// will mark as its child on the path.
fn get_selected_directory_option(levels: &Vec<DirectoryLevel>) -> (result: Option<String>)
    ensures
        path_option_view(result) == (if levels@.len() > 0 {
            Option::Some(levels@[levels@.len() - 1].path@)
        } else {
            Option::<Seq<char>>::None
        }),
{
    if levels.len() == 0 {
        return Option::None;
    }
    Option::Some(levels[levels.len() - 1].path.clone())
}

impl PathContainer {
    /// Builds the chain for `path` from its directory levels, handed in
    /// deepest first, and marks the first entry of the deepest panel as
    /// selected. Every entry must arrive unhighlighted, as
    /// `DirectoryItem::new` yields them.
    pub fn new(
        path: String,
        levels: Vec<DirectoryLevel>,
        terminal_dimensions: (usize, usize),
        path_container_settings: PathContainerSettings,
    ) -> (result: Self)
        requires
            forall|l: int, i: int|
                0 <= l < levels@.len() && 0 <= i < levels@[l].directory_item_vec@.len()
                    ==> (#[trigger] levels@[l].directory_item_vec@[i]).item_state
                    == ItemState::Unselected,
        ensures
            result.current_path == path,
            result.terminal_dimensions == terminal_dimensions,
            result.path_container_settings == path_container_settings,
            chain_built_from(result.directory_container_vec@, levels@, path_container_settings),
    {
        let ghost original_levels = levels@;
        let ghost n = original_levels.len() as int;
        let mut levels = levels;
        let mut directory_container_vec: Vec<DirectoryContainer> = Vec::new();

        proof {
            assert(levels@ =~= original_levels.take(levels@.len() as int));
        }
        while levels.len() > 0
            invariant
                n == original_levels.len(),
                levels@.len() <= n,
                levels@ == original_levels.take(levels@.len() as int),
                directory_container_vec@.len() == n - levels@.len(),
                forall|l: int, i: int|
                    0 <= l < original_levels.len() && 0 <= i
                        < original_levels[l].directory_item_vec@.len()
                        ==> (#[trigger] original_levels[l].directory_item_vec@[i]).item_state
                        == ItemState::Unselected,
                forall|j: int|
                    0 <= j < directory_container_vec@.len() ==> container_built_from(
                        #[trigger] directory_container_vec@[j],
                        original_levels[n - 1 - j].directory_item_vec@,
                        child_path_of_level(original_levels, n - 1 - j),
                        original_levels[n - 1 - j].path@,
                        original_levels[n - 1 - j].directory_name@,
                        path_container_settings.directory_container_settings,
                    ),
            decreases levels@.len(),
        {
            let ghost level_index = levels@.len() as int - 1;
            let level = levels.pop().unwrap();
            proof {
                assert(level == original_levels[level_index]);
                assert(levels@ =~= original_levels.take(levels@.len() as int));
            }
            let selected_directory_option = get_selected_directory_option(&levels);
            proof {
                assert(path_option_view(selected_directory_option) == child_path_of_level(
                    original_levels,
                    level_index,
                ));
            }
            let container_settings = clone_directory_container_settings(
                &path_container_settings.directory_container_settings,
            );
            let container = DirectoryContainer::new(
                level.path,
                level.directory_name,
                level.directory_item_vec,
                &selected_directory_option,
                container_settings,
            );
            proof {
                lemma_container_built_from_like(
                    container,
                    original_levels[level_index].directory_item_vec@,
                    child_path_of_level(original_levels, level_index),
                    original_levels[level_index].path@,
                    original_levels[level_index].directory_name@,
                    container_settings,
                    path_container_settings.directory_container_settings,
                );
            }
            directory_container_vec.push(container);
            proof {
                assert(n - 1 - (directory_container_vec@.len() - 1) == level_index);
            }
        }

        if directory_container_vec.len() > 0 {
            let last_index = directory_container_vec.len() - 1;
            let ghost pre_leaf = directory_container_vec@[last_index as int];
            let mut leaf = directory_container_vec.remove(last_index);
            select_first_directory_in_current_directory_container(&mut leaf);
            proof {
                let old_items = pre_leaf.directory_item_vec@;
                let new_items = leaf.directory_item_vec@;
                broadcast use vstd::seq_lib::group_to_multiset_ensures;

                if old_items.len() > 0 {
                    assert(new_items.len() == old_items.len());
                    assert(forall|i: int|
                        0 <= i < old_items.len() ==> item_like(
                            #[trigger] old_items[i],
                            new_items[i],
                        ));
                    lemma_truncation_settings_like(
                        old_items,
                        new_items,
                        path_container_settings.directory_container_settings.truncation_options,
                        leaf.directory_container_settings.truncated_text_indicator,
                    );
                    lemma_minimum_width_like(
                        old_items,
                        new_items,
                        leaf.directory_name@,
                        leaf.name_truncation_settings_option,
                    );
                    assert forall|i: int, j: int| 0 <= i < j < new_items.len() implies
                        lex_leq(
                        sort_key(
                            #[trigger] new_items[i],
                            path_container_settings.directory_container_settings.sort_directory_item_by_item_type_indicator,
                        ),
                        sort_key(
                            #[trigger] new_items[j],
                            path_container_settings.directory_container_settings.sort_directory_item_by_item_type_indicator,
                        ),
                    ) by {
                        lemma_display_name_like(
                            old_items[i],
                            new_items[i],
                            path_container_settings.directory_container_settings.sort_directory_item_by_item_type_indicator,
                            Option::None,
                        );
                        lemma_display_name_like(
                            old_items[j],
                            new_items[j],
                            path_container_settings.directory_container_settings.sort_directory_item_by_item_type_indicator,
                            Option::None,
                        );
                    }
                    assert forall|i: int| 0 <= i < new_items.len() implies display_length(
                        #[trigger] new_items[i],
                        true,
                        leaf.name_truncation_settings_option,
                    ) <= usize::MAX by {
                        lemma_display_name_like(
                            old_items[i],
                            new_items[i],
                            true,
                            leaf.name_truncation_settings_option,
                        );
                    }
                }
                let kept = kept_marked_items(
                    original_levels[0].directory_item_vec@,
                    path_container_settings.directory_container_settings.should_display_hidden_files,
                    Option::None,
                );
                assert(kept.to_multiset().len() == kept.len());
                assert(pre_leaf.directory_item_vec@.to_multiset().len()
                    == pre_leaf.directory_item_vec@.len());
                assert(leaf_container_built_from(
                    leaf,
                    original_levels[0],
                    path_container_settings,
                ));
            }
            directory_container_vec.push(leaf);
        }

        PathContainer {
            current_path: path,
            directory_container_vec,
            terminal_dimensions,
            path_container_settings,
        }
    }

    /// Every panel's stored width is consistent and its outer sizes fit the
    /// machine: what rendering requires.
    pub open spec fn chain_renderable(self) -> bool {
        forall|j: int|
            0 <= j < self.directory_container_vec@.len()
                ==> (#[trigger] self.directory_container_vec@[j]).well_formed()
                && self.directory_container_vec@[j].sizes_fit()
    }

    /// Every panel from `start` on is strictly narrower than the terminal.
    pub open spec fn panels_fit_from(self, start: int) -> bool {
        forall|j: int|
            start <= j < self.directory_container_vec@.len()
                ==> (#[trigger] self.directory_container_vec@[j]).total_width()
                < self.terminal_dimensions.0 as int
    }

    /// The columns taken by panels `[start, end)` on one row: their widths
    /// plus one separator between each adjacent pair.
    pub open spec fn row_space(self, start: int, end: int) -> int
        decreases end - start,
    {
        if end <= start {
            0
        } else {
            self.row_space(start, end - 1) + self.directory_container_vec@[end - 1].total_width()
                + if end - 1 > start {
                self.path_container_settings.spaces_between_directory_containers as int
            } else {
                0
            }
        }
    }

    /// Where printing starts: all panels, or only the configured number of
    /// deepest ones.
    pub open spec fn starting_index(self) -> int {
        match self.path_container_settings.number_of_directory_containers_to_print_option {
            Option::Some(count) => if count <= self.directory_container_vec@.len() {
                self.directory_container_vec@.len() - count
            } else {
                0
            },
            Option::None => 0,
        }
    }

    /// The first panel from `j` on at least as wide as the terminal, if
    /// any: the one rendering reports as fatal.
    pub open spec fn first_too_wide_from(self, j: int) -> Option<int>
        decreases self.directory_container_vec@.len() - j,
    {
        if j < 0 || j >= self.directory_container_vec@.len() {
            Option::None
        } else if self.directory_container_vec@[j].total_width()
            >= self.terminal_dimensions.0 as int {
            Option::Some(j)
        } else {
            self.first_too_wide_from(j + 1)
        }
    }

    /// A row's space never shrinks as it takes more panels.
    proof fn lemma_row_space_monotonic(self, start: int, first_end: int, second_end: int)
        requires
            start <= first_end <= second_end,
        ensures
            self.row_space(start, first_end) <= self.row_space(start, second_end),
        decreases second_end - first_end,
    {
        if first_end < second_end {
            self.lemma_row_space_monotonic(start, first_end, second_end - 1);
        }
    }

    /// Helper for `greedy_row_end`: the first end at or past `end` whose
    /// next panel no longer fits, or the chain's end.
    pub open spec fn greedy_row_end_from(self, start: int, end: int) -> int
        decreases self.directory_container_vec@.len() - end,
    {
        if end >= self.directory_container_vec@.len() {
            end
        } else if self.row_space(start, end + 1) >= self.terminal_dimensions.0 as int {
            end
        } else {
            self.greedy_row_end_from(start, end + 1)
        }
    }

    /// Where the greedy row starting at `start` ends: panels are consumed
    /// while one more still fits strictly under the terminal width.
    pub open spec fn greedy_row_end(self, start: int) -> int {
        self.greedy_row_end_from(start, start + 1)
    }

    /// The greedy end never lies before the position the search starts at.
    proof fn lemma_greedy_row_end_from_ge(self, start: int, end: int)
        ensures
            self.greedy_row_end_from(start, end) >= end,
        decreases self.directory_container_vec@.len() - end,
    {
        if end < self.directory_container_vec@.len() && self.row_space(start, end + 1)
            < self.terminal_dimensions.0 as int {
            self.lemma_greedy_row_end_from_ge(start, end + 1);
        }
    }

    /// A non-empty row that fits and is maximal is the greedy row: those
    /// two conditions pin its end.
    proof fn lemma_greedy_row_end_unique(self, start: int, end: int)
        requires
            0 <= start < end <= self.directory_container_vec@.len(),
            self.row_space(start, end) < self.terminal_dimensions.0 as int,
            end == self.directory_container_vec@.len() || self.row_space(start, end + 1)
                >= self.terminal_dimensions.0 as int,
        ensures
            end == self.greedy_row_end(start),
    {
        self.lemma_greedy_row_end_from_pins(start, start + 1, end);
    }

    proof fn lemma_greedy_row_end_from_pins(self, start: int, search: int, end: int)
        requires
            0 <= start < search <= end <= self.directory_container_vec@.len(),
            self.row_space(start, end) < self.terminal_dimensions.0 as int,
            end == self.directory_container_vec@.len() || self.row_space(start, end + 1)
                >= self.terminal_dimensions.0 as int,
        ensures
            self.greedy_row_end_from(start, search) == end,
        decreases end - search,
    {
        if search == end {
        } else {
            self.lemma_row_space_monotonic(start, search + 1, end);
            self.lemma_greedy_row_end_from_pins(start, search + 1, end);
        }
    }

    /// Greedy row packing: starting from the previous row's end, consumes
    /// panels while they fit in one terminal-width row, and returns the new
    /// row as the half-open index range it consumed. The row is never
    /// empty, always fits, and is maximal: one more panel would no longer
    /// fit — it is exactly the greedy row.
    fn update_start_and_end_iteration_tuple(
        &self,
        start_and_end_iteration_tuple: (usize, usize),
    ) -> (result: (usize, usize))
        requires
            self.chain_renderable(),
            start_and_end_iteration_tuple.1 <= self.directory_container_vec@.len(),
            self.panels_fit_from(start_and_end_iteration_tuple.1 as int),
        ensures
            result.0 == start_and_end_iteration_tuple.1,
            result.0 <= result.1 <= self.directory_container_vec@.len(),
            result.0 < self.directory_container_vec@.len() ==> result.1 > result.0,
            result.1 > result.0 ==> self.row_space(result.0 as int, result.1 as int)
                < self.terminal_dimensions.0 as int,
            result.1 < self.directory_container_vec@.len() ==> self.row_space(
                result.0 as int,
                result.1 as int + 1,
            ) >= self.terminal_dimensions.0 as int,
            result.0 < self.directory_container_vec@.len() ==> result.1 as int
                == self.greedy_row_end(result.0 as int),
    {
        let start: usize = start_and_end_iteration_tuple.1;
        let mut end: usize = start;
        let spacing = self.path_container_settings.spaces_between_directory_containers;
        let terminal_width = self.terminal_dimensions.0;
        let mut previous_directory_containers_space_requirement: u128 = 0;

        loop
            invariant
                self.chain_renderable(),
                self.panels_fit_from(start as int),
                start <= end <= self.directory_container_vec@.len(),
                spacing == self.path_container_settings.spaces_between_directory_containers,
                terminal_width == self.terminal_dimensions.0,
                previous_directory_containers_space_requirement as int == self.row_space(
                    start as int,
                    end as int,
                ) + if end > start {
                    spacing as int
                } else {
                    0
                },
                previous_directory_containers_space_requirement as int <= terminal_width as int
                    + spacing as int,
                end > start ==> self.row_space(start as int, end as int)
                    < terminal_width as int,
            ensures
                start <= end <= self.directory_container_vec@.len(),
                end > start ==> self.row_space(start as int, end as int) < terminal_width as int,
                start < self.directory_container_vec@.len() ==> end > start,
                end < self.directory_container_vec@.len() ==> self.row_space(
                    start as int,
                    end as int + 1,
                ) >= terminal_width as int,
            decreases self.directory_container_vec@.len() - end,
        {
            let at_end_of_directory_container_deque = end >= self.directory_container_vec.len();
            let current_directory_container_space_requirement: u128 =
                if !at_end_of_directory_container_deque {
                (self.directory_container_vec[end].get_total_width_of_directory_container()
                    as u128) + (spacing as u128)
            } else {
                0
            };

            let mut all_directory_containers_space_requirement: u128 =
                previous_directory_containers_space_requirement
                + current_directory_container_space_requirement;
            if all_directory_containers_space_requirement >= (spacing as u128) {
                all_directory_containers_space_requirement =
                    all_directory_containers_space_requirement - (spacing as u128);
            }
            proof {
                if !at_end_of_directory_container_deque {
                    assert(all_directory_containers_space_requirement as int == self.row_space(
                        start as int,
                        end as int + 1,
                    ));
                }
            }

            let can_fit_current_directory_containers_in_row =
                all_directory_containers_space_requirement < (terminal_width as u128);

            if can_fit_current_directory_containers_in_row
                && !at_end_of_directory_container_deque {
                previous_directory_containers_space_requirement =
                    previous_directory_containers_space_requirement
                    + current_directory_container_space_requirement;
                end = end + 1;
            } else {
                proof {
                    if !at_end_of_directory_container_deque && end == start {
                        assert(self.row_space(start as int, start as int + 1)
                            == self.directory_container_vec@[start as int].total_width());
                    }
                }
                break;
            }
        }
        proof {
            if start < self.directory_container_vec@.len() {
                self.lemma_greedy_row_end_unique(start as int, end as int);
            }
        }
        (start, end)
    }

    /// The height of the tallest panel among `[start, end)`.
    pub open spec fn max_height_in_range(self, start: int, end: int) -> int
        decreases end - start,
    {
        if end <= start {
            0
        } else {
            let height = self.directory_container_vec@[end - 1].total_height();
            let prior = self.max_height_in_range(start, end - 1);
            if height > prior {
                height
            } else {
                prior
            }
        }
    }

    fn get_height_of_tallest_directory_container_in_range(
        &self,
        start_and_end_iteration_tuple: (usize, usize),
    ) -> (result: usize)
        requires
            self.chain_renderable(),
            start_and_end_iteration_tuple.0 <= start_and_end_iteration_tuple.1
                <= self.directory_container_vec@.len(),
        ensures
            result as int == self.max_height_in_range(
                start_and_end_iteration_tuple.0 as int,
                start_and_end_iteration_tuple.1 as int,
            ),
    {
        let mut height_of_tallest_container: usize = 0;
        let mut i: usize = start_and_end_iteration_tuple.0;
        while i < start_and_end_iteration_tuple.1
            invariant
                self.chain_renderable(),
                start_and_end_iteration_tuple.0 <= i <= start_and_end_iteration_tuple.1
                    <= self.directory_container_vec@.len(),
                height_of_tallest_container as int == self.max_height_in_range(
                    start_and_end_iteration_tuple.0 as int,
                    i as int,
                ),
            decreases start_and_end_iteration_tuple.1 - i,
        {
            let container_height = self.directory_container_vec[
                i
            ].get_total_height_of_directory_container();
            if height_of_tallest_container < container_height {
                height_of_tallest_container = container_height;
            }
            i = i + 1;
        }
        height_of_tallest_container
    }

    /// What panel `j` shows on line `line` of its row: its own row if the
    /// line is within its height, else a filler of its width.
    pub open spec fn cell_text(self, j: int, line: int) -> Seq<char> {
        let container = self.directory_container_vec@[j];
        if line < container.total_height() {
            container.row_text(line)
        } else {
            repeated_char_seq(self.path_container_settings.filler_char, container.total_width())
        }
    }

    /// Line `line` of the row of panels `[start, end)`: the panels' cells
    /// separated by the configured spacing text.
    pub open spec fn row_line_text(self, start: int, end: int, line: int) -> Seq<char>
        decreases end - start,
    {
        if end <= start {
            Seq::empty()
        } else {
            self.row_line_text(start, end - 1, line) + (if end - 1 > start {
                repeated_char_seq(
                    self.path_container_settings.char_between_directory_containers,
                    self.path_container_settings.spaces_between_directory_containers as int,
                )
            } else {
                Seq::<char>::empty()
            }) + self.cell_text(end - 1, line)
        }
    }

    /// Each line of a row is exactly as wide as the space its panels take.
    proof fn lemma_row_line_text_len(self, start: int, end: int, line: int)
        requires
            self.chain_renderable(),
            0 <= start <= end <= self.directory_container_vec@.len(),
        ensures
            self.row_line_text(start, end, line).len() == self.row_space(start, end),
        decreases end - start,
    {
        if end <= start {
        } else {
            self.lemma_row_line_text_len(start, end - 1, line);
            lemma_row_text_len(self.directory_container_vec@[end - 1], line);
        }
    }

    /// The printable lines of the packed row `[start, end)`: one line per
    /// row of its tallest panel, then, unless the row is the chain's last,
    /// the configured number of full-width spacing lines.
    pub open spec fn row_block_texts(self, start: int, end: int) -> Seq<Seq<char>> {
        let height = self.max_height_in_range(start, end);
        let panel_lines = Seq::new(height as nat, |i: int| self.row_line_text(start, end, i));
        let spacing_lines: Seq<Seq<char>> = if end < self.directory_container_vec@.len() {
            Seq::new(
                self.path_container_settings.spaces_between_directory_container_rows as nat,
                |i: int|
                    repeated_char_seq(
                        self.path_container_settings.char_between_directory_container_rows,
                        self.terminal_dimensions.0 as int,
                    ),
            )
        } else {
            Seq::empty()
        };
        panel_lines + spacing_lines
    }

    /// Every printable line of the chain from panel `start` on: the greedy
    /// rows' line blocks, in order. (A greedy row is never empty, so the
    /// emptiness guard only keeps the recursion well-founded.)
    pub open spec fn chain_line_texts(self, start: int) -> Seq<Seq<char>>
        decreases self.directory_container_vec@.len() - start,
    {
        if start < 0 || start >= self.directory_container_vec@.len() {
            Seq::empty()
        } else {
            let end = self.greedy_row_end(start);
            if end <= start || end > self.directory_container_vec@.len() {
                Seq::empty()
            } else {
                self.row_block_texts(start, end) + self.chain_line_texts(end)
            }
        }
    }

    fn print_single_line_of_each_directory_container(
        &self,
        directory_container_number: usize,
        row_number: usize,
    ) -> (result: Vec<StyledText>)
        requires
            self.chain_renderable(),
            directory_container_number < self.directory_container_vec@.len(),
        ensures
            pieces_text(result@) == self.cell_text(
                directory_container_number as int,
                row_number as int,
            ),
    {
        let container = &self.directory_container_vec[directory_container_number];
        if row_number < container.get_total_height_of_directory_container() {
            container.print_directory_container_by_row(row_number)
        } else {
            let filler = make_repeated_char_string(
                self.path_container_settings.filler_char,
                container.get_total_width_of_directory_container(),
            );
            let mut result: Vec<StyledText> = Vec::new();
            result.push(StyledText { text: filler, color: Option::None });
            proof {
                assert(result@.drop_last() =~= Seq::<StyledText>::empty());
                assert(pieces_text(Seq::<StyledText>::empty()) =~= Seq::<char>::empty());
                assert(result@.last() == result@[0]);
                assert(pieces_text(result@) =~= self.cell_text(
                    directory_container_number as int,
                    row_number as int,
                ));
            }
            result
        }
    }

    /// The printable lines of one packed row of panels: one line per row of
    /// the tallest panel, then, unless this is the chain's last row, the
    /// configured number of full-width spacing lines.
    fn print_one_row_of_directory_containers(
        &self,
        start_and_end_iteration_tuple: (usize, usize),
    ) -> (result: Vec<Vec<StyledText>>)
        requires
            self.chain_renderable(),
            start_and_end_iteration_tuple.0 < start_and_end_iteration_tuple.1
                <= self.directory_container_vec@.len(),
            self.row_space(
                start_and_end_iteration_tuple.0 as int,
                start_and_end_iteration_tuple.1 as int,
            ) < self.terminal_dimensions.0 as int,
        ensures
            ({
                let start = start_and_end_iteration_tuple.0 as int;
                let end = start_and_end_iteration_tuple.1 as int;
                let height = self.max_height_in_range(start, end);
                let spacing_lines: int = if end < self.directory_container_vec@.len() {
                    self.path_container_settings.spaces_between_directory_container_rows as int
                } else {
                    0
                };
                &&& result@.len() == height + spacing_lines
                &&& forall|i: int|
                    0 <= i < height ==> pieces_text(#[trigger] result@[i]@) == self.row_line_text(
                        start,
                        end,
                        i,
                    )
                &&& forall|i: int|
                    height <= i < result@.len() ==> pieces_text(#[trigger] result@[i]@)
                        == repeated_char_seq(
                        self.path_container_settings.char_between_directory_container_rows,
                        self.terminal_dimensions.0 as int,
                    )
            }),
            forall|i: int|
                0 <= i < result@.len() ==> pieces_text(#[trigger] result@[i]@).len()
                    <= self.terminal_dimensions.0 as int,
    {
        let start = start_and_end_iteration_tuple.0;
        let end = start_and_end_iteration_tuple.1;
        let height_of_tallest_container = self.get_height_of_tallest_directory_container_in_range(
            start_and_end_iteration_tuple,
        );

        let mut lines: Vec<Vec<StyledText>> = Vec::new();
        let mut i: usize = 0;
        while i < height_of_tallest_container
            invariant
                self.chain_renderable(),
                start < end <= self.directory_container_vec@.len(),
                self.row_space(start as int, end as int) < self.terminal_dimensions.0 as int,
                i <= height_of_tallest_container,
                height_of_tallest_container as int == self.max_height_in_range(
                    start as int,
                    end as int,
                ),
                lines@.len() == i,
                forall|t: int|
                    0 <= t < lines@.len() ==> pieces_text(#[trigger] lines@[t]@)
                        == self.row_line_text(start as int, end as int, t),
                forall|t: int|
                    0 <= t < lines@.len() ==> pieces_text(#[trigger] lines@[t]@).len()
                        <= self.terminal_dimensions.0 as int,
            decreases height_of_tallest_container - i,
        {
            let mut line: Vec<StyledText> = Vec::new();
            let mut j: usize = start;
            proof {
                assert(line@ =~= Seq::<StyledText>::empty());
                assert(pieces_text(line@) =~= self.row_line_text(start as int, start as int, i as int));
            }
            while j < end
                invariant
                    self.chain_renderable(),
                    start <= j <= end <= self.directory_container_vec@.len(),
                    pieces_text(line@) == self.row_line_text(start as int, j as int, i as int),
                decreases end - j,
            {
                if j > start {
                    let separator = make_repeated_char_string(
                        self.path_container_settings.char_between_directory_containers,
                        self.path_container_settings.spaces_between_directory_containers,
                    );
                    let ghost line_before = line@;
                    line.push(StyledText { text: separator, color: Option::None });
                    proof {
                        assert(line@.drop_last() =~= line_before);
                        assert(pieces_text(line@) =~= pieces_text(line_before)
                            + line@.last().text@);
                    }
                }
                let mut cell = self.print_single_line_of_each_directory_container(j, i);
                let ghost line_before_cell = line@;
                let ghost cell_view = cell@;
                line.append(&mut cell);
                proof {
                    lemma_pieces_text_concat(line_before_cell, cell_view);
                    assert(pieces_text(line@) =~= self.row_line_text(
                        start as int,
                        j as int + 1,
                        i as int,
                    ));
                }
                j = j + 1;
            }
            proof {
                self.lemma_row_line_text_len(start as int, end as int, i as int);
            }
            lines.push(line);
            i = i + 1;
        }

        let ghost height = lines@.len() as int;
        if end < self.directory_container_vec.len() {
            let mut s: usize = 0;
            while s < self.path_container_settings.spaces_between_directory_container_rows
                invariant
                    self.chain_renderable(),
                    start < end <= self.directory_container_vec@.len(),
                    height == self.max_height_in_range(start as int, end as int),
                    s <= self.path_container_settings.spaces_between_directory_container_rows,
                    lines@.len() == height + s,
                    forall|t: int|
                        0 <= t < height ==> pieces_text(#[trigger] lines@[t]@)
                            == self.row_line_text(start as int, end as int, t),
                    forall|t: int|
                        height <= t < lines@.len() ==> pieces_text(#[trigger] lines@[t]@)
                            == repeated_char_seq(
                            self.path_container_settings.char_between_directory_container_rows,
                            self.terminal_dimensions.0 as int,
                        ),
                    forall|t: int|
                        0 <= t < lines@.len() ==> pieces_text(#[trigger] lines@[t]@).len()
                            <= self.terminal_dimensions.0 as int,
                decreases self.path_container_settings.spaces_between_directory_container_rows
                    - s,
            {
                let spacing_line_text = make_repeated_char_string(
                    self.path_container_settings.char_between_directory_container_rows,
                    self.terminal_dimensions.0,
                );
                let mut spacing_line: Vec<StyledText> = Vec::new();
                spacing_line.push(StyledText { text: spacing_line_text, color: Option::None });
                proof {
                    assert(spacing_line@.drop_last() =~= Seq::<StyledText>::empty());
                    assert(pieces_text(Seq::<StyledText>::empty()) =~= Seq::<char>::empty());
                    assert(spacing_line@.last() == spacing_line@[0]);
                    assert(pieces_text(spacing_line@) =~= spacing_line@[0].text@);
                }
                lines.push(spacing_line);
                s = s + 1;
            }
        }
        lines
    }

    /// The printable lines of the whole chain: its panels packed greedily
    /// into rows narrower than the terminal, each row emitted line by line.
    /// If some panel from the starting index on is at least as wide as the
    /// terminal, rendering refuses and names the first such panel's
    /// directory. Otherwise the returned lines read exactly as
    /// `chain_line_texts` from the starting index — the greedy rows' line
    /// blocks in order — and every line fits the terminal width.
    pub fn print_path(&self) -> (result: Result<Vec<Vec<StyledText>>, String>)
        requires
            self.chain_renderable(),
        ensures
            result is Err <==> self.first_too_wide_from(self.starting_index()) is Some,
            result matches Err(name) ==> ({
                let j = self.first_too_wide_from(self.starting_index())->0;
                name@ == self.directory_container_vec@[j].directory_name@
            }),
            result matches Ok(lines) ==> forall|i: int|
                0 <= i < lines@.len() ==> pieces_text(#[trigger] lines@[i]@).len()
                    <= self.terminal_dimensions.0 as int,
            result matches Ok(lines) ==> (self.starting_index()
                < self.directory_container_vec@.len() ==> lines@.len() > 0),
            result matches Ok(lines) ==> lines_texts(lines@) == self.chain_line_texts(
                self.starting_index(),
            ),
    {
        let number_of_containers = self.directory_container_vec.len();
        let starting_index: usize = match self
            .path_container_settings
            .number_of_directory_containers_to_print_option {
            Option::Some(number_of_directory_containers_to_print) => {
                if number_of_directory_containers_to_print <= number_of_containers {
                    number_of_containers - number_of_directory_containers_to_print
                } else {
                    0
                }
            },
            Option::None => 0,
        };

        proof {
            assert(starting_index as int == self.starting_index());
        }
        let mut j: usize = starting_index;
        while j < number_of_containers
            invariant
                self.chain_renderable(),
                number_of_containers == self.directory_container_vec@.len(),
                starting_index as int == self.starting_index(),
                starting_index <= j <= number_of_containers,
                self.first_too_wide_from(self.starting_index()) == self.first_too_wide_from(
                    j as int,
                ),
                forall|k: int|
                    starting_index <= k < j
                        ==> (#[trigger] self.directory_container_vec@[k]).total_width()
                        < self.terminal_dimensions.0 as int,
            decreases number_of_containers - j,
        {
            if self.directory_container_vec[j].get_total_width_of_directory_container()
                >= self.terminal_dimensions.0 {
                return Result::Err(self.directory_container_vec[j].get_directory_name().clone());
            }
            j = j + 1;
        }

        let mut lines: Vec<Vec<StyledText>> = Vec::new();
        let mut start_and_end_iteration_tuple: (usize, usize) = self
            .update_start_and_end_iteration_tuple((starting_index, starting_index));
        proof {
            assert(lines_texts(lines@) =~= Seq::<Seq<char>>::empty());
            assert(self.chain_line_texts(self.starting_index()) =~= lines_texts(lines@)
                + self.chain_line_texts(start_and_end_iteration_tuple.0 as int));
        }
        while start_and_end_iteration_tuple.0 < number_of_containers
            invariant
                self.chain_renderable(),
                self.panels_fit_from(self.starting_index()),
                number_of_containers == self.directory_container_vec@.len(),
                self.starting_index() <= start_and_end_iteration_tuple.0,
                start_and_end_iteration_tuple.0 <= start_and_end_iteration_tuple.1
                    <= number_of_containers,
                start_and_end_iteration_tuple.0 < number_of_containers
                    ==> start_and_end_iteration_tuple.1 > start_and_end_iteration_tuple.0
                    && self.row_space(
                    start_and_end_iteration_tuple.0 as int,
                    start_and_end_iteration_tuple.1 as int,
                ) < self.terminal_dimensions.0 as int,
                start_and_end_iteration_tuple.0 < number_of_containers
                    ==> start_and_end_iteration_tuple.1 as int == self.greedy_row_end(
                    start_and_end_iteration_tuple.0 as int,
                ),
                self.chain_line_texts(self.starting_index()) == lines_texts(lines@)
                    + self.chain_line_texts(start_and_end_iteration_tuple.0 as int),
                forall|i: int|
                    0 <= i < lines@.len() ==> pieces_text(#[trigger] lines@[i]@).len()
                        <= self.terminal_dimensions.0 as int,
                start_and_end_iteration_tuple.0 > self.starting_index() ==> lines@.len() > 0,
            decreases number_of_containers - start_and_end_iteration_tuple.0,
        {
            let mut row_lines = self.print_one_row_of_directory_containers(
                start_and_end_iteration_tuple,
            );
            let ghost lines_before = lines@;
            let ghost row_lines_view = row_lines@;
            lines.append(&mut row_lines);
            proof {
                let row_start = start_and_end_iteration_tuple.0 as int;
                let row_end = start_and_end_iteration_tuple.1 as int;
                let height = self.max_height_in_range(row_start, row_end);
                assert(lines@ =~= lines_before + row_lines_view);
                assert(height >= self.directory_container_vec@[row_end - 1].total_height());
                assert forall|i: int| 0 <= i < row_lines_view.len() implies lines_texts(
                    row_lines_view,
                )[i] == self.row_block_texts(row_start, row_end)[i] by {
                    if i < height {
                        assert(pieces_text(row_lines_view[i]@) == self.row_line_text(
                            row_start,
                            row_end,
                            i,
                        ));
                    } else {
                        assert(pieces_text(row_lines_view[i]@) == repeated_char_seq(
                            self.path_container_settings.char_between_directory_container_rows,
                            self.terminal_dimensions.0 as int,
                        ));
                    }
                }
                assert(lines_texts(row_lines_view) =~= self.row_block_texts(row_start, row_end));
                assert(self.chain_line_texts(row_start) == self.row_block_texts(
                    row_start,
                    row_end,
                ) + self.chain_line_texts(row_end));
                assert(lines_texts(lines@) =~= lines_texts(lines_before) + lines_texts(
                    row_lines_view,
                ));
                assert(lines_texts(lines@) + self.chain_line_texts(row_end) =~= lines_texts(
                    lines_before,
                ) + self.chain_line_texts(row_start));
            }
            start_and_end_iteration_tuple = self.update_start_and_end_iteration_tuple(
                start_and_end_iteration_tuple,
            );
        }
        proof {
            assert(self.chain_line_texts(start_and_end_iteration_tuple.0 as int)
                =~= Seq::<Seq<char>>::empty());
            assert(lines_texts(lines@) + Seq::<Seq<char>>::empty() =~= lines_texts(lines@));
        }
        Result::Ok(lines)
    }

    /// The full packing of the chain from the starting index on: the rows,
    /// in order, as half-open index ranges. The rows are non-empty and
    /// contiguous — no panel is split or skipped — they cover the packed
    /// panels exactly, each fits the terminal, and each is the greedy row
    /// from its start, which pins the packing uniquely.
    pub fn pack_all_rows(&self) -> (result: Vec<(usize, usize)>)
        requires
            self.chain_renderable(),
            self.panels_fit_from(self.starting_index()),
        ensures
            result@.len() > 0 <==> self.starting_index() < self.directory_container_vec@.len(),
            result@.len() > 0 ==> result@[0].0 == self.starting_index(),
            result@.len() > 0 ==> result@[result@.len() - 1].1
                == self.directory_container_vec@.len(),
            forall|k: int|
                0 <= k < result@.len() - 1 ==> (#[trigger] result@[k]).1 == result@[k + 1].0,
            forall|k: int| 0 <= k < result@.len() ==> (#[trigger] result@[k]).0 < result@[k].1,
            forall|k: int|
                0 <= k < result@.len() ==> self.row_space(
                    (#[trigger] result@[k]).0 as int,
                    result@[k].1 as int,
                ) < self.terminal_dimensions.0 as int,
            forall|k: int|
                0 <= k < result@.len() && (#[trigger] result@[k]).1
                    < self.directory_container_vec@.len() ==> self.row_space(
                    result@[k].0 as int,
                    result@[k].1 as int + 1,
                ) >= self.terminal_dimensions.0 as int,
            forall|k: int|
                0 <= k < result@.len() ==> (#[trigger] result@[k]).1 as int == self.greedy_row_end(
                    result@[k].0 as int,
                ),
    {
        let number_of_containers = self.directory_container_vec.len();
        let starting_index: usize = match self
            .path_container_settings
            .number_of_directory_containers_to_print_option {
            Option::Some(number_of_directory_containers_to_print) => {
                if number_of_directory_containers_to_print <= number_of_containers {
                    number_of_containers - number_of_directory_containers_to_print
                } else {
                    0
                }
            },
            Option::None => 0,
        };

        let mut rows: Vec<(usize, usize)> = Vec::new();
        let mut start_and_end_iteration_tuple: (usize, usize) = self
            .update_start_and_end_iteration_tuple((starting_index, starting_index));
        while start_and_end_iteration_tuple.0 < number_of_containers
            invariant
                self.chain_renderable(),
                self.panels_fit_from(self.starting_index()),
                number_of_containers == self.directory_container_vec@.len(),
                starting_index == self.starting_index(),
                self.starting_index() <= start_and_end_iteration_tuple.0,
                start_and_end_iteration_tuple.0 <= start_and_end_iteration_tuple.1
                    <= number_of_containers,
                start_and_end_iteration_tuple.0 < number_of_containers
                    ==> start_and_end_iteration_tuple.1 > start_and_end_iteration_tuple.0
                    && self.row_space(
                    start_and_end_iteration_tuple.0 as int,
                    start_and_end_iteration_tuple.1 as int,
                ) < self.terminal_dimensions.0 as int
                    && (start_and_end_iteration_tuple.1 < number_of_containers
                    ==> self.row_space(
                    start_and_end_iteration_tuple.0 as int,
                    start_and_end_iteration_tuple.1 as int + 1,
                ) >= self.terminal_dimensions.0 as int),
                start_and_end_iteration_tuple.0 >= number_of_containers
                    ==> start_and_end_iteration_tuple.0 == number_of_containers,
                start_and_end_iteration_tuple.0 < number_of_containers
                    ==> start_and_end_iteration_tuple.1 as int == self.greedy_row_end(
                    start_and_end_iteration_tuple.0 as int,
                ),
                forall|k: int|
                    0 <= k < rows@.len() ==> (#[trigger] rows@[k]).1 as int
                        == self.greedy_row_end(rows@[k].0 as int),
                rows@.len() == 0 ==> start_and_end_iteration_tuple.0 == starting_index,
                forall|k: int|
                    0 <= k < rows@.len() ==> (#[trigger] rows@[k]).1 <= number_of_containers,
                rows@.len() > 0 ==> rows@[0].0 == starting_index,
                rows@.len() > 0 ==> rows@[rows@.len() - 1].1 == start_and_end_iteration_tuple.0,
                forall|k: int|
                    0 <= k < rows@.len() - 1 ==> (#[trigger] rows@[k]).1 == rows@[k + 1].0,
                forall|k: int| 0 <= k < rows@.len() ==> (#[trigger] rows@[k]).0 < rows@[k].1,
                forall|k: int|
                    0 <= k < rows@.len() ==> self.row_space(
                        (#[trigger] rows@[k]).0 as int,
                        rows@[k].1 as int,
                    ) < self.terminal_dimensions.0 as int,
                forall|k: int|
                    0 <= k < rows@.len() && (#[trigger] rows@[k]).1 < number_of_containers
                        ==> self.row_space(rows@[k].0 as int, rows@[k].1 as int + 1)
                        >= self.terminal_dimensions.0 as int,
            decreases number_of_containers - start_and_end_iteration_tuple.0,
        {
            rows.push(start_and_end_iteration_tuple);
            start_and_end_iteration_tuple = self.update_start_and_end_iteration_tuple(
                start_and_end_iteration_tuple,
            );
        }
        rows
    }
}

/// Later rows start no earlier than earlier rows end.
proof fn lemma_rows_ordered(rows: Seq<(usize, usize)>, i: int, j: int)
    requires
        forall|k: int| 0 <= k < rows.len() - 1 ==> (#[trigger] rows[k]).1 == rows[k + 1].0,
        forall|k: int| 0 <= k < rows.len() ==> (#[trigger] rows[k]).0 < rows[k].1,
        0 <= i <= j < rows.len(),
    ensures
        rows[i].1 <= rows[j].1,
        rows[i].0 <= rows[j].0,
    decreases j - i,
{
    if i < j {
        lemma_rows_ordered(rows, i, j - 1);
    }
}

/// Some row from `lo` on holds `panel_index`.
proof fn lemma_rows_cover_from(rows: Seq<(usize, usize)>, lo: int, panel_index: int)
    requires
        forall|k: int| 0 <= k < rows.len() - 1 ==> (#[trigger] rows[k]).1 == rows[k + 1].0,
        forall|k: int| 0 <= k < rows.len() ==> (#[trigger] rows[k]).0 < rows[k].1,
        0 <= lo < rows.len(),
        rows[lo].0 <= panel_index < rows[rows.len() - 1].1,
    ensures
        exists|k: int|
            lo <= k < rows.len() && (#[trigger] rows[k]).0 <= panel_index < rows[k].1,
    decreases rows.len() - lo,
{
    if panel_index < rows[lo].1 {
        assert(rows[lo].0 <= panel_index < rows[lo].1);
    } else {
        assert(lo < rows.len() - 1);
        lemma_rows_cover_from(rows, lo + 1, panel_index);
    }
}

/// Packed rows tile the packed index range: every panel index from the
/// first row's start to the last row's end lies in exactly one row, so no
/// panel is split across rows, skipped or repeated, and the rows keep the
/// panels' order.
pub proof fn lemma_rows_tile_panel_indices(rows: Seq<(usize, usize)>, panel_index: int)
    requires
        rows.len() > 0,
        forall|k: int| 0 <= k < rows.len() - 1 ==> (#[trigger] rows[k]).1 == rows[k + 1].0,
        forall|k: int| 0 <= k < rows.len() ==> (#[trigger] rows[k]).0 < rows[k].1,
        rows[0].0 <= panel_index < rows[rows.len() - 1].1,
    ensures
        exists|k: int|
            0 <= k < rows.len() && (#[trigger] rows[k]).0 <= panel_index < rows[k].1,
        forall|k1: int, k2: int|
            0 <= k1 < rows.len() && 0 <= k2 < rows.len() && (#[trigger] rows[k1]).0
                <= panel_index < rows[k1].1 && (#[trigger] rows[k2]).0 <= panel_index
                < rows[k2].1 ==> k1 == k2,
{
    lemma_rows_cover_from(rows, 0, panel_index);
    assert forall|k1: int, k2: int|
        0 <= k1 < rows.len() && 0 <= k2 < rows.len() && (#[trigger] rows[k1]).0 <= panel_index
            < rows[k1].1 && (#[trigger] rows[k2]).0 <= panel_index < rows[k2].1 implies k1
        == k2 by {
        if k1 < k2 {
            lemma_rows_ordered(rows, k1, k2 - 1);
            assert(rows[k2 - 1].1 == rows[k2].0);
        } else if k2 < k1 {
            lemma_rows_ordered(rows, k2, k1 - 1);
            assert(rows[k1 - 1].1 == rows[k1].0);
        }
    }
}

/// For a well-built chain whose parent panels each hold the next panel's
/// path exactly once and whose deepest panel is non-empty, exactly one
/// entry in the whole chain is `Selected` — the first entry of the deepest
/// panel — and each parent panel holds exactly one `DirectoryInPath` entry,
/// the one whose path is its child panel's directory.
#[verifier::rlimit(60)]
pub proof fn lemma_chain_highlighting(
    containers: Seq<DirectoryContainer>,
    levels: Seq<DirectoryLevel>,
    settings: PathContainerSettings,
)
    requires
        chain_built_from(containers, levels, settings),
        containers.len() > 0,
        containers[containers.len() - 1].directory_item_vec@.len() > 0,
        forall|j: int|
            0 <= j < containers.len() - 1 ==> exactly_one_path_match(
                (#[trigger] containers[j]).directory_item_vec@,
                containers[j + 1].path_to_directory@,
            ),
    ensures
        containers[containers.len() - 1].directory_item_vec@[0].item_state == ItemState::Selected,
        forall|j: int, i: int|
            0 <= j < containers.len() && 0 <= i < containers[j].directory_item_vec@.len() && !(j
                == containers.len() - 1 && i == 0)
                ==> (#[trigger] containers[j].directory_item_vec@[i]).item_state
                != ItemState::Selected,
        forall|j: int|
            0 <= j < containers.len() - 1 ==> exactly_one_on_path(
                (#[trigger] containers[j]).directory_item_vec@,
                containers[j + 1].path_to_directory@,
            ),
        forall|i: int|
            0 <= i < containers[containers.len() - 1].directory_item_vec@.len()
                ==> (#[trigger] containers[containers.len() - 1].directory_item_vec@[i]).item_state
                != ItemState::DirectoryInPath,
{
    let n = containers.len() as int;
    assert forall|j: int| 0 <= j < n - 1 implies exactly_one_on_path(
        (#[trigger] containers[j]).directory_item_vec@,
        containers[j + 1].path_to_directory@,
    ) by {
        let items = containers[j].directory_item_vec@;
        let child = containers[j + 1].path_to_directory@;
        let selected = child_path_of_level(levels, n - 1 - j);
        assert(container_built_from(
            containers[j],
            levels[n - 1 - j].directory_item_vec@,
            selected,
            levels[n - 1 - j].path@,
            levels[n - 1 - j].directory_name@,
            settings.directory_container_settings,
        ));
        if j + 1 < n - 1 {
            assert(containers[j + 1].path_to_directory@ == levels[n - 2 - j].path@);
        } else {
            assert(containers[j + 1].path_to_directory@ == levels[0].path@);
        }
        assert(selected == Option::Some(child));
        let witness = choose|i: int|
            0 <= i < items.len() && (#[trigger] items[i]).path@ == child && (forall|t: int|
                0 <= t < items.len() && t != i ==> (#[trigger] items[t]).path@ != child);
        assert(marking_consistent(items[witness], selected));
        assert(items[witness].item_state == ItemState::DirectoryInPath);
        assert forall|t: int|
            0 <= t < items.len() && t != witness implies (#[trigger] items[t]).item_state
            != ItemState::DirectoryInPath by {
            assert(marking_consistent(items[t], selected));
        }
    }
    assert forall|j: int, i: int|
        0 <= j < n && 0 <= i < containers[j].directory_item_vec@.len() && !(j == n - 1 && i == 0)
        implies (#[trigger] containers[j].directory_item_vec@[i]).item_state
        != ItemState::Selected by {
        if j < n - 1 {
            let selected = child_path_of_level(levels, n - 1 - j);
            assert(marking_consistent(containers[j].directory_item_vec@[i], selected));
        }
    }
}

/// The chain-highlighting law stated over a built `PathContainer` and its
/// input levels, with the non-emptiness hypothesis on the filesystem side:
/// the chain has at least one level and the deepest level keeps at least
/// one visible entry.
pub proof fn lemma_path_container_highlighting(chain: PathContainer, levels: Seq<DirectoryLevel>)
    requires
        chain_built_from(chain.directory_container_vec@, levels, chain.path_container_settings),
        levels.len() > 0,
        kept_marked_items(
            levels[0].directory_item_vec@,
            chain.path_container_settings.directory_container_settings.should_display_hidden_files,
            Option::None,
        ).len() > 0,
        forall|j: int|
            0 <= j < chain.directory_container_vec@.len() - 1 ==> exactly_one_path_match(
                (#[trigger] chain.directory_container_vec@[j]).directory_item_vec@,
                chain.directory_container_vec@[j + 1].path_to_directory@,
            ),
    ensures
        ({
            let containers = chain.directory_container_vec@;
            &&& containers[containers.len() - 1].directory_item_vec@[0].item_state
                == ItemState::Selected
            &&& forall|j: int, i: int|
                0 <= j < containers.len() && 0 <= i < containers[j].directory_item_vec@.len()
                    && !(j == containers.len() - 1 && i == 0)
                    ==> (#[trigger] containers[j].directory_item_vec@[i]).item_state
                    != ItemState::Selected
            &&& forall|j: int|
                0 <= j < containers.len() - 1 ==> exactly_one_on_path(
                    (#[trigger] containers[j]).directory_item_vec@,
                    containers[j + 1].path_to_directory@,
                )
            &&& forall|i: int|
                0 <= i < containers[containers.len() - 1].directory_item_vec@.len()
                    ==> (#[trigger] containers[containers.len()
                    - 1].directory_item_vec@[i]).item_state != ItemState::DirectoryInPath
        }),
{
    let containers = chain.directory_container_vec@;
    assert(leaf_container_built_from(
        containers[containers.len() - 1],
        levels[0],
        chain.path_container_settings,
    ));
    lemma_chain_highlighting(containers, levels, chain.path_container_settings);
}

/// Exactly one entry of `items` is on the path, and its path is `path`.
pub open spec fn exactly_one_on_path(items: Seq<DirectoryItem>, path: Seq<char>) -> bool {
    exists|i: int|
        0 <= i < items.len() && (#[trigger] items[i]).item_state == ItemState::DirectoryInPath
            && items[i].path@ == path && (forall|t: int|
            0 <= t < items.len() && t != i ==> (#[trigger] items[t]).item_state
                != ItemState::DirectoryInPath)
}

} // verus!
