//! One directory's panel: it keeps the directory's entries (hidden ones
//! filtered out when configured), marks the entry leading to the next panel,
//! sorts the entries by display name, decides a truncation target from the
//! configured policy, computes its minimum drawing size, and renders itself
//! row by row.

use vstd::multiset::Multiset;
use vstd::prelude::*;
use vstd::string::{StrSliceExecFns, StringExecFns};

mod directory_item;

pub use directory_item::{DirectoryItem, ItemState, ItemType, NameTruncationSettings};
pub use directory_item::{display_length, display_name_seq, file_name_color, is_hidden};

use crate::settings::{
    directory_container_settings_like, DirectoryContainerSettings, TruncationOptions,
};
use crate::utils::maths::{
    get_average, get_outliers, high_outliers, is_sorted_ascending, lemma_seq_sum_bounded,
    lemma_sorted_ascending_properties, lemma_sorted_ascending_unique, seq_sum, sort_values,
    sorted_ascending,
};
use crate::utils::string::{
    add_padding_to_center_string, centered_seq, line_view, make_repeated_char_string, pieces_text,
    push_char, repeated_char_seq, Color, StyledText,
};

verus! {

// ---------------------------------------------------------------------------
// Ordering entries
// ---------------------------------------------------------------------------
/// Lexicographic order on character sequences, by code point.
pub open spec fn lex_leq(a: Seq<char>, b: Seq<char>) -> bool
    decreases a.len(),
{
    if a.len() == 0 {
        true
    } else if b.len() == 0 {
        false
    } else if (a[0] as u32) < (b[0] as u32) {
        true
    } else if (a[0] as u32) > (b[0] as u32) {
        false
    } else {
        lex_leq(a.drop_first(), b.drop_first())
    }
}

/// Any two character sequences are ordered one way or the other.
proof fn lemma_lex_leq_total(a: Seq<char>, b: Seq<char>)
    ensures
        lex_leq(a, b) || lex_leq(b, a),
    decreases a.len(),
{
    if a.len() == 0 {
    } else if b.len() == 0 {
    } else if (a[0] as u32) == (b[0] as u32) {
        lemma_lex_leq_total(a.drop_first(), b.drop_first());
    } else {
    }
}

/// Lexicographic order is transitive.
proof fn lemma_lex_leq_transitive(a: Seq<char>, b: Seq<char>, c: Seq<char>)
    requires
        lex_leq(a, b),
        lex_leq(b, c),
    ensures
        lex_leq(a, c),
    decreases a.len(),
{
    if a.len() == 0 {
    } else if b.len() == 0 {
    } else if c.len() == 0 {
    } else {
        if (a[0] as u32) == (b[0] as u32) && (b[0] as u32) == (c[0] as u32) {
            lemma_lex_leq_transitive(a.drop_first(), b.drop_first(), c.drop_first());
        }
    }
}

/// The string a panel sorts an entry by: its display name before any
/// truncation, with the kind tag included when the panel sorts by kind
/// first.
pub open spec fn sort_key(item: DirectoryItem, by_item_type: bool) -> Seq<char> {
    display_name_seq(item, by_item_type, Option::None)
}

/// Whether a panel's entries are in sort order.
pub open spec fn items_sorted(items: Seq<DirectoryItem>, by_item_type: bool) -> bool {
    forall|i: int, j: int|
        0 <= i < j < items.len() ==> lex_leq(
            sort_key(#[trigger] items[i], by_item_type),
            sort_key(#[trigger] items[j], by_item_type),
        )
}

// ---------------------------------------------------------------------------
// Keeping and marking entries
// ---------------------------------------------------------------------------
/// Whether a panel keeps an entry: hidden entries are dropped unless the
/// panel shows them.
pub open spec fn keeps_item(item: DirectoryItem, should_display_hidden_files: bool) -> bool {
    should_display_hidden_files || !is_hidden(item)
}

/// The view of an optional selected-child path.
pub open spec fn path_option_view(option: Option<String>) -> Option<Seq<char>> {
    match option {
        Option::None => Option::None,
        Option::Some(path) => Option::Some(path@),
    }
}

/// An entry marked against the selected child: its state becomes
/// `DirectoryInPath` exactly when its path is the selected one.
pub open spec fn marked_item(item: DirectoryItem, selected: Option<Seq<char>>) -> DirectoryItem {
    match selected {
        Option::Some(selected_path) => if item.path@ == selected_path {
            DirectoryItem { item_state: ItemState::DirectoryInPath, ..item }
        } else {
            item
        },
        Option::None => item,
    }
}

/// The entries a panel is built from: the kept entries, marked against the
/// selected child, in their incoming order.
pub open spec fn kept_marked_items(
    items: Seq<DirectoryItem>,
    should_display_hidden_files: bool,
    selected: Option<Seq<char>>,
) -> Seq<DirectoryItem>
    decreases items.len(),
{
    if items.len() == 0 {
        Seq::empty()
    } else {
        let prior = kept_marked_items(items.drop_last(), should_display_hidden_files, selected);
        if keeps_item(items.last(), should_display_hidden_files) {
            prior.push(marked_item(items.last(), selected))
        } else {
            prior
        }
    }
}

/// An entry's state is `DirectoryInPath` exactly when its path is the
/// selected child's, and `Unselected` otherwise.
pub open spec fn marking_consistent(item: DirectoryItem, selected: Option<Seq<char>>) -> bool {
    match selected {
        Option::Some(selected_path) => (item.item_state == ItemState::DirectoryInPath <==> item.path@
            == selected_path) && (item.path@ != selected_path ==> item.item_state
            == ItemState::Unselected),
        Option::None => item.item_state == ItemState::Unselected,
    }
}

// ---------------------------------------------------------------------------
// Name-length samples and truncation policies
// ---------------------------------------------------------------------------
/// The display lengths of a panel's entries, in entry order.
pub open spec fn display_lengths(
    items: Seq<DirectoryItem>,
    include_item_type_indicator: bool,
    option: Option<NameTruncationSettings>,
) -> Seq<usize>
    decreases items.len(),
{
    if items.len() == 0 {
        Seq::empty()
    } else {
        display_lengths(items.drop_last(), include_item_type_indicator, option).push(
            display_name_seq(items.last(), include_item_type_indicator, option).len() as usize,
        )
    }
}

/// The display lengths of a panel's entries, in ascending order.
pub open spec fn display_lengths_ascending(
    items: Seq<DirectoryItem>,
    include_item_type_indicator: bool,
    option: Option<NameTruncationSettings>,
) -> Seq<usize> {
    sorted_ascending(display_lengths(items, include_item_type_indicator, option))
}

/// There is one display length per entry, each the length of that entry's
/// display name.
pub proof fn lemma_display_lengths_index(
    items: Seq<DirectoryItem>,
    include_item_type_indicator: bool,
    option: Option<NameTruncationSettings>,
)
    ensures
        display_lengths(items, include_item_type_indicator, option).len() == items.len(),
        forall|i: int|
            0 <= i < items.len() ==> display_lengths(items, include_item_type_indicator, option)[i]
                == display_name_seq(
                #[trigger] items[i],
                include_item_type_indicator,
                option,
            ).len() as usize,
    decreases items.len(),
{
    if items.len() == 0 {
    } else {
        lemma_display_lengths_index(items.drop_last(), include_item_type_indicator, option);
        assert forall|i: int| 0 <= i < items.len() implies display_lengths(
            items,
            include_item_type_indicator,
            option,
        )[i] == display_name_seq(#[trigger] items[i], include_item_type_indicator, option).len()
            as usize by {
            if i < items.len() - 1 {
                assert(items.drop_last()[i] == items[i]);
            } else {
                assert(items.last() == items[i]);
            }
        }
    }
}

/// The distinct values of an ascending sequence, still ascending (repeated
/// neighbours collapsed).
pub open spec fn distinct_ascending(s: Seq<usize>) -> Seq<usize>
    decreases s.len(),
{
    if s.len() <= 1 {
        s
    } else if s.last() == s[s.len() as int - 2] {
        distinct_ascending(s.drop_last())
    } else {
        distinct_ascending(s.drop_last()).push(s.last())
    }
}

/// Collapsing duplicates keeps the last value and never empties a
/// non-empty sequence.
proof fn lemma_distinct_ascending_last(s: Seq<usize>)
    requires
        s.len() > 0,
    ensures
        distinct_ascending(s).len() > 0,
        distinct_ascending(s).last() == s.last(),
    decreases s.len(),
{
    if s.len() == 1 {
    } else if s.last() == s[s.len() as int - 2] {
        lemma_distinct_ascending_last(s.drop_last());
    } else {
        lemma_distinct_ascending_last(s.drop_last());
    }
}

/// The truncation target the `level`-th longest distinct name length gives:
/// the distinct lengths in descending order are indexed by `level`, and a
/// level past the end clamps to the shortest length.
pub open spec fn truncation_value_by_level(lengths_ascending: Seq<usize>, level: int) -> usize
    recommends
        lengths_ascending.len() > 0,
{
    let distinct = distinct_ascending(lengths_ascending);
    if level < distinct.len() {
        distinct[distinct.len() - 1 - level]
    } else {
        distinct[0]
    }
}

/// The mean of a sample, rounded down.
pub open spec fn mean_length_floor(lengths: Seq<usize>) -> int
    recommends
        lengths.len() > 0,
{
    seq_sum(lengths) / (lengths.len() as int)
}

/// The truncation settings a policy yields for a panel with the given
/// entries. The policies look at the untruncated name lengths without the
/// kind tag. `None` means no truncation: nothing configured, a reserved
/// policy, level zero (the longest length — a no-op), or an empty panel,
/// whose statistics are undefined.
pub open spec fn truncation_settings_from_options(
    items: Seq<DirectoryItem>,
    options: TruncationOptions,
    truncated_text_indicator: String,
) -> Option<NameTruncationSettings> {
    let lengths = display_lengths_ascending(items, false, Option::None);
    match options {
        TruncationOptions::NoTruncation => Option::None,
        TruncationOptions::Constant {
            constant,
            should_include_truncated_text_indicator_in_length,
        } => Option::Some(
            NameTruncationSettings {
                name_length_after_truncation: constant,
                should_include_truncated_text_indicator_in_length,
                truncated_text_indicator,
            },
        ),
        TruncationOptions::Level { level, should_include_truncated_text_indicator_in_length } => if
        level == 0 || items.len() == 0 {
            Option::None
        } else {
            Option::Some(
                NameTruncationSettings {
                    name_length_after_truncation: truncation_value_by_level(lengths, level as int),
                    should_include_truncated_text_indicator_in_length,
                    truncated_text_indicator,
                },
            )
        },
        TruncationOptions::AverageFileNameLength {
            should_include_truncated_text_indicator_in_length,
        } => if items.len() == 0 {
            Option::None
        } else {
            Option::Some(
                NameTruncationSettings {
                    name_length_after_truncation: mean_length_floor(lengths) as usize,
                    should_include_truncated_text_indicator_in_length,
                    truncated_text_indicator,
                },
            )
        },
        TruncationOptions::Outliers { should_include_truncated_text_indicator_in_length } => if
        items.len() == 0 {
            Option::None
        } else {
            Option::Some(
                NameTruncationSettings {
                    name_length_after_truncation: truncation_value_by_level(
                        lengths,
                        high_outliers(lengths).len() as int,
                    ),
                    should_include_truncated_text_indicator_in_length,
                    truncated_text_indicator,
                },
            )
        },
        TruncationOptions::HorizontalFit => Option::None,
    }
}

// ---------------------------------------------------------------------------
// Width
// ---------------------------------------------------------------------------
/// The widest thing a panel's interior must fit: its directory name or its
/// widest entry display string (kind tag included, truncation applied).
pub open spec fn minimum_width_of(
    items: Seq<DirectoryItem>,
    directory_name: Seq<char>,
    option: Option<NameTruncationSettings>,
) -> int {
    let lengths = display_lengths_ascending(items, true, option);
    let longest: int = if lengths.len() == 0 {
        0
    } else {
        lengths.last() as int
    };
    if directory_name.len() as int > longest {
        directory_name.len() as int
    } else {
        longest
    }
}

/// Every entry's display length is at most the panel's minimum width,
/// provided that length fits the machine.
pub proof fn lemma_display_length_bounded(
    items: Seq<DirectoryItem>,
    directory_name: Seq<char>,
    option: Option<NameTruncationSettings>,
    i: int,
)
    requires
        0 <= i < items.len(),
        display_length(items[i], true, option) <= usize::MAX,
    ensures
        display_length(items[i], true, option) <= minimum_width_of(items, directory_name, option),
{
    broadcast use vstd::seq_lib::group_to_multiset_ensures;

    let lengths = display_lengths(items, true, option);
    let sorted = sorted_ascending(lengths);
    lemma_display_lengths_index(items, true, option);
    lemma_sorted_ascending_properties(lengths);
    assert(lengths[i] as int == display_length(items[i], true, option));
    assert(lengths.contains(lengths[i]));
    assert(lengths.to_multiset().contains(lengths[i]));
    assert(sorted.to_multiset().contains(lengths[i]));
    assert(sorted.contains(lengths[i]));
    let j = choose|j: int| 0 <= j < sorted.len() && sorted[j] == lengths[i];
    assert(sorted[j] <= sorted.last());
}

// ---------------------------------------------------------------------------
// The panel itself
// ---------------------------------------------------------------------------
/// One directory's panel.
pub struct DirectoryContainer {
    pub path_to_directory: String,
    pub directory_item_vec: Vec<DirectoryItem>,
    pub directory_name: String,
    pub minimum_width: usize,
    pub name_truncation_settings_option: Option<NameTruncationSettings>,
    pub directory_container_settings: DirectoryContainerSettings,
}

/// What construction guarantees: the panel holds exactly the kept entries
/// of its source, marked against the selected child and sorted by display
/// name, and its truncation settings and width follow its own entries.
pub open spec fn container_built_from(
    container: DirectoryContainer,
    source_items: Seq<DirectoryItem>,
    selected: Option<Seq<char>>,
    path: Seq<char>,
    directory_name: Seq<char>,
    settings: DirectoryContainerSettings,
) -> bool {
    let kept = kept_marked_items(source_items, settings.should_display_hidden_files, selected);
    &&& container.path_to_directory@ == path
    &&& container.directory_name@ == directory_name
    &&& directory_container_settings_like(container.directory_container_settings, settings)
    &&& container.directory_item_vec@.to_multiset() == kept.to_multiset()
    &&& items_sorted(
        container.directory_item_vec@,
        settings.sort_directory_item_by_item_type_indicator,
    )
    &&& forall|i: int|
        0 <= i < container.directory_item_vec@.len() ==> marking_consistent(
            #[trigger] container.directory_item_vec@[i],
            selected,
        )
    &&& container.name_truncation_settings_option == truncation_settings_from_options(
        container.directory_item_vec@,
        settings.truncation_options,
        container.directory_container_settings.truncated_text_indicator,
    )
    &&& container.well_formed()
}

impl DirectoryContainer {
    /// The panel's full width: interior plus two padding columns and two
    /// border columns.
    pub open spec fn total_width(self) -> int {
        self.minimum_width + 4
    }

    /// The panel's full height: one row per entry plus the top border, the
    /// name row, the divider and the bottom border.
    pub open spec fn total_height(self) -> int {
        self.directory_item_vec@.len() as int + 4
    }

    /// The stored width agrees with the stored entries, and every entry's
    /// display length fits the machine.
    pub open spec fn well_formed(self) -> bool {
        &&& self.minimum_width as int == minimum_width_of(
            self.directory_item_vec@,
            self.directory_name@,
            self.name_truncation_settings_option,
        )
        &&& forall|i: int|
            0 <= i < self.directory_item_vec@.len() ==> display_length(
                #[trigger] self.directory_item_vec@[i],
                true,
                self.name_truncation_settings_option,
            ) <= usize::MAX
    }

    /// The panel's outer sizes leave room for the border arithmetic.
    pub open spec fn sizes_fit(self) -> bool {
        &&& self.minimum_width + 4 <= usize::MAX
        &&& self.directory_item_vec@.len() + 4 <= usize::MAX
    }

    /// Row `row_number` of the panel, as plain text. Row 0 and the last row
    /// are the horizontal border, row 1 the centered directory name, row 2
    /// the divider, and rows from 3 on show one entry each, left-aligned
    /// and padded to the panel width.
    pub open spec fn row_text(self, row_number: int) -> Seq<char> {
        let vertical = self.directory_container_settings.vertical_border_symbol;
        let interior = self.minimum_width + 2;
        if row_number == 1 {
            seq![vertical] + centered_seq(self.directory_name@, interior) + seq![vertical]
        } else if row_number == 2 {
            seq![vertical] + repeated_char_seq(
                self.directory_container_settings.content_divider_symbol,
                interior,
            ) + seq![vertical]
        } else if 3 <= row_number && row_number < self.total_height() - 1 {
            let item = self.directory_item_vec@[row_number - 3];
            let name = display_name_seq(item, true, self.name_truncation_settings_option);
            seq![vertical, ' '] + name + repeated_char_seq(
                ' ',
                self.minimum_width - name.len(),
            ) + seq![' ', vertical]
        } else {
            seq![' '] + repeated_char_seq(
                self.directory_container_settings.horizontal_border_symbol,
                interior,
            ) + seq![' ']
        }
    }

    /// The styled pieces of row `row_number`: framing text unstyled, the
    /// entry of an entry row styled in its own color.
    pub open spec fn row_pieces(self, row_number: int) -> Seq<(Seq<char>, Option<Color>)> {
        let vertical = self.directory_container_settings.vertical_border_symbol;
        if 3 <= row_number && row_number < self.total_height() - 1 {
            let item = self.directory_item_vec@[row_number - 3];
            let name = display_name_seq(item, true, self.name_truncation_settings_option);
            seq![
                (seq![vertical, ' '], Option::None),
                (name, Option::Some(file_name_color(item))),
                (
                    repeated_char_seq(' ', self.minimum_width - name.len()) + seq![' ', vertical],
                    Option::None,
                ),
            ]
        } else {
            seq![(self.row_text(row_number), Option::None)]
        }
    }
}

/// A one-piece line shows exactly that piece's text.
proof fn lemma_single_piece(pieces: Seq<StyledText>)
    requires
        pieces.len() == 1,
    ensures
        pieces_text(pieces) == pieces[0].text@,
        line_view(pieces) == seq![(pieces[0].text@, pieces[0].color)],
{
    assert(pieces.drop_last() =~= Seq::<StyledText>::empty());
    assert(pieces.last() == pieces[0]);
    assert(pieces_text(Seq::<StyledText>::empty()) =~= Seq::<char>::empty());
    assert(pieces_text(pieces) =~= pieces[0].text@);
    assert(line_view(pieces) =~= seq![(pieces[0].text@, pieces[0].color)]);
}

/// A three-piece line shows its pieces' texts in order.
proof fn lemma_pieces_text_three(pieces: Seq<StyledText>)
    requires
        pieces.len() == 3,
    ensures
        pieces_text(pieces) == pieces[0].text@ + pieces[1].text@ + pieces[2].text@,
{
    let first_two = pieces.drop_last();
    let first_one = first_two.drop_last();
    assert(first_one.drop_last() =~= Seq::<StyledText>::empty());
    assert(pieces_text(Seq::<StyledText>::empty()) =~= Seq::<char>::empty());
    assert(first_one.last() == pieces[0]);
    assert(pieces_text(first_one) =~= pieces[0].text@);
    assert(first_two.last() == pieces[1]);
    assert(pieces_text(first_two) =~= pieces[0].text@ + pieces[1].text@);
    assert(pieces.last() == pieces[2]);
    assert(pieces_text(pieces) =~= pieces[0].text@ + pieces[1].text@ + pieces[2].text@);
}


// ---------------------------------------------------------------------------
// What ignores highlight state
// ---------------------------------------------------------------------------
/// Whether two entries differ in at most their highlight state.
pub open spec fn item_like(a: DirectoryItem, b: DirectoryItem) -> bool {
    &&& a.file_name == b.file_name
    &&& a.path == b.path
    &&& a.item_type == b.item_type
    &&& a.directory_item_settings == b.directory_item_settings
}

/// Display strings ignore highlight state.
pub proof fn lemma_display_name_like(
    a: DirectoryItem,
    b: DirectoryItem,
    include_item_type_indicator: bool,
    option: Option<NameTruncationSettings>,
)
    requires
        item_like(a, b),
    ensures
        display_name_seq(a, include_item_type_indicator, option) == display_name_seq(
            b,
            include_item_type_indicator,
            option,
        ),
{
}

/// Length samples ignore highlight state.
pub proof fn lemma_display_lengths_like(
    s1: Seq<DirectoryItem>,
    s2: Seq<DirectoryItem>,
    include_item_type_indicator: bool,
    option: Option<NameTruncationSettings>,
)
    requires
        s1.len() == s2.len(),
        forall|i: int| 0 <= i < s1.len() ==> item_like(#[trigger] s1[i], #[trigger] s2[i]),
    ensures
        display_lengths(s1, include_item_type_indicator, option) == display_lengths(
            s2,
            include_item_type_indicator,
            option,
        ),
    decreases s1.len(),
{
    if s1.len() == 0 {
        assert(display_lengths(s1, include_item_type_indicator, option) =~= display_lengths(
            s2,
            include_item_type_indicator,
            option,
        ));
    } else {
        lemma_display_lengths_like(
            s1.drop_last(),
            s2.drop_last(),
            include_item_type_indicator,
            option,
        );
        lemma_display_name_like(s1.last(), s2.last(), include_item_type_indicator, option);
        assert(display_lengths(s1, include_item_type_indicator, option) =~= display_lengths(
            s2,
            include_item_type_indicator,
            option,
        ));
    }
}

/// Truncation policies ignore highlight state.
pub proof fn lemma_truncation_settings_like(
    s1: Seq<DirectoryItem>,
    s2: Seq<DirectoryItem>,
    options: TruncationOptions,
    truncated_text_indicator: String,
)
    requires
        s1.len() == s2.len(),
        forall|i: int| 0 <= i < s1.len() ==> item_like(#[trigger] s1[i], #[trigger] s2[i]),
    ensures
        truncation_settings_from_options(s1, options, truncated_text_indicator)
            == truncation_settings_from_options(s2, options, truncated_text_indicator),
{
    lemma_display_lengths_like(s1, s2, false, Option::None);
}

/// Widths ignore highlight state.
pub proof fn lemma_minimum_width_like(
    s1: Seq<DirectoryItem>,
    s2: Seq<DirectoryItem>,
    directory_name: Seq<char>,
    option: Option<NameTruncationSettings>,
)
    requires
        s1.len() == s2.len(),
        forall|i: int| 0 <= i < s1.len() ==> item_like(#[trigger] s1[i], #[trigger] s2[i]),
    ensures
        minimum_width_of(s1, directory_name, option) == minimum_width_of(
            s2,
            directory_name,
            option,
        ),
{
    lemma_display_lengths_like(s1, s2, true, option);
}

/// Every row of a well-formed panel is exactly as wide as the panel.
pub proof fn lemma_row_text_len(container: DirectoryContainer, row_number: int)
    requires
        container.well_formed(),
    ensures
        container.row_text(row_number).len() == container.total_width(),
{
    if row_number == 1 {
        assert(container.directory_name@.len() <= container.minimum_width as int);
    } else if 3 <= row_number && row_number < container.total_height() - 1 {
        lemma_display_length_bounded(
            container.directory_item_vec@,
            container.directory_name@,
            container.name_truncation_settings_option,
            row_number - 3,
        );
    } else {
    }
}

// ---------------------------------------------------------------------------
// Sorting entries
// ---------------------------------------------------------------------------
/// Whether `a` comes at or before `b` in code-point order.
fn lex_leq_strings(a: &str, b: &str) -> (result: bool)
    ensures
        result == lex_leq(a@, b@),
{
    let a_length: usize = a.unicode_len();
    let b_length: usize = b.unicode_len();
    let mut i: usize = 0;
    loop
        invariant
            i <= a_length,
            i <= b_length,
            a_length == a@.len(),
            b_length == b@.len(),
            forall|k: int| 0 <= k < i ==> a@[k] == b@[k],
        ensures
            i <= a_length && i <= b_length,
            forall|k: int| 0 <= k < i ==> a@[k] == b@[k],
            i < a_length && i < b_length ==> (((a@[i as int] as u32) < (b@[i as int] as u32))
                == lex_leq(a@, b@)) && a@[i as int] != b@[i as int],
            i == a_length || i == b_length ==> (lex_leq(a@, b@) == (a_length <= b_length)),
        decreases a_length - i,
    {
        if i == a_length || i == b_length {
            proof {
                lemma_lex_leq_skip(a@, b@, i as int);
                if i == a_length {
                    assert(a@.skip(i as int).len() == 0);
                } else {
                    assert(a@.skip(i as int).len() > 0);
                    assert(b@.skip(i as int).len() == 0);
                }
            }
            break;
        }
        let a_char = a.get_char(i);
        let b_char = b.get_char(i);
        if (a_char as u32) != (b_char as u32) {
            proof {
                lemma_lex_leq_skip(a@, b@, i as int);
                assert(a@.skip(i as int)[0] == a@[i as int]);
                assert(b@.skip(i as int)[0] == b@[i as int]);
            }
            break;
        }
        proof {
            assert(a@[i as int] == b@[i as int]);
        }
        i = i + 1;
    }
    if i < a_length && i < b_length {
        let a_char = a.get_char(i);
        let b_char = b.get_char(i);
        (a_char as u32) < (b_char as u32)
    } else {
        a_length <= b_length
    }
}

/// With equal prefixes of length `i`, lexicographic order is decided by the
/// suffixes from `i` on.
proof fn lemma_lex_leq_skip(a: Seq<char>, b: Seq<char>, i: int)
    requires
        0 <= i <= a.len(),
        i <= b.len(),
        forall|k: int| 0 <= k < i ==> a[k] == b[k],
    ensures
        lex_leq(a, b) == lex_leq(a.skip(i), b.skip(i)),
    decreases i,
{
    if i == 0 {
        assert(a.skip(0) =~= a);
        assert(b.skip(0) =~= b);
    } else {
        assert(a[0] == b[0]);
        lemma_lex_leq_skip(a.drop_first(), b.drop_first(), i - 1);
        assert(a.drop_first().skip(i - 1) =~= a.skip(i));
        assert(b.drop_first().skip(i - 1) =~= b.skip(i));
        assert forall|k: int| 0 <= k < i - 1 implies a.drop_first()[k] == b.drop_first()[k] by {
            assert(a[k + 1] == b[k + 1]);
        }
    }
}

/// Sorts a panel's entries by their display names, kind tag first when the
/// panel is configured so.
fn sort_directory_items(items: Vec<DirectoryItem>, by_item_type: bool) -> (result: Vec<
    DirectoryItem,
>)
    ensures
        result@.to_multiset() == items@.to_multiset(),
        items_sorted(result@, by_item_type),
{
    let mut result: Vec<DirectoryItem> = Vec::new();
    let mut remaining = items;
    let ghost original = remaining@;
    proof {
        broadcast use vstd::seq_lib::group_to_multiset_ensures;

        assert(result@.to_multiset().add(remaining@.to_multiset()) =~= original.to_multiset());
    }
    while remaining.len() > 0
        invariant
            result@.to_multiset().add(remaining@.to_multiset()) == original.to_multiset(),
            items_sorted(result@, by_item_type),
        decreases remaining@.len(),
    {
        let ghost remaining_before = remaining@;
        let item = remaining.remove(0);
        let key = item.get_file_name(by_item_type, &Option::None);
        let mut position: usize = 0;
        loop
            invariant
                position <= result@.len(),
                key@ == sort_key(item, by_item_type),
                items_sorted(result@, by_item_type),
                forall|k: int|
                    0 <= k < position ==> lex_leq(sort_key(#[trigger] result@[k], by_item_type), key@),
            ensures
                position <= result@.len(),
                forall|k: int|
                    0 <= k < position ==> lex_leq(sort_key(#[trigger] result@[k], by_item_type), key@),
                position < result@.len() ==> !lex_leq(
                    sort_key(result@[position as int], by_item_type),
                    key@,
                ),
            decreases result@.len() - position,
        {
            if position == result.len() {
                break;
            }
            let position_key = result[position].get_file_name(by_item_type, &Option::None);
            if !lex_leq_strings(position_key.as_str(), key.as_str()) {
                break;
            }
            position = position + 1;
        }
        let ghost before = result@;
        result.insert(position, item);
        proof {
            broadcast use vstd::seq_lib::group_to_multiset_ensures;
            broadcast use vstd::seq_lib::to_multiset_insert;
            broadcast use vstd::seq_lib::to_multiset_remove;

            assert(remaining@ =~= remaining_before.remove(0));
            assert(result@.to_multiset() =~= before.to_multiset().insert(item));
            assert(result@.to_multiset().add(remaining@.to_multiset()) =~= original.to_multiset());
            assert forall|x: int, y: int| 0 <= x < y < result@.len() implies lex_leq(
                sort_key(#[trigger] result@[x], by_item_type),
                sort_key(#[trigger] result@[y], by_item_type),
            ) by {
                let p = position as int;
                if y < p {
                    assert(result@[x] == before[x] && result@[y] == before[y]);
                } else if x > p {
                    assert(result@[x] == before[x - 1] && result@[y] == before[y - 1]);
                } else if x == p {
                    assert(result@[x] == item && result@[y] == before[y - 1]);
                    assert(!lex_leq(sort_key(before[p], by_item_type), key@));
                    lemma_lex_leq_total(sort_key(before[p], by_item_type), key@);
                    if y - 1 > p {
                        lemma_lex_leq_transitive(
                            key@,
                            sort_key(before[p], by_item_type),
                            sort_key(before[y - 1], by_item_type),
                        );
                    }
                } else if y == p {
                    assert(result@[x] == before[x] && result@[y] == item);
                } else {
                    assert(x < p && y > p);
                    assert(result@[x] == before[x] && result@[y] == before[y - 1]);
                    if y - 1 == p {
                        assert(!lex_leq(sort_key(before[p], by_item_type), key@));
                        lemma_lex_leq_total(sort_key(before[p], by_item_type), key@);
                        lemma_lex_leq_transitive(
                            sort_key(before[x], by_item_type),
                            key@,
                            sort_key(before[p], by_item_type),
                        );
                    }
                }
            }
        }
    }
    proof {
        broadcast use vstd::seq_lib::group_to_multiset_ensures;

        assert(remaining@.to_multiset() =~= Multiset::<DirectoryItem>::empty());
        assert(result@.to_multiset() =~= original.to_multiset());
    }
    result
}

// ---------------------------------------------------------------------------
// Computing lengths, truncation settings and width
// ---------------------------------------------------------------------------
/// The display lengths of the given entries, in ascending order.
fn compute_file_name_lengths(
    items: &Vec<DirectoryItem>,
    include_type_indicator_in_length: bool,
    option: &Option<NameTruncationSettings>,
) -> (result: Vec<usize>)
    ensures
        result@ == display_lengths_ascending(items@, include_type_indicator_in_length, *option),
        is_sorted_ascending(result@),
        result@.len() == items@.len(),
        forall|i: int|
            0 <= i < items@.len() ==> display_length(
                #[trigger] items@[i],
                include_type_indicator_in_length,
                *option,
            ) <= usize::MAX,
{
    let mut lengths: Vec<usize> = Vec::new();
    let mut i: usize = 0;
    proof {
        assert(items@.take(0) =~= Seq::<DirectoryItem>::empty());
    }
    while i < items.len()
        invariant
            i <= items@.len(),
            lengths@ == display_lengths(
                items@.take(i as int),
                include_type_indicator_in_length,
                *option,
            ),
            lengths@.len() == i,
            forall|k: int|
                0 <= k < i ==> display_length(
                    #[trigger] items@[k],
                    include_type_indicator_in_length,
                    *option,
                ) <= usize::MAX,
        decreases items@.len() - i,
    {
        let length = items[i].get_file_name_length(include_type_indicator_in_length, option);
        lengths.push(length);
        i = i + 1;
        proof {
            assert(items@.take(i as int).drop_last() =~= items@.take(i - 1));
            assert(items@.take(i as int).last() == items@[i - 1]);
        }
    }
    proof {
        assert(items@.take(items@.len() as int) =~= items@);
        lemma_sorted_ascending_properties(
            display_lengths(items@, include_type_indicator_in_length, *option),
        );
    }
    sort_values(lengths)
}

/// Removes repeated neighbours from an ascending sequence.
fn deduplicate_sorted(values: &Vec<usize>) -> (result: Vec<usize>)
    ensures
        result@ == distinct_ascending(values@),
{
    let mut result: Vec<usize> = Vec::new();
    let mut i: usize = 0;
    proof {
        assert(values@.take(0) =~= Seq::<usize>::empty());
    }
    while i < values.len()
        invariant
            i <= values@.len(),
            result@ == distinct_ascending(values@.take(i as int)),
        decreases values@.len() - i,
    {
        let value = values[i];
        proof {
            assert(values@.take(i + 1).drop_last() =~= values@.take(i as int));
            assert(values@.take(i + 1).last() == values@[i as int]);
            if i > 0 {
                lemma_distinct_ascending_last(values@.take(i as int));
                assert(values@.take(i + 1)[i - 1] == values@[i - 1]);
                assert(values@.take(i as int).last() == values@[i - 1]);
            }
        }
        if result.len() == 0 {
            result.push(value);
        } else {
            let last = result[result.len() - 1];
            if last != value {
                result.push(value);
            }
        }
        i = i + 1;
    }
    proof {
        assert(values@.take(values@.len() as int) =~= values@);
    }
    result
}

/// The truncation target the `level`-th longest distinct length gives.
fn get_truncation_value_by_level(file_name_lengths: &Vec<usize>, level: usize) -> (result: usize)
    requires
        file_name_lengths@.len() > 0,
    ensures
        result == truncation_value_by_level(file_name_lengths@, level as int),
{
    let distinct = deduplicate_sorted(file_name_lengths);
    proof {
        lemma_distinct_ascending_last(file_name_lengths@);
    }
    if level < distinct.len() {
        distinct[distinct.len() - 1 - level]
    } else {
        distinct[0]
    }
}

impl DirectoryContainer {
    /// Builds a panel for the directory at `path` named `directory_name`
    /// from its freshly classified entries: drops hidden entries when
    /// configured to, marks the entry whose path is the selected child's,
    /// sorts by display name, then decides truncation and width.
    pub fn new(
        path: String,
        directory_name: String,
        items: Vec<DirectoryItem>,
        selected_directory_option: &Option<String>,
        directory_container_settings: DirectoryContainerSettings,
    ) -> (result: Self)
        requires
            forall|i: int|
                0 <= i < items@.len() ==> (#[trigger] items@[i]).item_state
                    == ItemState::Unselected,
        ensures
            container_built_from(
                result,
                items@,
                path_option_view(*selected_directory_option),
                path@,
                directory_name@,
                directory_container_settings,
            ),
            result.directory_container_settings == directory_container_settings,
    {
        let ghost selected = path_option_view(*selected_directory_option);
        let ghost original = items@;
        let should_display_hidden_files = directory_container_settings.should_display_hidden_files;

        let mut remaining = items;
        let mut kept_vec: Vec<DirectoryItem> = Vec::new();
        let ghost mut processed: int = 0;
        proof {
            assert(original.take(0) =~= Seq::<DirectoryItem>::empty());
            assert(remaining@ =~= original.skip(0));
        }
        while remaining.len() > 0
            invariant
                0 <= processed <= original.len(),
                selected == path_option_view(*selected_directory_option),
                remaining@ == original.skip(processed),
                forall|t: int|
                    0 <= t < original.len() ==> (#[trigger] original[t]).item_state
                        == ItemState::Unselected,
                kept_vec@ == kept_marked_items(
                    original.take(processed),
                    should_display_hidden_files,
                    selected,
                ),
                forall|t: int|
                    0 <= t < kept_vec@.len() ==> marking_consistent(
                        #[trigger] kept_vec@[t],
                        selected,
                    ),
            decreases remaining@.len(),
        {
            let item = remaining.remove(0);
            proof {
                assert(item == original[processed]);
                processed = processed + 1;
                assert(remaining@ =~= original.skip(processed));
            }
            let keep = should_display_hidden_files || !item.is_hidden_file();
            if keep {
                let mut item = item;
                if selected_directory_option.is_some() {
                    let selected_path: &String = selected_directory_option.as_ref().unwrap();
                    proof {
                        assert(*selected_directory_option == Option::Some(*selected_path));
                        assert(selected == Option::Some(selected_path@));
                    }
                    if *selected_path == item.path {
                        item.item_state = ItemState::DirectoryInPath;
                    }
                }
                proof {
                    assert(item == marked_item(original[processed - 1], selected));
                }
                kept_vec.push(item);
            }
            proof {
                assert(original.take(processed).drop_last() =~= original.take(processed - 1));
                assert(original.take(processed).last() == original[processed - 1]);
                assert(keep == keeps_item(original[processed - 1], should_display_hidden_files));
            }
        }
        proof {
            assert(original.take(original.len() as int) =~= original);
        }

        let sorted_items = sort_directory_items(
            kept_vec,
            directory_container_settings.sort_directory_item_by_item_type_indicator,
        );
        proof {
            broadcast use vstd::seq_lib::group_to_multiset_ensures;

            let kept = kept_marked_items(original, should_display_hidden_files, selected);
            assert forall|i: int| 0 <= i < sorted_items@.len() implies marking_consistent(
                #[trigger] sorted_items@[i],
                selected,
            ) by {
                assert(sorted_items@.to_multiset().contains(sorted_items@[i]));
                assert(kept.to_multiset().contains(sorted_items@[i]));
                assert(kept.contains(sorted_items@[i]));
                let j = choose|j: int| 0 <= j < kept.len() && kept[j] == sorted_items@[i];
            }
        }

        let mut directory_container = DirectoryContainer {
            directory_name,
            minimum_width: 0,
            path_to_directory: path,
            directory_item_vec: sorted_items,
            name_truncation_settings_option: Option::None,
            directory_container_settings,
        };
        let truncation_options = directory_container.directory_container_settings.truncation_options;
        directory_container.apply_truncation_settings_to_directory_container(truncation_options);
        directory_container
    }

    /// Recomputes the panel's truncation settings for the given policy, and
    /// its minimum width from them.
    pub fn apply_truncation_settings_to_directory_container(
        &mut self,
        truncation_options: TruncationOptions,
    )
        ensures
            final(self).name_truncation_settings_option == truncation_settings_from_options(
                old(self).directory_item_vec@,
                truncation_options,
                old(self).directory_container_settings.truncated_text_indicator,
            ),
            final(self).well_formed(),
            final(self).path_to_directory == old(self).path_to_directory,
            final(self).directory_name == old(self).directory_name,
            final(self).directory_item_vec == old(self).directory_item_vec,
            final(self).directory_container_settings == old(self).directory_container_settings,
    {
        self.set_truncation_settings(truncation_options);
        self.set_minimum_width();
    }

    fn set_truncation_settings(&mut self, truncation_options: TruncationOptions)
        ensures
            final(self).name_truncation_settings_option == truncation_settings_from_options(
                old(self).directory_item_vec@,
                truncation_options,
                old(self).directory_container_settings.truncated_text_indicator,
            ),
            final(self).path_to_directory == old(self).path_to_directory,
            final(self).directory_name == old(self).directory_name,
            final(self).directory_item_vec == old(self).directory_item_vec,
            final(self).directory_container_settings == old(self).directory_container_settings,
            final(self).minimum_width == old(self).minimum_width,
    {
        let ghost items = self.directory_item_vec@;
        let option = match truncation_options {
            TruncationOptions::NoTruncation => Option::None,
            TruncationOptions::Constant {
                constant,
                should_include_truncated_text_indicator_in_length,
            } => Option::Some(
                NameTruncationSettings {
                    name_length_after_truncation: constant,
                    should_include_truncated_text_indicator_in_length,
                    truncated_text_indicator:
                        self.directory_container_settings.truncated_text_indicator.clone(),
                },
            ),
            TruncationOptions::Level { level, should_include_truncated_text_indicator_in_length } => {
                if level == 0 {
                    Option::None
                } else {
                    let lengths = compute_file_name_lengths(
                        &self.directory_item_vec,
                        false,
                        &Option::None,
                    );
                    if lengths.len() == 0 {
                        Option::None
                    } else {
                        Option::Some(
                            NameTruncationSettings {
                                name_length_after_truncation: get_truncation_value_by_level(
                                    &lengths,
                                    level,
                                ),
                                should_include_truncated_text_indicator_in_length,
                                truncated_text_indicator:
                                    self.directory_container_settings.truncated_text_indicator.clone(),
                            },
                        )
                    }
                }
            },
            TruncationOptions::AverageFileNameLength {
                should_include_truncated_text_indicator_in_length,
            } => {
                let lengths = compute_file_name_lengths(
                    &self.directory_item_vec,
                    false,
                    &Option::None,
                );
                match get_average(&lengths) {
                    Result::Ok((sum, count)) => {
                        proof {
                            lemma_seq_sum_bounded(lengths@, lengths@.last() as int);
                            assert(seq_sum(lengths@) / (lengths@.len() as int) <= lengths@.last())
                                by (nonlinear_arith)
                                requires
                                    lengths@.len() > 0,
                                    seq_sum(lengths@) >= 0,
                                    seq_sum(lengths@) <= lengths@.len() * (lengths@.last() as int),
                            ;
                        }
                        let mean = (sum / (count as u128)) as usize;
                        Option::Some(
                            NameTruncationSettings {
                                name_length_after_truncation: mean,
                                should_include_truncated_text_indicator_in_length,
                                truncated_text_indicator:
                                    self.directory_container_settings.truncated_text_indicator.clone(),
                            },
                        )
                    },
                    Result::Err(_) => Option::None,
                }
            },
            TruncationOptions::Outliers { should_include_truncated_text_indicator_in_length } => {
                let lengths = compute_file_name_lengths(
                    &self.directory_item_vec,
                    false,
                    &Option::None,
                );
                let lengths_for_level = compute_file_name_lengths(
                    &self.directory_item_vec,
                    false,
                    &Option::None,
                );
                proof {
                    lemma_sorted_ascending_unique(lengths@, lengths@);
                }
                match get_outliers(lengths, true) {
                    Option::None => Option::None,
                    Option::Some((_lower_outliers, upper_outliers)) => {
                        Option::Some(
                            NameTruncationSettings {
                                name_length_after_truncation: get_truncation_value_by_level(
                                    &lengths_for_level,
                                    upper_outliers.len(),
                                ),
                                should_include_truncated_text_indicator_in_length,
                                truncated_text_indicator:
                                    self.directory_container_settings.truncated_text_indicator.clone(),
                            },
                        )
                    },
                }
            },
            TruncationOptions::HorizontalFit => Option::None,
        };
        self.name_truncation_settings_option = option;
    }

    fn set_minimum_width(&mut self)
        ensures
            final(self).well_formed(),
            final(self).path_to_directory == old(self).path_to_directory,
            final(self).directory_name == old(self).directory_name,
            final(self).directory_item_vec == old(self).directory_item_vec,
            final(self).directory_container_settings == old(self).directory_container_settings,
            final(self).name_truncation_settings_option == old(
                self,
            ).name_truncation_settings_option,
    {
        let lengths = compute_file_name_lengths(
            &self.directory_item_vec,
            true,
            &self.name_truncation_settings_option,
        );
        let length_of_longest_file_name: usize = if lengths.len() == 0 {
            0
        } else {
            lengths[lengths.len() - 1]
        };
        let length_of_current_directory_name = self.directory_name.as_str().unicode_len();
        self.minimum_width = if length_of_current_directory_name > length_of_longest_file_name {
            length_of_current_directory_name
        } else {
            length_of_longest_file_name
        };
    }

    /// The panel's full width in columns.
    pub fn get_total_width_of_directory_container(&self) -> (result: usize)
        requires
            self.minimum_width + 4 <= usize::MAX,
        ensures
            result as int == self.total_width(),
    {
        self.minimum_width + 4
    }

    /// The panel's full height in rows.
    pub fn get_total_height_of_directory_container(&self) -> (result: usize)
        requires
            self.directory_item_vec@.len() + 4 <= usize::MAX,
        ensures
            result as int == self.total_height(),
    {
        self.get_number_of_directory_items() + 4
    }

    /// How many entries the panel lists.
    pub fn get_number_of_directory_items(&self) -> (result: usize)
        ensures
            result == self.directory_item_vec@.len(),
    {
        self.directory_item_vec.len()
    }

    /// The name of the directory the panel shows.
    pub fn get_directory_name(&self) -> (result: &String)
        ensures
            result@ == self.directory_name@,
    {
        &self.directory_name
    }

    /// The styled pieces of row `row_number` of the panel's box. Whatever
    /// the row, its text is exactly `total_width` characters wide: styling
    /// never changes layout.
    pub fn print_directory_container_by_row(&self, row_number: usize) -> (result: Vec<StyledText>)
        requires
            self.well_formed(),
            self.sizes_fit(),
        ensures
            line_view(result@) == self.row_pieces(row_number as int),
            pieces_text(result@) == self.row_text(row_number as int),
            pieces_text(result@).len() == self.total_width(),
    {
        let beginning_directory_item_row: usize = 3;
        let ending_directory_item_row = self.get_total_height_of_directory_container() - 1;

        let result = if row_number == 1 {
            self.print_directory_container_file_name_row()
        } else if row_number == 2 {
            self.print_content_divider_row()
        } else if beginning_directory_item_row <= row_number && row_number
            < ending_directory_item_row {
            self.print_directory_item_row(row_number - beginning_directory_item_row)
        } else {
            self.print_horizontal_directory_container_line_row()
        };
        proof {
            let row = row_number as int;
            if 3 <= row && row < self.total_height() - 1 {
                let item = self.directory_item_vec@[row - 3];
                let name = display_name_seq(item, true, self.name_truncation_settings_option);
                lemma_display_length_bounded(
                    self.directory_item_vec@,
                    self.directory_name@,
                    self.name_truncation_settings_option,
                    row - 3,
                );
                assert(pieces_text(result@).len() == self.total_width());
            } else {
                lemma_single_piece(result@);
                assert(line_view(result@) =~= self.row_pieces(row));
                if row == 1 {
                    assert(self.directory_name@.len() <= self.minimum_width + 2);
                    assert(pieces_text(result@).len() == self.total_width());
                } else {
                    assert(pieces_text(result@).len() == self.total_width());
                }
            }
        }
        result
    }

    fn print_horizontal_directory_container_line_row(&self) -> (result: Vec<StyledText>)
        requires
            self.minimum_width + 4 <= usize::MAX,
        ensures
            result@.len() == 1,
            result@[0].text@ == seq![' '] + repeated_char_seq(
                self.directory_container_settings.horizontal_border_symbol,
                self.minimum_width + 2,
            ) + seq![' '],
            result@[0].color is None,
    {
        let mut text = String::new();
        push_char(&mut text, ' ');
        let line = make_repeated_char_string(
            self.directory_container_settings.horizontal_border_symbol,
            self.minimum_width + 2,
        );
        text.append(line.as_str());
        push_char(&mut text, ' ');
        proof {
            assert(text@ =~= seq![' '] + repeated_char_seq(
                self.directory_container_settings.horizontal_border_symbol,
                self.minimum_width + 2,
            ) + seq![' ']);
        }
        let mut result: Vec<StyledText> = Vec::new();
        result.push(StyledText { text, color: Option::None });
        result
    }

    fn print_directory_container_file_name_row(&self) -> (result: Vec<StyledText>)
        requires
            self.well_formed(),
            self.minimum_width + 4 <= usize::MAX,
        ensures
            result@.len() == 1,
            result@[0].text@ == seq![self.directory_container_settings.vertical_border_symbol]
                + centered_seq(self.directory_name@, self.minimum_width + 2) + seq![
                self.directory_container_settings.vertical_border_symbol
            ],
            result@[0].color is None,
    {
        let mut text = String::new();
        push_char(&mut text, self.directory_container_settings.vertical_border_symbol);
        let centered = add_padding_to_center_string(
            self.directory_name.as_str(),
            self.minimum_width + 2,
        );
        text.append(centered.as_str());
        push_char(&mut text, self.directory_container_settings.vertical_border_symbol);
        proof {
            assert(text@ =~= seq![self.directory_container_settings.vertical_border_symbol]
                + centered_seq(self.directory_name@, self.minimum_width + 2) + seq![
                self.directory_container_settings.vertical_border_symbol
            ]);
        }
        let mut result: Vec<StyledText> = Vec::new();
        result.push(StyledText { text, color: Option::None });
        result
    }

    fn print_content_divider_row(&self) -> (result: Vec<StyledText>)
        requires
            self.minimum_width + 4 <= usize::MAX,
        ensures
            result@.len() == 1,
            result@[0].text@ == seq![self.directory_container_settings.vertical_border_symbol]
                + repeated_char_seq(
                self.directory_container_settings.content_divider_symbol,
                self.minimum_width + 2,
            ) + seq![self.directory_container_settings.vertical_border_symbol],
            result@[0].color is None,
    {
        let mut text = String::new();
        push_char(&mut text, self.directory_container_settings.vertical_border_symbol);
        let line = make_repeated_char_string(
            self.directory_container_settings.content_divider_symbol,
            self.minimum_width + 2,
        );
        text.append(line.as_str());
        push_char(&mut text, self.directory_container_settings.vertical_border_symbol);
        proof {
            assert(text@ =~= seq![self.directory_container_settings.vertical_border_symbol]
                + repeated_char_seq(
                self.directory_container_settings.content_divider_symbol,
                self.minimum_width + 2,
            ) + seq![self.directory_container_settings.vertical_border_symbol]);
        }
        let mut result: Vec<StyledText> = Vec::new();
        result.push(StyledText { text, color: Option::None });
        result
    }

    fn print_directory_item_row(&self, row_number: usize) -> (result: Vec<StyledText>)
        requires
            self.well_formed(),
            self.minimum_width + 4 <= usize::MAX,
            row_number < self.directory_item_vec@.len(),
        ensures
            line_view(result@) == self.row_pieces(row_number + 3),
            pieces_text(result@) == self.row_text(row_number + 3),
    {
        let directory_item = &self.directory_item_vec[row_number];
        let styled_name = directory_item.print_styled_file_name(
            true,
            &self.name_truncation_settings_option,
        );
        let length_of_current_file_name = directory_item.get_file_name_length(
            true,
            &self.name_truncation_settings_option,
        );
        proof {
            lemma_display_length_bounded(
                self.directory_item_vec@,
                self.directory_name@,
                self.name_truncation_settings_option,
                row_number as int,
            );
        }
        let difference = self.minimum_width - length_of_current_file_name;

        let mut prefix = String::new();
        push_char(&mut prefix, self.directory_container_settings.vertical_border_symbol);
        push_char(&mut prefix, ' ');
        let mut suffix = make_repeated_char_string(' ', difference);
        push_char(&mut suffix, ' ');
        push_char(&mut suffix, self.directory_container_settings.vertical_border_symbol);

        let mut result: Vec<StyledText> = Vec::new();
        result.push(StyledText { text: prefix, color: Option::None });
        result.push(styled_name);
        result.push(StyledText { text: suffix, color: Option::None });
        proof {
            let vertical = self.directory_container_settings.vertical_border_symbol;
            let item = self.directory_item_vec@[row_number as int];
            let name = display_name_seq(item, true, self.name_truncation_settings_option);
            assert(result@[0].text@ =~= seq![vertical, ' ']);
            assert(result@[2].text@ =~= repeated_char_seq(
                ' ',
                self.minimum_width - name.len(),
            ) + seq![' ', vertical]);
            assert(line_view(result@) =~= self.row_pieces(row_number + 3));
            lemma_pieces_text_three(result@);
            assert(pieces_text(result@) =~= seq![vertical, ' '] + name + repeated_char_seq(
                ' ',
                self.minimum_width - name.len(),
            ) + seq![' ', vertical]);
        }
        result
    }
}

} // verus!
