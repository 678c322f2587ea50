//! One directory's listing as a sized, renderable box: border, centered
//! title, separator, one row per sorted entry, bottom border.

use vstd::prelude::*;

use crate::path_container::dir_path::{spec_display_name, DirPath};
use crate::path_container::directory_item::{
    spec_rendered_name,
    DirectoryItem,
    ItemState,
    ItemType,
};
use crate::utils::maths::{
    get_quartile_values,
    lemma_doubled_median_bounds,
    lower_half,
    quadrupled_lower_fence,
    quadrupled_upper_fence,
    sort_values,
    sorted_ascending,
    upper_half,
    values_above,
};
use crate::utils::string::{
    add_padding_to_center_string,
    make_repeated_char_string,
    push_char,
    repeat_char,
    spec_center,
};

verus! {

/// One enumerated entry of a directory, as the filesystem collaborator hands
/// it over: its name and its kind.  Its full path is the directory's path
/// extended by the name.
pub struct DirectoryEntry {
    pub file_name: String,
    pub item_type: ItemType,
}

/// Ascending, locale-naive order on names: by the unicode value of the first
/// differing character, a prefix before every extension of it.
pub open spec fn lex_leq(a: Seq<char>, b: Seq<char>) -> bool
    decreases a.len(),
{
    if a.len() == 0 {
        true
    } else if b.len() == 0 {
        false
    } else if (a[0] as u32) == (b[0] as u32) {
        lex_leq(a.drop_first(), b.drop_first())
    } else {
        (a[0] as u32) < (b[0] as u32)
    }
}

/// The name order relates every pair of names, one way or the other.
pub proof fn lemma_lex_leq_total(a: Seq<char>, b: Seq<char>)
    ensures
        lex_leq(a, b) || lex_leq(b, a),
    decreases a.len(),
{
    if a.len() > 0 && b.len() > 0 && (a[0] as u32) == (b[0] as u32) {
        lemma_lex_leq_total(a.drop_first(), b.drop_first());
    }
}

/// The name order is transitive.
pub proof fn lemma_lex_leq_transitive(a: Seq<char>, b: Seq<char>, c: Seq<char>)
    requires
        lex_leq(a, b),
        lex_leq(b, c),
    ensures
        lex_leq(a, c),
    decreases a.len(),
{
    if a.len() > 0 && b.len() > 0 && c.len() > 0 && (a[0] as u32) == (b[0] as u32) && (b[0] as u32)
        == (c[0] as u32) {
        lemma_lex_leq_transitive(a.drop_first(), b.drop_first(), c.drop_first());
    }
}

/// Whether `a` comes at or before `b` in the ascending name order.
fn compare_file_names(a: &str, b: &str) -> (result: bool)
    ensures
        result == lex_leq(a@, b@),
{
    let a_length: usize = a.unicode_len();
    let b_length: usize = b.unicode_len();
    proof {
        assert(a@.skip(0) =~= a@);
        assert(b@.skip(0) =~= b@);
    }
    let mut i: usize = 0;
    loop
        invariant
            i <= a_length,
            i <= b_length,
            a_length == a@.len(),
            b_length == b@.len(),
            lex_leq(a@, b@) == lex_leq(a@.skip(i as int), b@.skip(i as int)),
        decreases a_length - i,
    {
        if i == a_length {
            return true;
        }
        if i == b_length {
            return false;
        }
        let a_char = a.get_char(i);
        let b_char = b.get_char(i);
        if a_char as u32 == b_char as u32 {
            proof {
                assert(a@.skip(i as int).drop_first() =~= a@.skip(i + 1));
                assert(b@.skip(i as int).drop_first() =~= b@.skip(i + 1));
            }
            i += 1;
        } else {
            return (a_char as u32) < (b_char as u32);
        }
    }
}

/// The mathematical content of one item: raw name, rendered name, state and
/// kind.
pub open spec fn item_view(item: DirectoryItem) -> (Seq<char>, Seq<char>, ItemState, ItemType) {
    (item.file_name@, item.rendered_file_name@, item.item_state, item.item_type)
}

/// The mathematical content of a whole listing of items.
pub open spec fn items_view(items: Seq<DirectoryItem>) -> Seq<
    (Seq<char>, Seq<char>, ItemState, ItemType),
> {
    items.map_values(|item: DirectoryItem| item_view(item))
}

/// Sorts items ascending by raw name, in place.  The insertion sort swaps
/// only strictly mis-ordered neighbours, so entries with equal names keep
/// their enumeration order and rendering stays deterministic.
fn sort_directory_items(directory_item_vec: &mut Vec<DirectoryItem>)
    ensures
        final(directory_item_vec)@.len() == old(directory_item_vec)@.len(),
        final(directory_item_vec)@.to_multiset() == old(directory_item_vec)@.to_multiset(),
        items_view(final(directory_item_vec)@).to_multiset() == items_view(
            old(directory_item_vec)@,
        ).to_multiset(),
        forall|j1: int, j2: int|
            0 <= j1 < j2 < final(directory_item_vec)@.len() ==> lex_leq(
                final(directory_item_vec)@[j1].file_name@,
                final(directory_item_vec)@[j2].file_name@,
            ),
{
    let ghost original = directory_item_vec@;
    if directory_item_vec.len() == 0 {
        return ;
    }
    let mut i: usize = 1;
    while i < directory_item_vec.len()
        invariant
            1 <= i,
            directory_item_vec@.len() == original.len(),
            directory_item_vec@.to_multiset() == original.to_multiset(),
            items_view(directory_item_vec@).to_multiset() == items_view(original).to_multiset(),
            forall|a: int, b: int|
                0 <= a < b < i && b < directory_item_vec@.len() ==> lex_leq(
                    directory_item_vec@[a].file_name@,
                    directory_item_vec@[b].file_name@,
                ),
        decreases directory_item_vec@.len() - i,
    {
        let mut j: usize = i;
        while j > 0 && !compare_file_names(
            directory_item_vec[j - 1].file_name.as_str(),
            directory_item_vec[j].file_name.as_str(),
        )
            invariant
                0 <= j <= i < directory_item_vec@.len(),
                directory_item_vec@.len() == original.len(),
                directory_item_vec@.to_multiset() == original.to_multiset(),
                items_view(directory_item_vec@).to_multiset() == items_view(
                    original,
                ).to_multiset(),
                forall|a: int, b: int|
                    0 <= a < b <= i && a != j && b != j ==> lex_leq(
                        directory_item_vec@[a].file_name@,
                        directory_item_vec@[b].file_name@,
                    ),
                forall|b: int|
                    j < b <= i ==> lex_leq(
                        directory_item_vec@[j as int].file_name@,
                        directory_item_vec@[b].file_name@,
                    ),
            decreases j,
        {
            proof {
                lemma_lex_leq_total(
                    directory_item_vec@[j - 1].file_name@,
                    directory_item_vec@[j as int].file_name@,
                );
            }
            let ghost before = directory_item_vec@;
            let moved = directory_item_vec.remove(j);
            directory_item_vec.insert(j - 1, moved);
            proof {
                assert(directory_item_vec@ =~= before.update(j - 1, before[j as int]).update(
                    j as int,
                    before[j - 1],
                ));
                vstd::seq_lib::to_multiset_update(before, j - 1, before[j as int]);
                vstd::seq_lib::to_multiset_update(
                    before.update(j - 1, before[j as int]),
                    j as int,
                    before[j - 1],
                );
                before.to_multiset_ensures();
                before.update(j - 1, before[j as int]).to_multiset_ensures();
                assert(before.contains(before[j - 1]));
                assert(directory_item_vec@.to_multiset() =~= before.to_multiset());

                let mapped_before = items_view(before);
                assert(items_view(directory_item_vec@) =~= mapped_before.update(
                    j - 1,
                    mapped_before[j as int],
                ).update(j as int, mapped_before[j - 1]));
                vstd::seq_lib::to_multiset_update(mapped_before, j - 1, mapped_before[j as int]);
                vstd::seq_lib::to_multiset_update(
                    mapped_before.update(j - 1, mapped_before[j as int]),
                    j as int,
                    mapped_before[j - 1],
                );
                mapped_before.to_multiset_ensures();
                mapped_before.update(j - 1, mapped_before[j as int]).to_multiset_ensures();
                assert(mapped_before.contains(mapped_before[j - 1]));
                assert(items_view(directory_item_vec@).to_multiset()
                    =~= mapped_before.to_multiset());
            }
            j -= 1;
        }
        proof {
            assert forall|a: int, b: int|
                0 <= a < b <= i implies lex_leq(
                directory_item_vec@[a].file_name@,
                directory_item_vec@[b].file_name@,
            ) by {
                if b == j && a < j - 1 {
                    lemma_lex_leq_transitive(
                        directory_item_vec@[a].file_name@,
                        directory_item_vec@[j - 1].file_name@,
                        directory_item_vec@[j as int].file_name@,
                    );
                }
            }
        }
        i += 1;
    }
}

/// What item a `Normal`-state entry becomes under the marking and the
/// rendered-name length limit.
pub open spec fn spec_marked_state(name: Seq<char>, marked_name: Option<Seq<char>>) -> ItemState {
    match marked_name {
        Option::Some(marked) => if name == marked {
            ItemState::DirectoryInPath
        } else {
            ItemState::Normal
        },
        Option::None => ItemState::Normal,
    }
}

/// The item a directory entry becomes: its name, its truncated rendering,
/// the state the marking gives it, and its kind.
pub open spec fn spec_expected_item(
    entry: DirectoryEntry,
    marked_name: Option<Seq<char>>,
    limit: Option<usize>,
) -> (Seq<char>, Seq<char>, ItemState, ItemType) {
    (
        entry.file_name@,
        spec_rendered_name(entry.file_name@, limit),
        spec_marked_state(entry.file_name@, marked_name),
        entry.item_type,
    )
}

/// The listing a sequence of directory entries becomes, before sorting.
pub open spec fn spec_expected_items(
    entries: Seq<DirectoryEntry>,
    marked_name: Option<Seq<char>>,
    limit: Option<usize>,
) -> Seq<(Seq<char>, Seq<char>, ItemState, ItemType)> {
    entries.map_values(|entry: DirectoryEntry| spec_expected_item(entry, marked_name, limit))
}

/// The name marked `DirectoryInPath` inside the box at `path`: the child
/// entry whose full path equals the selected directory, if there is one.
pub open spec fn spec_marked_child_name(
    path: Seq<Seq<char>>,
    selected_directory_option: Option<DirPath>,
) -> Option<Seq<char>> {
    match selected_directory_option {
        Option::Some(selected) => if selected@.len() > 0 && selected@ == path.push(
            selected@.last(),
        ) {
            Option::Some(selected@.last())
        } else {
            Option::None
        },
        Option::None => Option::None,
    }
}

/// Every rendered name is at most the listing's maximum rendered length.
pub proof fn lemma_max_rendered_length_bounds(items: Seq<DirectoryItem>)
    ensures
        0 <= max_rendered_length(items),
        forall|j: int|
            0 <= j < items.len() ==> items[j].rendered_file_name@.len() <= max_rendered_length(
                items,
            ),
    decreases items.len(),
{
    if items.len() > 0 {
        lemma_max_rendered_length_bounds(items.drop_last());
        assert(forall|j: int| 0 <= j < items.len() - 1 ==> items[j] == items.drop_last()[j]);
    }
}

/// The largest rendered-name length among `items`, `0` when there are none.
pub open spec fn max_rendered_length(items: Seq<DirectoryItem>) -> int
    decreases items.len(),
{
    if items.len() == 0 {
        0
    } else {
        let rest = max_rendered_length(items.drop_last());
        if items.last().rendered_file_name@.len() > rest {
            items.last().rendered_file_name@.len() as int
        } else {
            rest
        }
    }
}

/// What one row of the box reads: dashed borders framed by spaces at the top
/// and bottom, the centered title, a `=` separator, and one `| name pad |`
/// row per sorted entry.  Rows at or past the bottom border all read as the
/// border, as the caller is expected to pad past the box's height itself.
pub open spec fn spec_render_row(container: DirectoryContainer, row_number: int) -> Seq<char> {
    let inner_width = container.minimum_width as int;
    if row_number == 0 || row_number >= container.directory_item_vec@.len() + 3 {
        seq![' '] + repeat_char('-', inner_width + 2) + seq![' ']
    } else if row_number == 1 {
        seq!['|'] + spec_center(container.directory_name@, inner_width + 2) + seq!['|']
    } else if row_number == 2 {
        seq!['|'] + repeat_char('=', inner_width + 2) + seq!['|']
    } else {
        let rendered = container.directory_item_vec@[row_number - 3].rendered_file_name@;
        seq!['|', ' '] + rendered + repeat_char(' ', inner_width - rendered.len()) + seq![' ', '|']
    }
}

/// The width law of a well-formed box: its minimum width covers the title's
/// display length and every item's rendered-name length.
pub proof fn lemma_minimum_width_covers(container: DirectoryContainer)
    requires
        container.well_formed(),
    ensures
        container.directory_name@.len() <= container.minimum_width,
        forall|j: int|
            0 <= j < container.directory_item_vec@.len() ==> (
            #[trigger] container.directory_item_vec@[j]).rendered_file_name@.len()
                <= container.minimum_width,
{
    lemma_max_rendered_length_bounds(container.directory_item_vec@);
}

/// Listings whose rendered names agree position by position have the same
/// maximum rendered length.
pub proof fn lemma_max_rendered_length_congruence(a: Seq<DirectoryItem>, b: Seq<DirectoryItem>)
    requires
        a.len() == b.len(),
        forall|j: int|
            0 <= j < a.len() ==> (#[trigger] a[j]).rendered_file_name@
                == b[j].rendered_file_name@,
    ensures
        max_rendered_length(a) == max_rendered_length(b),
    decreases a.len(),
{
    if a.len() > 0 {
        assert(forall|j: int| 0 <= j < a.len() - 1 ==> a.drop_last()[j] == a[j]);
        assert(forall|j: int| 0 <= j < b.len() - 1 ==> b.drop_last()[j] == b[j]);
        lemma_max_rendered_length_congruence(a.drop_last(), b.drop_last());
    }
}

/// One directory's listing as a renderable box.
pub struct DirectoryContainer {
    /// The box title: the directory's display name.
    pub directory_name: String,
    /// The narrowest inner width that fits the title and every rendered name.
    pub minimum_width: usize,
    pub path_to_directory: DirPath,
    /// The directory's entries, sorted ascending by raw name.
    pub directory_item_vec: Vec<DirectoryItem>,
}

impl DirectoryContainer {
    /// Builds the box for `path` from its enumerated entries: each entry
    /// becomes an item rendered under the optional name-length limit, the
    /// entry whose full path equals the selected directory is marked
    /// `DirectoryInPath`, the items are sorted ascending by raw name, and
    /// the minimum width is computed from the title and the rendered names.
    pub fn new(
        path: DirPath,
        directory_entries: Vec<DirectoryEntry>,
        selected_directory_option: &Option<DirPath>,
        name_length_limit: Option<usize>,
    ) -> (result: DirectoryContainer)
        requires
            spec_display_name(path@).len() + 4 <= usize::MAX,
            directory_entries@.len() + 4 <= usize::MAX,
            forall|k: int|
                0 <= k < directory_entries@.len() ==> (#[trigger] directory_entries@[k]).file_name@.len()
                    + 4 <= usize::MAX,
        ensures
            result.well_formed(),
            result.path_to_directory == path,
            result.directory_item_vec@.len() == directory_entries@.len(),
            items_view(result.directory_item_vec@).to_multiset() == spec_expected_items(
                directory_entries@,
                spec_marked_child_name(path@, *selected_directory_option),
                name_length_limit,
            ).to_multiset(),
            forall|j: int|
                0 <= j < result.directory_item_vec@.len() ==> {
                    let item = #[trigger] result.directory_item_vec@[j];
                    item.item_state == spec_marked_state(
                        item.file_name@,
                        spec_marked_child_name(path@, *selected_directory_option),
                    ) && item.rendered_file_name@ == spec_rendered_name(
                        item.file_name@,
                        name_length_limit,
                    )
                },
            forall|j1: int, j2: int|
                0 <= j1 < j2 < result.directory_item_vec@.len() ==> lex_leq(
                    result.directory_item_vec@[j1].file_name@,
                    result.directory_item_vec@[j2].file_name@,
                ),
    {
        let marked_name_option: Option<String> = match selected_directory_option {
            Option::Some(selected_directory) => selected_directory.child_name_within(&path),
            Option::None => Option::None,
        };
        let ghost marked_name = spec_marked_child_name(path@, *selected_directory_option);
        proof {
            match &marked_name_option {
                Option::Some(found) => {
                    assert(marked_name == Option::Some(found@));
                },
                Option::None => {
                    assert(marked_name is None);
                },
            }
        }

        let mut directory_item_vec: Vec<DirectoryItem> = Vec::new();
        let mut entry_index: usize = 0;
        while entry_index < directory_entries.len()
            invariant
                entry_index <= directory_entries@.len(),
                directory_item_vec@.len() == entry_index,
                (match marked_name_option {
                    Option::Some(found) => marked_name == Option::Some(found@),
                    Option::None => marked_name is None,
                }),
                forall|k: int|
                    0 <= k < directory_entries@.len() ==> (
                    #[trigger] directory_entries@[k]).file_name@.len() + 4 <= usize::MAX,
                forall|k: int|
                    0 <= k < entry_index ==> item_view(#[trigger] directory_item_vec@[k])
                        == spec_expected_item(directory_entries@[k], marked_name, name_length_limit),
            decreases directory_entries@.len() - entry_index,
        {
            let entry = &directory_entries[entry_index];
            let mut directory_item = DirectoryItem::new(
                entry.file_name.clone(),
                entry.item_type,
                name_length_limit,
            );

            if let Option::Some(marked) = &marked_name_option {
                if directory_item.file_name.eq(marked) {
                    directory_item.item_state = ItemState::DirectoryInPath;
                }
            }

            let ghost items_before = directory_item_vec@;
            let ghost pushed_item = directory_item;
            directory_item_vec.push(directory_item);
            proof {
                assert(forall|k: int|
                    0 <= k < items_before.len() ==> directory_item_vec@[k] == items_before[k]);
                assert(directory_item_vec@[entry_index as int] == pushed_item);
                let ghost expected_entry = directory_entries@[entry_index as int];
                assert(pushed_item.file_name@ == expected_entry.file_name@);
                assert(pushed_item.rendered_file_name@ == spec_rendered_name(
                    expected_entry.file_name@,
                    name_length_limit,
                ));
                assert(pushed_item.item_state == spec_marked_state(
                    expected_entry.file_name@,
                    marked_name,
                ));
                assert(pushed_item.item_type == expected_entry.item_type);
                assert(item_view(pushed_item) == spec_expected_item(
                    expected_entry,
                    marked_name,
                    name_length_limit,
                ));
            }
            entry_index += 1;
        }

        proof {
            assert(items_view(directory_item_vec@) =~= spec_expected_items(
                directory_entries@,
                marked_name,
                name_length_limit,
            ));
        }
        let ghost items_unsorted = directory_item_vec@;

        sort_directory_items(&mut directory_item_vec);

        proof {
            items_unsorted.to_multiset_ensures();
            directory_item_vec@.to_multiset_ensures();
            assert forall|j: int| 0 <= j < directory_item_vec@.len() implies {
                let item = #[trigger] directory_item_vec@[j];
                item.item_state == spec_marked_state(item.file_name@, marked_name)
                    && item.rendered_file_name@ == spec_rendered_name(
                    item.file_name@,
                    name_length_limit,
                ) && item.rendered_file_name@.len() + 4 <= usize::MAX
            } by {
                let item = directory_item_vec@[j];
                assert(directory_item_vec@.contains(item));
                assert(items_unsorted.to_multiset().count(item) > 0);
                assert(items_unsorted.contains(item));
                let k = choose|k: int| 0 <= k < items_unsorted.len() && items_unsorted[k] == item;
                assert(item_view(items_unsorted[k]) == spec_expected_item(
                    directory_entries@[k],
                    marked_name,
                    name_length_limit,
                ));
            }
            lemma_max_rendered_length_bounds(directory_item_vec@);
        }

        let directory_name: String = path.display_name();
        let length_of_current_directory_name: usize = directory_name.as_str().unicode_len();

        let mut length_of_longest_sorted_name: usize = 0;
        let mut item_index: usize = 0;
        while item_index < directory_item_vec.len()
            invariant
                item_index <= directory_item_vec@.len(),
                forall|j: int|
                    0 <= j < directory_item_vec@.len() ==> (
                    #[trigger] directory_item_vec@[j]).rendered_file_name@.len() + 4 <= usize::MAX,
                length_of_longest_sorted_name == max_rendered_length(
                    directory_item_vec@.take(item_index as int),
                ),
                length_of_longest_sorted_name + 4 <= usize::MAX,
            decreases directory_item_vec@.len() - item_index,
        {
            proof {
                assert(directory_item_vec@.take(item_index + 1).drop_last()
                    =~= directory_item_vec@.take(item_index as int));
            }
            let length_of_file_name: usize = directory_item_vec[item_index].get_file_name_length(
                true,
            );
            if length_of_file_name > length_of_longest_sorted_name {
                length_of_longest_sorted_name = length_of_file_name;
            }
            item_index += 1;
        }
        proof {
            assert(directory_item_vec@.take(directory_item_vec@.len() as int)
                =~= directory_item_vec@);
        }

        let minimum_width: usize = if length_of_current_directory_name
            > length_of_longest_sorted_name {
            length_of_current_directory_name
        } else {
            length_of_longest_sorted_name
        };

        DirectoryContainer {
            directory_name,
            minimum_width,
            path_to_directory: path,
            directory_item_vec,
        }
    }

    /// The box invariant: the minimum width is exactly the largest of the
    /// title length and all rendered-name lengths, and fits the frame.
    pub open spec fn well_formed(&self) -> bool {
        &&& self.minimum_width + 4 <= usize::MAX
        &&& self.directory_item_vec@.len() + 4 <= usize::MAX
        &&& self.directory_name@ == spec_display_name(self.path_to_directory@)
        &&& self.minimum_width == if self.directory_name@.len() > max_rendered_length(
            self.directory_item_vec@,
        ) {
            self.directory_name@.len() as int
        } else {
            max_rendered_length(self.directory_item_vec@)
        }
    }

    /// Full width of the box as drawn: the inner width plus two border
    /// columns and two framing spaces.
    pub fn get_total_width_of_directory_container(&self) -> (result: usize)
        requires
            self.minimum_width + 4 <= usize::MAX,
        ensures
            result == self.minimum_width + 4,
    {
        self.minimum_width + 4
    }

    /// Full height of the box as drawn: one row per entry plus the top
    /// border, the title, the separator and the bottom border.
    pub fn get_total_height_of_directory_container(&self) -> (result: usize)
        requires
            self.directory_item_vec@.len() + 4 <= usize::MAX,
        ensures
            result == self.directory_item_vec@.len() + 4,
    {
        self.get_number_of_directory_items() + 4
    }

    /// How many entries the box lists.
    pub fn get_number_of_directory_items(&self) -> (result: usize)
        ensures
            result == self.directory_item_vec@.len(),
    {
        self.directory_item_vec.len()
    }

    /// The raw (untruncated) name length of every listed entry, in listing
    /// order; this is the sample the outlier advisor works on.
    pub fn get_lengths_of_file_names(&self) -> (result: Vec<usize>)
        ensures
            result@.len() == self.directory_item_vec@.len(),
            forall|i: int|
                0 <= i < result@.len() ==> result@[i]
                    == self.directory_item_vec@[i].file_name@.len(),
    {
        let mut file_name_length_vec: Vec<usize> = Vec::new();
        let mut i: usize = 0;
        while i < self.directory_item_vec.len()
            invariant
                i <= self.directory_item_vec@.len(),
                file_name_length_vec@.len() == i,
                forall|k: int|
                    0 <= k < i ==> file_name_length_vec@[k]
                        == self.directory_item_vec@[k].file_name@.len(),
            decreases self.directory_item_vec@.len() - i,
        {
            file_name_length_vec.push(self.directory_item_vec[i].get_file_name_length(false));
            i += 1;
        }
        file_name_length_vec
    }

    /// The text of one row of the box, always exactly the box's total width
    /// wide.  Rows at or past the bottom border all yield the border; padding
    /// past the box's height is the row planner's job.
    pub fn print_directory_container_by_row(&self, row_number: usize) -> (result: String)
        requires
            self.well_formed(),
        ensures
            result@ == spec_render_row(*self, row_number as int),
            result@.len() == self.minimum_width + 4,
    {
        let total_height = self.get_total_height_of_directory_container();
        let result: String = if row_number < total_height - 1 {
            if row_number == 0 {
                self.make_horizontal_border()
            } else if row_number == 1 {
                let mut row = String::new();
                push_char(&mut row, '|');
                let centered_title = add_padding_to_center_string(
                    self.directory_name.as_str(),
                    self.minimum_width + 2,
                );
                row.append(centered_title.as_str());
                push_char(&mut row, '|');
                row
            } else if row_number == 2 {
                let mut row = String::new();
                push_char(&mut row, '|');
                let separator = make_repeated_char_string('=', self.minimum_width + 2);
                row.append(separator.as_str());
                push_char(&mut row, '|');
                row
            } else {
                proof {
                    lemma_max_rendered_length_bounds(self.directory_item_vec@);
                }
                let directory_item = &self.directory_item_vec[row_number - 3];
                let mut row = String::new();
                push_char(&mut row, '|');
                push_char(&mut row, ' ');
                let styled_name = directory_item.get_file_name(true);
                row.append(styled_name.as_str());
                let length_of_current_file_name: usize = directory_item.get_file_name_length(true);
                let difference: usize = self.minimum_width - length_of_current_file_name;
                let padding = make_repeated_char_string(' ', difference);
                row.append(padding.as_str());
                push_char(&mut row, ' ');
                push_char(&mut row, '|');
                row
            }
        } else {
            self.make_horizontal_border()
        };
        proof {
            assert(result@ =~= spec_render_row(*self, row_number as int));
        }
        result
    }

    /// The top or bottom border: dashes over the inner width, framed by one
    /// space on each side.
    fn make_horizontal_border(&self) -> (result: String)
        requires
            self.minimum_width + 4 <= usize::MAX,
        ensures
            result@ == seq![' '] + repeat_char('-', self.minimum_width + 2) + seq![' '],
    {
        let mut border = String::new();
        push_char(&mut border, ' ');
        let dashes = make_repeated_char_string('-', self.minimum_width + 2);
        border.append(dashes.as_str());
        push_char(&mut border, ' ');
        proof {
            assert(border@ =~= seq![' '] + repeat_char('-', self.minimum_width + 2) + seq![' ']);
        }
        border
    }
}

/// Primitive name-truncation strategies: leave names alone, cut the
/// statistical upper outliers down to the longest unremarkable length, or
/// cut every name to a fixed width.
pub enum LowLevelTruncationOptions {
    NoTruncation,
    ByFileNameLength,
    Constant(usize),
}

/// Automatic modes that pick a primitive strategy: `Statistical` drives
/// `ByFileNameLength`; `FitAllDirectoryContainersInOneRow` drives `Constant`,
/// sized so the whole chain can share one terminal row.
pub enum AutomaticTruncationOptions {
    Statistical,
    FitAllDirectoryContainersInOneRow,
}

/// The largest value at most the (quadrupled) bound, `0` when none is.
pub open spec fn max_value_within(s: Seq<usize>, quadrupled_bound: int) -> usize
    decreases s.len(),
{
    if s.len() == 0 {
        0
    } else {
        let rest = max_value_within(s.drop_last(), quadrupled_bound);
        if 4 * s.last() <= quadrupled_bound && s.last() > rest {
            s.last()
        } else {
            rest
        }
    }
}

/// The rendered-length limit the statistical strategy settles on: the
/// longest name length that is not an upper outlier, or no limit at all when
/// the lengths show no upper outlier.
pub open spec fn spec_statistical_limit(lengths: Seq<usize>) -> Option<usize> {
    let t = sorted_ascending(lengths);
    let high = values_above(t, quadrupled_lower_fence(t), quadrupled_upper_fence(t));
    if t.len() < 2 || high.len() == 0 {
        Option::None
    } else {
        Option::Some(max_value_within(t, quadrupled_upper_fence(t)))
    }
}

/// An identical copy of a vector of lengths.
fn copy_values(values: &Vec<usize>) -> (result: Vec<usize>)
    ensures
        result@ == values@,
{
    let mut result: Vec<usize> = Vec::new();
    let mut i: usize = 0;
    while i < values.len()
        invariant
            i <= values@.len(),
            result@.len() == i,
            forall|k: int| 0 <= k < i ==> result@[k] == values@[k],
        decreases values@.len() - i,
    {
        result.push(values[i]);
        i += 1;
    }
    proof {
        assert(result@ =~= values@);
    }
    result
}

/// The rendered-name length limit a primitive strategy imposes, given the
/// raw name lengths of the listing at hand: none, the statistical limit, or
/// the fixed width.
pub fn get_truncation_setting(
    low_level_truncation_option: &LowLevelTruncationOptions,
    file_name_lengths: &Vec<usize>,
) -> (result: Option<usize>)
    ensures
        match *low_level_truncation_option {
            LowLevelTruncationOptions::NoTruncation => result is None,
            LowLevelTruncationOptions::ByFileNameLength => result == spec_statistical_limit(
                file_name_lengths@,
            ),
            LowLevelTruncationOptions::Constant(width) => result == Option::Some(width),
        },
{
    match low_level_truncation_option {
        LowLevelTruncationOptions::NoTruncation => Option::None,
        LowLevelTruncationOptions::Constant(width) => Option::Some(*width),
        LowLevelTruncationOptions::ByFileNameLength => {
            let mut sorted_lengths = copy_values(file_name_lengths);
            sort_values(&mut sorted_lengths);
            let ghost t = sorted_lengths@;
            match get_quartile_values(sorted_lengths.as_slice()) {
                Option::None => Option::None,
                Option::Some((q1_value, _, q3_value)) => {
                    proof {
                        lemma_doubled_median_bounds(lower_half(t));
                        lemma_doubled_median_bounds(upper_half(t));
                    }
                    let q1_scaled = q1_value as i128;
                    let q3_scaled = q3_value as i128;
                    let interquartile_range: i128 = q3_scaled - q1_scaled;
                    let lower_fence: i128 = 2 * q1_scaled - 3 * interquartile_range;
                    let upper_fence: i128 = 2 * q3_scaled + 3 * interquartile_range;

                    let mut found_upper_outlier = false;
                    let mut largest_within: usize = 0;
                    let mut i: usize = 0;
                    while i < sorted_lengths.len()
                        invariant
                            i <= t.len(),
                            sorted_lengths@ == t,
                            t.len() >= 2,
                            lower_fence == quadrupled_lower_fence(t),
                            upper_fence == quadrupled_upper_fence(t),
                            found_upper_outlier <==> values_above(
                                t.take(i as int),
                                quadrupled_lower_fence(t),
                                quadrupled_upper_fence(t),
                            ).len() > 0,
                            largest_within == max_value_within(
                                t.take(i as int),
                                quadrupled_upper_fence(t),
                            ),
                        decreases t.len() - i,
                    {
                        proof {
                            assert(t.take(i + 1).drop_last() =~= t.take(i as int));
                        }
                        let value = sorted_lengths[i];
                        let value_scaled: i128 = 4 * (value as i128);
                        if !(value_scaled < lower_fence) && value_scaled > upper_fence {
                            found_upper_outlier = true;
                        }
                        if value_scaled <= upper_fence && value > largest_within {
                            largest_within = value;
                        }
                        i += 1;
                    }
                    proof {
                        assert(t.take(t.len() as int) =~= t);
                    }

                    if found_upper_outlier {
                        Option::Some(largest_within)
                    } else {
                        Option::None
                    }
                },
            }
        },
    }
}

/// The per-name width budget that lets a chain of equally framed boxes share
/// one terminal row: the width left over once every box's four frame columns
/// and the spacing between boxes are paid for, split evenly.
pub open spec fn spec_fit_all_width(
    number_of_containers: int,
    terminal_width: int,
    spacing: int,
) -> int {
    let frame = 4 * number_of_containers + spacing * (number_of_containers - 1);
    if frame >= terminal_width {
        0
    } else {
        (terminal_width - frame) / number_of_containers
    }
}

/// Resolves an automatic truncation mode to the primitive strategy it
/// drives: `Statistical` to `ByFileNameLength`, the one-row mode to a
/// `Constant` width budgeted from the chain size and the terminal width.
pub fn select_low_level_truncation_option(
    automatic_truncation_option: &AutomaticTruncationOptions,
    number_of_containers: usize,
    terminal_width: usize,
    spacing: usize,
) -> (result: LowLevelTruncationOptions)
    requires
        number_of_containers >= 1,
    ensures
        *automatic_truncation_option matches AutomaticTruncationOptions::Statistical ==> result
            matches LowLevelTruncationOptions::ByFileNameLength,
        *automatic_truncation_option
            matches AutomaticTruncationOptions::FitAllDirectoryContainersInOneRow ==> result
            matches LowLevelTruncationOptions::Constant(width) && width == spec_fit_all_width(
            number_of_containers as int,
            terminal_width as int,
            spacing as int,
        ),
{
    match automatic_truncation_option {
        AutomaticTruncationOptions::Statistical => LowLevelTruncationOptions::ByFileNameLength,
        AutomaticTruncationOptions::FitAllDirectoryContainersInOneRow => {
            let container_count = number_of_containers as u128;
            let spacing_total = (spacing as u128).checked_mul(container_count - 1);
            match spacing_total {
                Option::None => LowLevelTruncationOptions::Constant(0),
                Option::Some(between_boxes) => {
                    match between_boxes.checked_add(4 * container_count) {
                        Option::None => LowLevelTruncationOptions::Constant(0),
                        Option::Some(frame) => {
                            if frame >= terminal_width as u128 {
                                LowLevelTruncationOptions::Constant(0)
                            } else {
                                let width = (terminal_width as u128 - frame) / container_count;
                                LowLevelTruncationOptions::Constant(width as usize)
                            }
                        },
                    }
                },
            }
        },
    }
}

} // verus!
