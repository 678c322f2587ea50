//! The breadcrumb chain: one directory box per ancestor of a target path,
//! ordered root first, wrapped greedily across terminal rows and rendered
//! line by line.

use vstd::prelude::*;

pub mod dir_path;
pub mod directory_container;
pub mod directory_item;

use crate::path_container::dir_path::DirPath;
use crate::path_container::directory_container::{
    items_view,
    lex_leq,
    spec_expected_items,
    spec_marked_state,
    spec_render_row,
    DirectoryContainer,
    DirectoryEntry,
};
use crate::path_container::directory_item::{DirectoryItem, ItemState};
use crate::utils::string::{make_repeated_char_string, repeat_char};

verus! {

/// Relies on `term_size::dimensions`: the host terminal's `(columns, rows)`,
/// if they can be determined.  The result depends on the environment alone,
/// so nothing more is promised of it.
#[verifier::external_body]
pub fn get_terminal_dimensions() -> (result: Option<(usize, usize)>) {
    term_size::dimensions()
}

/// The drawn width of each box of the chain, in order.
pub open spec fn container_widths(containers: Seq<DirectoryContainer>) -> Seq<int> {
    containers.map_values(|container: DirectoryContainer| container.minimum_width as int + 4)
}

/// Whether the greedy packer accepts one more box into the row under
/// construction: either the row including the box and its trailing spacing
/// still leaves room (`< terminal_width`), or it does once the trailing
/// spacing, never charged after a row's last box, is discounted.
pub open spec fn accepts(running: int, width: int, terminal_width: int, spacing: int) -> bool {
    running + width + spacing < terminal_width || running + width < terminal_width
}

/// Where the row that already spans `[.., end)` with `running` charged width
/// closes: boxes are accepted greedily until one does not fit.
pub open spec fn spec_row_end_from(
    widths: Seq<int>,
    terminal_width: int,
    spacing: int,
    end: int,
    running: int,
) -> int
    decreases widths.len() - end,
    when 0 <= end <= widths.len()
{
    if end >= widths.len() {
        end
    } else if accepts(running, widths[end], terminal_width, spacing) {
        spec_row_end_from(widths, terminal_width, spacing, end + 1, running + widths[end] + spacing)
    } else {
        end
    }
}

/// Where the row starting at `start` closes.  The first box is always
/// admitted, whatever its width: this is the planner's forward-progress
/// rule, which keeps an oversized box from stalling the cursor forever.
pub open spec fn spec_row_end(
    widths: Seq<int>,
    terminal_width: int,
    spacing: int,
    start: int,
) -> int {
    if !(0 <= start < widths.len()) {
        start
    } else {
        spec_row_end_from(widths, terminal_width, spacing, start + 1, widths[start] + spacing)
    }
}

/// The summed widths of the boxes in `[start, end)`.
pub open spec fn range_sum(widths: Seq<int>, start: int, end: int) -> int
    decreases end - start,
{
    if end <= start {
        0
    } else {
        range_sum(widths, start, end - 1) + widths[end - 1]
    }
}

/// The tallest drawn height among the boxes in `[start, end)`, `0` when the
/// range is empty.
pub open spec fn range_max_height(containers: Seq<DirectoryContainer>, start: int, end: int) -> int
    decreases end - start,
{
    if end <= start || end > containers.len() || start < 0 {
        0
    } else {
        let rest = range_max_height(containers, start, end - 1);
        let height = containers[end - 1].directory_item_vec@.len() + 4;
        if height > rest {
            height as int
        } else {
            rest
        }
    }
}

proof fn lemma_row_end_from_fits(
    widths: Seq<int>,
    terminal_width: int,
    spacing: int,
    start: int,
    end: int,
    running: int,
)
    requires
        0 <= start < end <= widths.len(),
        spacing >= 0,
        forall|i: int| 0 <= i < widths.len() ==> widths[i] >= 0,
        running == range_sum(widths, start, end) + spacing * (end - start),
        range_sum(widths, start, end) + spacing * (end - start - 1) < terminal_width,
    ensures
        ({
            let closed = spec_row_end_from(widths, terminal_width, spacing, end, running);
            end <= closed <= widths.len() && range_sum(widths, start, closed) + spacing * (closed
                - start - 1) < terminal_width
        }),
    decreases widths.len() - end,
{
    if end < widths.len() && accepts(running, widths[end], terminal_width, spacing) {
        assert(spacing * (end + 1 - start) == spacing * (end - start) + spacing)
            by (nonlinear_arith);
        assert(spacing * (end + 1 - start - 1) == spacing * (end - start - 1) + spacing)
            by (nonlinear_arith);
        lemma_row_end_from_fits(
            widths,
            terminal_width,
            spacing,
            start,
            end + 1,
            running + widths[end] + spacing,
        );
    }
}

/// The law of the row planner: every row is non-empty, and its boxes plus
/// the spacing between them fit strictly inside the terminal width — except
/// when a single box alone is at least as wide as the terminal, in which
/// case the row holds exactly that one box.
pub proof fn lemma_row_fits(widths: Seq<int>, terminal_width: int, spacing: int, start: int)
    requires
        0 <= start < widths.len(),
        spacing >= 0,
        forall|i: int| 0 <= i < widths.len() ==> widths[i] >= 0,
    ensures
        ({
            let closed = spec_row_end(widths, terminal_width, spacing, start);
            start < closed <= widths.len() && (range_sum(widths, start, closed) + spacing * (closed
                - start - 1) < terminal_width || (closed == start + 1 && widths[start]
                >= terminal_width))
        }),
{
    assert(range_sum(widths, start, start) == 0);
    assert(range_sum(widths, start, start + 1) == widths[start]);
    if widths[start] < terminal_width {
        assert(spacing * (start + 1 - start) == spacing) by (nonlinear_arith);
        assert(spacing * (start + 1 - start - 1) == 0) by (nonlinear_arith);
        lemma_row_end_from_fits(
            widths,
            terminal_width,
            spacing,
            start,
            start + 1,
            widths[start] + spacing,
        );
    } else {
        if start + 1 < widths.len() {
            assert(!accepts(
                widths[start] + spacing,
                widths[start + 1],
                terminal_width,
                spacing,
            ));
        }
        assert(spec_row_end(widths, terminal_width, spacing, start) == start + 1);
    }
}

/// What box `x` contributes to one output line: its own row text while the
/// line is within its height, blank fill of its width below it.
pub open spec fn spec_box_cell(
    container: DirectoryContainer,
    row_number: int,
    rows_char: char,
) -> Seq<char> {
    if row_number < container.directory_item_vec@.len() + 4 {
        spec_render_row(container, row_number)
    } else {
        repeat_char(rows_char, container.minimum_width as int + 4)
    }
}

/// One full output line for the row `[start, end)`: each box's cell, with
/// the spacing fill between boxes but not after the last.
pub open spec fn spec_line_from(
    containers: Seq<DirectoryContainer>,
    start: int,
    end: int,
    row_number: int,
    spacing: int,
    spacing_char: char,
    rows_char: char,
) -> Seq<char>
    decreases end - start,
{
    if start < 0 || start >= end || end > containers.len() {
        Seq::empty()
    } else {
        let cell = spec_box_cell(containers[start], row_number, rows_char);
        let separator = if start + 1 < end {
            repeat_char(spacing_char, spacing)
        } else {
            Seq::<char>::empty()
        };
        cell + separator + spec_line_from(
            containers,
            start + 1,
            end,
            row_number,
            spacing,
            spacing_char,
            rows_char,
        )
    }
}

/// All output lines of the row `[start, end)`: as many lines as the tallest
/// box plus the row spacing.
pub open spec fn spec_row_block(
    containers: Seq<DirectoryContainer>,
    start: int,
    end: int,
    spacing: int,
    row_spacing: int,
    spacing_char: char,
    rows_char: char,
) -> Seq<Seq<char>> {
    Seq::new(
        (range_max_height(containers, start, end) + row_spacing) as nat,
        |row_number: int|
            spec_line_from(containers, start, end, row_number, spacing, spacing_char, rows_char),
    )
}

/// The whole rendering from box `start` on: the greedy row there, then the
/// rest.  The planner's forward-progress rule guarantees every row closes
/// past its start, so the fallback `start + 1` in this definition is never
/// the one taken; it only makes the recursion visibly bounded.
pub open spec fn spec_render_chain(
    containers: Seq<DirectoryContainer>,
    terminal_width: int,
    spacing: int,
    row_spacing: int,
    spacing_char: char,
    rows_char: char,
    start: int,
) -> Seq<Seq<char>>
    decreases containers.len() - start,
    when start >= 0
{
    if start >= containers.len() {
        Seq::empty()
    } else {
        let closed = spec_row_end(container_widths(containers), terminal_width, spacing, start);
        let end = if start < closed <= containers.len() {
            closed
        } else {
            start + 1
        };
        spec_row_block(containers, start, end, spacing, row_spacing, spacing_char, rows_char)
            + spec_render_chain(
            containers,
            terminal_width,
            spacing,
            row_spacing,
            spacing_char,
            rows_char,
            end,
        )
    }
}

/// The same listing with the first item's state put back to `Normal`: what
/// the leaf box held before its default cursor was selected.
pub open spec fn items_with_first_unselected(items: Seq<DirectoryItem>) -> Seq<DirectoryItem> {
    if items.len() == 0 {
        items
    } else {
        items.update(0, DirectoryItem { item_state: ItemState::Normal, ..items[0] })
    }
}

/// The breadcrumb chain for one target path, with the layout parameters the
/// renderer uses.
pub struct PathContainer {
    current_path: DirPath,
    directory_container_vec: Vec<DirectoryContainer>,
    spacing_between_directory_containers: usize,
    spacing_between_directory_containers_char: char,
    spacing_between_directory_container_rows: usize,
    spacing_between_directory_container_rows_char: char,
    terminal_dimensions: (usize, usize),
}

impl PathContainer {
    /// The chain of boxes, root first.
    pub closed spec fn containers(&self) -> Seq<DirectoryContainer> {
        self.directory_container_vec@
    }

    /// The target path the chain was built for.
    pub closed spec fn spec_current_path(&self) -> Seq<Seq<char>> {
        self.current_path@
    }

    /// The `(columns, rows)` the renderer lays out for.
    pub closed spec fn spec_terminal_dimensions(&self) -> (usize, usize) {
        self.terminal_dimensions
    }

    /// Horizontal spacing between boxes in a row.
    pub closed spec fn spec_container_spacing(&self) -> usize {
        self.spacing_between_directory_containers
    }

    /// Blank lines between rendered rows.
    pub closed spec fn spec_row_spacing(&self) -> usize {
        self.spacing_between_directory_container_rows
    }

    /// The fill character between boxes in a row.
    pub closed spec fn spec_container_spacing_char(&self) -> char {
        self.spacing_between_directory_containers_char
    }

    /// The fill character below a box shorter than its row.
    pub closed spec fn spec_row_spacing_char(&self) -> char {
        self.spacing_between_directory_container_rows_char
    }

    /// Every box of the chain satisfies its own invariant.
    pub open spec fn chain_well_formed(&self) -> bool {
        forall|i: int|
            0 <= i < self.containers().len() ==> (#[trigger] self.containers()[i]).well_formed()
    }

    /// The navigation-state law of a freshly built chain: the one `Selected`
    /// item is the first item of the leaf box, and an item is
    /// `DirectoryInPath` exactly when its box is not the leaf and its raw
    /// name is the component the target path continues with there.
    pub open spec fn navigation_states_valid(&self) -> bool {
        forall|i: int, j: int|
            0 <= i < self.containers().len() && 0 <= j < (
            #[trigger] self.containers()[i]).directory_item_vec@.len() ==> (
            #[trigger] self.containers()[i].directory_item_vec@[j]).item_state == (
            if i == self.containers().len() - 1 {
                if j == 0 {
                    ItemState::Selected
                } else {
                    ItemState::Normal
                }
            } else if self.containers()[i].directory_item_vec@[j].file_name@
                == self.spec_current_path()[i] {
                ItemState::DirectoryInPath
            } else {
                ItemState::Normal
            })
    }

    /// Builds the chain for `path` from the listings of its ancestors,
    /// `directory_listings[d]` being the listing of the ancestor `d` levels
    /// below the root.  Boxes are built leaf first, each marking the child
    /// that continues the path, and prepended, so the chain reads root
    /// first; finally the leaf box's first sorted item becomes the cursor.
    pub fn new(
        path: DirPath,
        directory_listings: Vec<Vec<DirectoryEntry>>,
        terminal_dimensions: (usize, usize),
    ) -> (result: PathContainer)
        requires
            directory_listings@.len() == path@.len() + 1,
            forall|d: int|
                0 <= d < path@.len() ==> (#[trigger] path@[d]).len() + 4 <= usize::MAX,
            forall|d: int|
                0 <= d < directory_listings@.len() ==> (#[trigger] directory_listings@[d])@.len()
                    + 4 <= usize::MAX,
            forall|d: int, k: int|
                0 <= d < directory_listings@.len() && 0 <= k < directory_listings@[d]@.len() ==> (
                #[trigger] directory_listings@[d]@[k]).file_name@.len() + 4 <= usize::MAX,
        ensures
            result.containers().len() == path@.len() + 1,
            result.spec_current_path() == path@,
            result.spec_terminal_dimensions() == terminal_dimensions,
            result.spec_container_spacing() == 1,
            result.spec_row_spacing() == 1,
            result.spec_container_spacing_char() == ' ',
            result.spec_row_spacing_char() == ' ',
            result.chain_well_formed(),
            result.navigation_states_valid(),
            forall|i: int|
                0 <= i < result.containers().len() ==> (
                #[trigger] result.containers()[i]).path_to_directory@ == path@.take(i),
            result.containers()[0].path_to_directory@ == Seq::<Seq<char>>::empty(),
            result.containers()[path@.len() as int].path_to_directory@ == path@,
            forall|i: int|
                0 <= i < result.containers().len() ==> (
                #[trigger] result.containers()[i]).directory_item_vec@.len()
                    == directory_listings@[i]@.len(),
            forall|i: int|
                0 <= i < result.containers().len() - 1 ==> items_view(
                    (#[trigger] result.containers()[i]).directory_item_vec@,
                ).to_multiset() == spec_expected_items(
                    directory_listings@[i]@,
                    Option::Some(path@[i]),
                    Option::None,
                ).to_multiset(),
            items_view(
                items_with_first_unselected(
                    result.containers()[path@.len() as int].directory_item_vec@,
                ),
            ).to_multiset() == spec_expected_items(
                directory_listings@[path@.len() as int]@,
                Option::None,
                Option::None,
            ).to_multiset(),
            forall|i: int, j: int|
                0 <= i < result.containers().len() && 0 <= j < (
                #[trigger] result.containers()[i]).directory_item_vec@.len() ==> (
                #[trigger] result.containers()[i].directory_item_vec@[j]).rendered_file_name@
                    == result.containers()[i].directory_item_vec@[j].file_name@,
            forall|i: int, j1: int, j2: int|
                #![trigger result.containers()[i].directory_item_vec@[j1], result.containers()[i].directory_item_vec@[j2]]
                0 <= i < result.containers().len() && 0 <= j1 < j2
                    < result.containers()[i].directory_item_vec@.len() ==> lex_leq(
                    result.containers()[i].directory_item_vec@[j1].file_name@,
                    result.containers()[i].directory_item_vec@[j2].file_name@,
                ),
    {
        let ghost original_listings = directory_listings@;
        let mut directory_container_vec: Vec<DirectoryContainer> = Vec::new();
        let mut remaining_listings = directory_listings;
        let mut parent_path: DirPath = path.duplicate();

        loop
            invariant_except_break
                1 <= remaining_listings@.len() <= original_listings.len(),
                original_listings.len() == path@.len() + 1,
                parent_path@ == path@.take(remaining_listings@.len() - 1),
                remaining_listings@ == original_listings.take(remaining_listings@.len() as int),
                directory_container_vec@.len() == original_listings.len()
                    - remaining_listings@.len(),
                forall|d: int| 0 <= d < path@.len() ==> (#[trigger] path@[d]).len() + 4
                    <= usize::MAX,
                forall|d: int|
                    0 <= d < original_listings.len() ==> (#[trigger] original_listings[d])@.len()
                        + 4 <= usize::MAX,
                forall|d: int, k: int|
                    0 <= d < original_listings.len() && 0 <= k < original_listings[d]@.len() ==> (
                    #[trigger] original_listings[d]@[k]).file_name@.len() + 4 <= usize::MAX,
                forall|i: int|
                    0 <= i < directory_container_vec@.len() ==> {
                        let global = remaining_listings@.len() + i;
                        let container = #[trigger] directory_container_vec@[i];
                        container.well_formed() && container.path_to_directory@ == path@.take(
                            global,
                        ) && container.directory_item_vec@.len() == original_listings[global]@.len()
                    },
                forall|i: int|
                    0 <= i < directory_container_vec@.len() ==> items_view(
                        (#[trigger] directory_container_vec@[i]).directory_item_vec@,
                    ).to_multiset() == spec_expected_items(
                        original_listings[remaining_listings@.len() + i]@,
                        if remaining_listings@.len() + i < path@.len() {
                            Option::Some(path@[remaining_listings@.len() + i])
                        } else {
                            Option::None
                        },
                        Option::None,
                    ).to_multiset(),
                forall|i: int, j: int|
                    0 <= i < directory_container_vec@.len() && 0 <= j < (
                    #[trigger] directory_container_vec@[i]).directory_item_vec@.len() ==> {
                        let global = remaining_listings@.len() + i;
                        let item = #[trigger] directory_container_vec@[i].directory_item_vec@[j];
                        item.item_state == spec_marked_state(
                            item.file_name@,
                            if global < path@.len() {
                                Option::Some(path@[global])
                            } else {
                                Option::None
                            },
                        ) && item.rendered_file_name@ == item.file_name@
                    },
                forall|i: int, j1: int, j2: int|
                    #![trigger directory_container_vec@[i].directory_item_vec@[j1], directory_container_vec@[i].directory_item_vec@[j2]]
                    0 <= i < directory_container_vec@.len() && 0 <= j1 < j2
                        < directory_container_vec@[i].directory_item_vec@.len() ==> lex_leq(
                        directory_container_vec@[i].directory_item_vec@[j1].file_name@,
                        directory_container_vec@[i].directory_item_vec@[j2].file_name@,
                    ),
            ensures
                directory_container_vec@.len() == original_listings.len(),
                forall|i: int|
                    0 <= i < directory_container_vec@.len() ==> {
                        let container = #[trigger] directory_container_vec@[i];
                        container.well_formed() && container.path_to_directory@ == path@.take(i)
                            && container.directory_item_vec@.len() == original_listings[i]@.len()
                    },
                forall|i: int|
                    0 <= i < directory_container_vec@.len() ==> items_view(
                        (#[trigger] directory_container_vec@[i]).directory_item_vec@,
                    ).to_multiset() == spec_expected_items(
                        original_listings[i]@,
                        if i < path@.len() {
                            Option::Some(path@[i])
                        } else {
                            Option::None
                        },
                        Option::None,
                    ).to_multiset(),
                forall|i: int, j: int|
                    0 <= i < directory_container_vec@.len() && 0 <= j < (
                    #[trigger] directory_container_vec@[i]).directory_item_vec@.len() ==> {
                        let item = #[trigger] directory_container_vec@[i].directory_item_vec@[j];
                        item.item_state == spec_marked_state(
                            item.file_name@,
                            if i < path@.len() {
                                Option::Some(path@[i])
                            } else {
                                Option::None
                            },
                        ) && item.rendered_file_name@ == item.file_name@
                    },
                forall|i: int, j1: int, j2: int|
                    #![trigger directory_container_vec@[i].directory_item_vec@[j1], directory_container_vec@[i].directory_item_vec@[j2]]
                    0 <= i < directory_container_vec@.len() && 0 <= j1 < j2
                        < directory_container_vec@[i].directory_item_vec@.len() ==> lex_leq(
                        directory_container_vec@[i].directory_item_vec@[j1].file_name@,
                        directory_container_vec@[i].directory_item_vec@[j2].file_name@,
                    ),
            decreases remaining_listings@.len(),
        {
            let ghost depth = parent_path@.len();
            let entries: Vec<DirectoryEntry> = match remaining_listings.pop() {
                Option::Some(entries) => entries,
                Option::None => {
                    proof {
                        assert(false);
                    }
                    Vec::new()
                },
            };
            proof {
                assert(remaining_listings@
                    =~= original_listings.take(remaining_listings@.len() as int));
                assert(entries@ == original_listings[depth as int]@);
            }

            let selected_directory_option = PathContainer::get_selected_directory_option(
                &directory_container_vec,
            );

            let ghost marked = directory_container::spec_marked_child_name(
                parent_path@,
                selected_directory_option,
            );
            proof {
                match &selected_directory_option {
                    Option::Some(child_path) => {
                        assert(child_path@ == path@.take(depth as int + 1));
                        assert(path@.take(depth as int + 1) =~= path@.take(depth as int).push(
                            path@[depth as int],
                        ));
                        assert(marked == Option::Some(path@[depth as int]));
                    },
                    Option::None => {
                        assert(marked is None);
                    },
                }
            }

            let container = DirectoryContainer::new(
                parent_path.duplicate(),
                entries,
                &selected_directory_option,
                Option::None,
            );
            directory_container_vec.insert(0, container);

            match parent_path.parent() {
                Option::Some(shorter) => {
                    proof {
                        assert(path@.take(remaining_listings@.len() - 1) =~= parent_path@
                            .drop_last());
                    }
                    parent_path = shorter;
                },
                Option::None => {
                    break ;
                },
            }
        }

        let ghost chain_before = directory_container_vec@;

        PathContainer::select_first_directory_in_current_directory_container(
            &mut directory_container_vec,
        );

        proof {
            assert(path@.take(0) =~= Seq::<Seq<char>>::empty());
            assert(path@.take(path@.len() as int) =~= path@);
            let last = chain_before.len() - 1;
            assert(directory_container_vec@[last].directory_item_vec@.len()
                == chain_before[last].directory_item_vec@.len());
            directory_container::lemma_max_rendered_length_congruence(
                directory_container_vec@[last].directory_item_vec@,
                chain_before[last].directory_item_vec@,
            );
            assert(items_with_first_unselected(directory_container_vec@[last].directory_item_vec@)
                =~= chain_before[last].directory_item_vec@);
        }

        let result = PathContainer {
            current_path: path,
            directory_container_vec,
            spacing_between_directory_containers: 1,
            spacing_between_directory_containers_char: ' ',
            spacing_between_directory_container_rows: 1,
            spacing_between_directory_container_rows_char: ' ',
            terminal_dimensions,
        };
        result
    }

    /// The path of the most recently built box — the child whose entry the
    /// next box up must mark — or `None` while no box exists yet.
    pub fn get_selected_directory_option(
        directory_container_vec: &Vec<DirectoryContainer>,
    ) -> (result: Option<DirPath>)
        ensures
            match result {
                Some(selected) => directory_container_vec@.len() > 0 && selected@
                    == directory_container_vec@[0].path_to_directory@,
                None => directory_container_vec@.len() == 0,
            },
    {
        if directory_container_vec.is_empty() {
            return None;
        }
        Some(directory_container_vec[0].path_to_directory.duplicate())
    }

    /// Marks the first item of the last (leaf) box `Selected`, the default
    /// navigation cursor; a chain or leaf with nothing to select is left
    /// unchanged.
    pub fn select_first_directory_in_current_directory_container(
        directory_container_vec: &mut Vec<DirectoryContainer>,
    )
        ensures
            final(directory_container_vec)@.len() == old(directory_container_vec)@.len(),
            forall|i: int|
                0 <= i < old(directory_container_vec)@.len() - 1
                    ==> final(directory_container_vec)@[i] == old(directory_container_vec)@[i],
            old(directory_container_vec)@.len() == 0 ==> final(directory_container_vec)@ == old(
                directory_container_vec,
            )@,
            old(directory_container_vec)@.len() > 0 ==> {
                let last = old(directory_container_vec)@.len() - 1;
                let before = old(directory_container_vec)@[last];
                let after = final(directory_container_vec)@[last];
                after.directory_name == before.directory_name && after.minimum_width
                    == before.minimum_width && after.path_to_directory == before.path_to_directory
                    && after.directory_item_vec@.len() == before.directory_item_vec@.len() && (
                forall|j: int|
                    0 <= j < before.directory_item_vec@.len() ==> {
                        let item_before = before.directory_item_vec@[j];
                        let item_after = #[trigger] after.directory_item_vec@[j];
                        item_after.file_name == item_before.file_name
                            && item_after.rendered_file_name == item_before.rendered_file_name
                            && item_after.item_type == item_before.item_type
                            && item_after.item_state == (if j == 0 {
                            ItemState::Selected
                        } else {
                            item_before.item_state
                        })
                    })
            },
    {
        if directory_container_vec.len() == 0 {
            return ;
        }
        let last_index = directory_container_vec.len() - 1;
        let mut leaf_container = directory_container_vec.remove(last_index);
        let ghost leaf_before = leaf_container;
        if leaf_container.directory_item_vec.len() > 0 {
            let ghost items_before = leaf_container.directory_item_vec@;
            let mut first_item = leaf_container.directory_item_vec.remove(0);
            first_item.item_state = ItemState::Selected;
            let ghost selected_item = first_item;
            leaf_container.directory_item_vec.insert(0, first_item);
            proof {
                assert(leaf_container.directory_item_vec@ =~= items_before.update(
                    0,
                    selected_item,
                ));
            }
        }
        directory_container_vec.push(leaf_container);
        proof {
            assert(forall|i: int|
                0 <= i < old(directory_container_vec)@.len() - 1 ==> directory_container_vec@[i]
                    == old(directory_container_vec)@[i]);
        }
    }

    /// How many boxes the chain holds.
    pub fn get_number_of_directory_containers(&self) -> (result: usize)
        ensures
            result == self.containers().len(),
    {
        self.directory_container_vec.len()
    }

    /// The box at `index`, root first.
    pub fn get_directory_container(&self, index: usize) -> (result: &DirectoryContainer)
        requires
            index < self.containers().len(),
        ensures
            *result == self.containers()[index as int],
    {
        &self.directory_container_vec[index]
    }

    /// Closes the next display row: the result's first component is the row's
    /// start (the end handed in), its second where the greedy packer closes
    /// the row.  The first box is always admitted — the forward-progress
    /// rule — so a row starting before the end of the chain is never empty.
    pub fn update_start_and_end_iteration_tuple(
        &self,
        start_and_end_iteration_tuple: (usize, usize),
    ) -> (result: (usize, usize))
        requires
            self.chain_well_formed(),
            start_and_end_iteration_tuple.1 <= self.containers().len(),
        ensures
            result.0 == start_and_end_iteration_tuple.1,
            result.1 as int == spec_row_end(
                container_widths(self.containers()),
                self.spec_terminal_dimensions().0 as int,
                self.spec_container_spacing() as int,
                result.0 as int,
            ),
            result.0 <= result.1 <= self.containers().len(),
            result.0 < self.containers().len() ==> result.0 < result.1,
    {
        let start: usize = start_and_end_iteration_tuple.1;
        let count: usize = self.directory_container_vec.len();
        let ghost widths = container_widths(self.containers());
        let ghost terminal_width_spec = self.spec_terminal_dimensions().0 as int;
        let ghost spacing_spec = self.spec_container_spacing() as int;
        if start >= count {
            return (start, start);
        }

        let terminal_width: usize = self.terminal_dimensions.0;
        let spacing: usize = self.spacing_between_directory_containers;
        let first_width: usize = self.directory_container_vec[start]
            .get_total_width_of_directory_container();
        let mut running: u128 = first_width as u128 + spacing as u128;
        let mut end: usize = start + 1;

        loop
            invariant
                start < end <= count,
                count == self.containers().len(),
                widths == container_widths(self.containers()),
                self.chain_well_formed(),
                terminal_width == self.spec_terminal_dimensions().0,
                spacing == self.spec_container_spacing(),
                terminal_width_spec == terminal_width as int,
                spacing_spec == spacing as int,
                running <= terminal_width as int + spacing as int || (end == start + 1 && running
                    == widths[start as int] + spacing),
                spec_row_end_from(
                    widths,
                    terminal_width_spec,
                    spacing_spec,
                    end as int,
                    running as int,
                ) == spec_row_end(widths, terminal_width_spec, spacing_spec, start as int),
            ensures
                start < end <= count,
                end as int == spec_row_end(widths, terminal_width_spec, spacing_spec, start as int),
            decreases count - end,
        {
            if end >= count {
                break ;
            }
            let next_width: usize = self.directory_container_vec[end]
                .get_total_width_of_directory_container();
            let with_trailing_spacing: u128 = running + next_width as u128 + spacing as u128;
            let as_final_box: u128 = running + next_width as u128;
            if with_trailing_spacing < terminal_width as u128 || as_final_box < terminal_width
                as u128 {
                running = with_trailing_spacing;
                end += 1;
            } else {
                proof {
                    assert(!accepts(
                        running as int,
                        widths[end as int],
                        terminal_width_spec,
                        spacing_spec,
                    ));
                }
                break ;
            }
        }
        (start, end)
    }

    /// The tallest drawn height among the boxes of the row `[start, end)`.
    pub fn get_height_of_tallest_directory_container_in_range(
        &self,
        start_and_end_iteration_tuple: (usize, usize),
    ) -> (result: usize)
        requires
            self.chain_well_formed(),
            start_and_end_iteration_tuple.1 <= self.containers().len(),
        ensures
            result as int == range_max_height(
                self.containers(),
                start_and_end_iteration_tuple.0 as int,
                start_and_end_iteration_tuple.1 as int,
            ),
    {
        let (start, end) = start_and_end_iteration_tuple;
        if start >= end {
            return 0;
        }
        let mut height_of_tallest_container: usize = 0;
        let mut i: usize = start;
        while i < end
            invariant
                start <= i <= end <= self.containers().len(),
                self.chain_well_formed(),
                height_of_tallest_container as int == range_max_height(
                    self.containers(),
                    start as int,
                    i as int,
                ),
            decreases end - i,
        {
            let container_height: usize = self.directory_container_vec[i]
                .get_total_height_of_directory_container();
            if height_of_tallest_container < container_height {
                height_of_tallest_container = container_height;
            }
            i += 1;
        }
        height_of_tallest_container
    }

    /// What box `x` contributes to one output line — its own row, or blank
    /// fill once the line is below its height — plus, between boxes, the
    /// spacing fill.
    pub fn print_one_row_of_each_directory_container(
        &self,
        x: usize,
        row_number: usize,
        should_print_spacing_between_directory_containers: bool,
    ) -> (result: String)
        requires
            self.chain_well_formed(),
            x < self.containers().len(),
        ensures
            result@ == spec_box_cell(
                self.containers()[x as int],
                row_number as int,
                self.spec_row_spacing_char(),
            ) + if should_print_spacing_between_directory_containers {
                repeat_char(self.spec_container_spacing_char(), self.spec_container_spacing() as int)
            } else {
                Seq::<char>::empty()
            },
    {
        let container = &self.directory_container_vec[x];
        let mut row: String = if row_number
            < container.get_total_height_of_directory_container() {
            container.print_directory_container_by_row(row_number)
        } else {
            make_repeated_char_string(
                self.spacing_between_directory_container_rows_char,
                container.get_total_width_of_directory_container(),
            )
        };
        if should_print_spacing_between_directory_containers {
            let separator = make_repeated_char_string(
                self.spacing_between_directory_containers_char,
                self.spacing_between_directory_containers,
            );
            row.append(separator.as_str());
        }
        row
    }

    /// All output lines of the display row `[start, end)`: as many as its
    /// tallest box plus the row spacing, each the boxes' cells side by side.
    pub fn print_one_line_of_directory_containers(
        &self,
        start_and_end_iteration_tuple: (usize, usize),
    ) -> (result: Vec<String>)
        requires
            self.chain_well_formed(),
            start_and_end_iteration_tuple.0 <= start_and_end_iteration_tuple.1
                <= self.containers().len(),
            range_max_height(
                self.containers(),
                start_and_end_iteration_tuple.0 as int,
                start_and_end_iteration_tuple.1 as int,
            ) + self.spec_row_spacing() <= usize::MAX,
        ensures
            result@.len() == range_max_height(
                self.containers(),
                start_and_end_iteration_tuple.0 as int,
                start_and_end_iteration_tuple.1 as int,
            ) + self.spec_row_spacing(),
            forall|line: int|
                0 <= line < result@.len() ==> (#[trigger] result@[line])@ == spec_line_from(
                    self.containers(),
                    start_and_end_iteration_tuple.0 as int,
                    start_and_end_iteration_tuple.1 as int,
                    line,
                    self.spec_container_spacing() as int,
                    self.spec_container_spacing_char(),
                    self.spec_row_spacing_char(),
                ),
    {
        let (start, end) = start_and_end_iteration_tuple;
        let height_of_tallest_container: usize =
            self.get_height_of_tallest_directory_container_in_range(start_and_end_iteration_tuple);

        let total_lines: usize = height_of_tallest_container
            + self.spacing_between_directory_container_rows;
        let mut lines: Vec<String> = Vec::new();
        let mut line_number: usize = 0;
        while line_number < total_lines
            invariant
                line_number <= total_lines,
                self.chain_well_formed(),
                start <= end <= self.containers().len(),
                lines@.len() == line_number,
                forall|line: int|
                    0 <= line < line_number ==> (#[trigger] lines@[line])@ == spec_line_from(
                        self.containers(),
                        start as int,
                        end as int,
                        line,
                        self.spec_container_spacing() as int,
                        self.spec_container_spacing_char(),
                        self.spec_row_spacing_char(),
                    ),
            decreases total_lines - line_number,
        {
            let mut line = String::new();
            let mut j: usize = start;
            proof {
                assert(line@ =~= Seq::<char>::empty());
            }
            while j < end
                invariant
                    start <= j <= end <= self.containers().len(),
                    self.chain_well_formed(),
                    line@ + spec_line_from(
                        self.containers(),
                        j as int,
                        end as int,
                        line_number as int,
                        self.spec_container_spacing() as int,
                        self.spec_container_spacing_char(),
                        self.spec_row_spacing_char(),
                    ) == spec_line_from(
                        self.containers(),
                        start as int,
                        end as int,
                        line_number as int,
                        self.spec_container_spacing() as int,
                        self.spec_container_spacing_char(),
                        self.spec_row_spacing_char(),
                    ),
                decreases end - j,
            {
                let cell = self.print_one_row_of_each_directory_container(
                    j,
                    line_number,
                    j < end - 1,
                );
                let ghost line_before = line@;
                line.append(cell.as_str());
                proof {
                    assert(line@ + spec_line_from(
                        self.containers(),
                        j + 1,
                        end as int,
                        line_number as int,
                        self.spec_container_spacing() as int,
                        self.spec_container_spacing_char(),
                        self.spec_row_spacing_char(),
                    ) =~= line_before + spec_line_from(
                        self.containers(),
                        j as int,
                        end as int,
                        line_number as int,
                        self.spec_container_spacing() as int,
                        self.spec_container_spacing_char(),
                        self.spec_row_spacing_char(),
                    ));
                }
                j += 1;
            }
            proof {
                assert(line@ + spec_line_from(
                    self.containers(),
                    end as int,
                    end as int,
                    line_number as int,
                    self.spec_container_spacing() as int,
                    self.spec_container_spacing_char(),
                    self.spec_row_spacing_char(),
                ) =~= line@);
            }
            lines.push(line);
            line_number += 1;
        }
        lines
    }

    /// The whole rendering: the chain wrapped into display rows by the
    /// greedy planner, each row emitted line by line, top to bottom.
    pub fn print_path(&self) -> (result: Vec<String>)
        requires
            self.chain_well_formed(),
            range_max_height(self.containers(), 0, self.containers().len() as int)
                + self.spec_row_spacing() <= usize::MAX,
        ensures
            result@.map_values(|line: String| line@) == spec_render_chain(
                self.containers(),
                self.spec_terminal_dimensions().0 as int,
                self.spec_container_spacing() as int,
                self.spec_row_spacing() as int,
                self.spec_container_spacing_char(),
                self.spec_row_spacing_char(),
                0,
            ),
    {
        let ghost full_rendering = spec_render_chain(
            self.containers(),
            self.spec_terminal_dimensions().0 as int,
            self.spec_container_spacing() as int,
            self.spec_row_spacing() as int,
            self.spec_container_spacing_char(),
            self.spec_row_spacing_char(),
            0,
        );
        let mut lines: Vec<String> = Vec::new();
        let mut start_and_end_iteration_tuple: (usize, usize) =
            self.update_start_and_end_iteration_tuple((0, 0));

        while start_and_end_iteration_tuple.0 < self.directory_container_vec.len()
            invariant
                self.chain_well_formed(),
                range_max_height(self.containers(), 0, self.containers().len() as int)
                    + self.spec_row_spacing() <= usize::MAX,
                self.directory_container_vec@ == self.containers(),
                start_and_end_iteration_tuple.0 <= start_and_end_iteration_tuple.1
                    <= self.containers().len(),
                start_and_end_iteration_tuple.0 < self.containers().len()
                    ==> start_and_end_iteration_tuple.0 < start_and_end_iteration_tuple.1,
                start_and_end_iteration_tuple.1 as int == spec_row_end(
                    container_widths(self.containers()),
                    self.spec_terminal_dimensions().0 as int,
                    self.spec_container_spacing() as int,
                    start_and_end_iteration_tuple.0 as int,
                ),
                lines@.map_values(|line: String| line@) + spec_render_chain(
                    self.containers(),
                    self.spec_terminal_dimensions().0 as int,
                    self.spec_container_spacing() as int,
                    self.spec_row_spacing() as int,
                    self.spec_container_spacing_char(),
                    self.spec_row_spacing_char(),
                    start_and_end_iteration_tuple.0 as int,
                ) == full_rendering,
            decreases self.containers().len() - start_and_end_iteration_tuple.0,
        {
            proof {
                lemma_range_max_height_le_full(
                    self.containers(),
                    start_and_end_iteration_tuple.0 as int,
                    start_and_end_iteration_tuple.1 as int,
                );
            }
            let ghost lines_before = lines@;
            let mut row_lines = self.print_one_line_of_directory_containers(
                start_and_end_iteration_tuple,
            );
            let ghost row_lines_view = row_lines@;
            lines.append(&mut row_lines);

            proof {
                let containers = self.containers();
                let start = start_and_end_iteration_tuple.0 as int;
                let end = start_and_end_iteration_tuple.1 as int;
                let spacing = self.spec_container_spacing() as int;
                let row_spacing = self.spec_row_spacing() as int;
                let spacing_char = self.spec_container_spacing_char();
                let rows_char = self.spec_row_spacing_char();
                let terminal_width = self.spec_terminal_dimensions().0 as int;
                assert(row_lines_view.map_values(|line: String| line@) =~= spec_row_block(
                    containers,
                    start,
                    end,
                    spacing,
                    row_spacing,
                    spacing_char,
                    rows_char,
                ));
                assert(lines@.map_values(|line: String| line@) =~= lines_before.map_values(
                    |line: String| line@,
                ) + row_lines_view.map_values(|line: String| line@));
                assert(lines@.map_values(|line: String| line@) + spec_render_chain(
                    containers,
                    terminal_width,
                    spacing,
                    row_spacing,
                    spacing_char,
                    rows_char,
                    end,
                ) =~= full_rendering);
            }
            start_and_end_iteration_tuple = self.update_start_and_end_iteration_tuple(
                start_and_end_iteration_tuple,
            );
        }
        proof {
            assert(lines@.map_values(|line: String| line@) =~= full_rendering);
        }
        lines
    }
}

/// Whether some item of the box carries the `DirectoryInPath` mark for the
/// given path component.
pub open spec fn has_directory_in_path_mark(
    container: DirectoryContainer,
    component: Seq<char>,
) -> bool {
    exists|j: int|
        0 <= j < container.directory_item_vec@.len() && (
        #[trigger] container.directory_item_vec@[j]).item_state == ItemState::DirectoryInPath
            && container.directory_item_vec@[j].file_name@ == component
}

/// The navigation law of a freshly built chain, read off its state law:
/// provided the listings were consistent — within each box the raw names are
/// distinct, every non-terminal box lists the component the target path
/// continues with, and the leaf box is non-empty — exactly one `Selected`
/// item exists across the whole chain (the leaf box's first item), every
/// non-terminal box has exactly one `DirectoryInPath` item (the entry whose
/// name is the next path component), and the leaf box has none.
pub proof fn lemma_navigation_marks(path_container: PathContainer)
    requires
        path_container.navigation_states_valid(),
        path_container.containers().len() == path_container.spec_current_path().len() + 1,
        path_container.containers()[path_container.containers().len()
            - 1].directory_item_vec@.len() > 0,
        forall|i: int, j1: int, j2: int|
            #![trigger path_container.containers()[i].directory_item_vec@[j1], path_container.containers()[i].directory_item_vec@[j2]]
            0 <= i < path_container.containers().len() && 0 <= j1 < j2
                < path_container.containers()[i].directory_item_vec@.len()
                ==> path_container.containers()[i].directory_item_vec@[j1].file_name@
                != path_container.containers()[i].directory_item_vec@[j2].file_name@,
        forall|i: int|
            0 <= i < path_container.containers().len() - 1 ==> exists|j: int|
                0 <= j < (#[trigger] path_container.containers()[i]).directory_item_vec@.len()
                    && path_container.containers()[i].directory_item_vec@[j].file_name@
                    == path_container.spec_current_path()[i],
    ensures
        forall|i: int, j: int|
            0 <= i < path_container.containers().len() && 0 <= j < (
            #[trigger] path_container.containers()[i]).directory_item_vec@.len() ==> ((
            #[trigger] path_container.containers()[i].directory_item_vec@[j]).item_state
                == ItemState::Selected <==> (i == path_container.containers().len() - 1 && j
                == 0)),
        forall|i: int|
            0 <= i < path_container.containers().len() - 1 ==> has_directory_in_path_mark(
                #[trigger] path_container.containers()[i],
                path_container.spec_current_path()[i],
            ),
        forall|i: int, j1: int, j2: int|
            #![trigger path_container.containers()[i].directory_item_vec@[j1], path_container.containers()[i].directory_item_vec@[j2]]
            0 <= i < path_container.containers().len() && 0 <= j1
                < path_container.containers()[i].directory_item_vec@.len() && 0 <= j2
                < path_container.containers()[i].directory_item_vec@.len()
                && path_container.containers()[i].directory_item_vec@[j1].item_state
                == ItemState::DirectoryInPath
                && path_container.containers()[i].directory_item_vec@[j2].item_state
                == ItemState::DirectoryInPath ==> j1 == j2,
        forall|j: int|
            0 <= j < path_container.containers()[path_container.containers().len()
                - 1].directory_item_vec@.len() ==> (#[trigger] path_container.containers()[
                path_container.containers().len() - 1].directory_item_vec@[j]).item_state
                != ItemState::DirectoryInPath,
{
    let containers = path_container.containers();
    let target = path_container.spec_current_path();
    assert forall|i: int|
        0 <= i < path_container.containers().len() - 1 implies has_directory_in_path_mark(
        path_container.containers()[i],
        path_container.spec_current_path()[i],
    ) by {
        assert(exists|j: int|
            0 <= j < (#[trigger] path_container.containers()[i]).directory_item_vec@.len()
                && path_container.containers()[i].directory_item_vec@[j].file_name@
                == path_container.spec_current_path()[i]);
        let witness = choose|j: int|
            0 <= j < (#[trigger] path_container.containers()[i]).directory_item_vec@.len()
                && path_container.containers()[i].directory_item_vec@[j].file_name@
                == path_container.spec_current_path()[i];
        assert(containers[i].directory_item_vec@[witness].item_state
            == ItemState::DirectoryInPath);
        assert(0 <= witness < path_container.containers()[i].directory_item_vec@.len()
            && path_container.containers()[i].directory_item_vec@[witness].item_state
            == ItemState::DirectoryInPath
            && path_container.containers()[i].directory_item_vec@[witness].file_name@
            == path_container.spec_current_path()[i]);
        assert(has_directory_in_path_mark(
            path_container.containers()[i],
            path_container.spec_current_path()[i],
        ));
    }
    assert forall|i: int, j1: int, j2: int|
        0 <= i < containers.len() && 0 <= j1 < containers[i].directory_item_vec@.len() && 0 <= j2
            < containers[i].directory_item_vec@.len() && (
        #[trigger] containers[i].directory_item_vec@[j1]).item_state
            == ItemState::DirectoryInPath && (
        #[trigger] containers[i].directory_item_vec@[j2]).item_state
            == ItemState::DirectoryInPath implies j1 == j2 by {
        if j1 != j2 {
            assert(containers[i].directory_item_vec@[j1].file_name@ == target[i]);
            assert(containers[i].directory_item_vec@[j2].file_name@ == target[i]);
            if j1 < j2 {
                assert(containers[i].directory_item_vec@[j1].file_name@
                    != containers[i].directory_item_vec@[j2].file_name@);
            } else {
                assert(containers[i].directory_item_vec@[j2].file_name@
                    != containers[i].directory_item_vec@[j1].file_name@);
            }
        }
    }
}

/// A box row's tallest height never exceeds the whole chain's.
pub proof fn lemma_range_max_height_le_full(
    containers: Seq<DirectoryContainer>,
    start: int,
    end: int,
)
    requires
        0 <= start,
        end <= containers.len(),
    ensures
        range_max_height(containers, start, end) <= range_max_height(
            containers,
            0,
            containers.len() as int,
        ),
    decreases end - start,
{
    lemma_range_max_height_nonneg(containers, 0, containers.len() as int);
    if start < end {
        lemma_range_max_height_le_prefix(containers, start, end, containers.len() as int);
        lemma_range_max_height_le_left(containers, 0, start, containers.len() as int);
    }
}

/// The tallest height of a range is non-negative.
pub proof fn lemma_range_max_height_nonneg(containers: Seq<DirectoryContainer>, start: int, end: int)
    ensures
        range_max_height(containers, start, end) >= 0,
    decreases end - start,
{
    if !(end <= start || end > containers.len() || start < 0) {
        lemma_range_max_height_nonneg(containers, start, end - 1);
    }
}

proof fn lemma_range_max_height_le_prefix(
    containers: Seq<DirectoryContainer>,
    start: int,
    end: int,
    longer: int,
)
    requires
        0 <= start,
        end <= longer <= containers.len(),
    ensures
        range_max_height(containers, start, end) <= range_max_height(containers, start, longer),
    decreases longer - end,
{
    if end < longer {
        lemma_range_max_height_le_prefix(containers, start, end, longer - 1);
        lemma_range_max_height_nonneg(containers, start, end);
    }
}

proof fn lemma_range_max_height_le_left(
    containers: Seq<DirectoryContainer>,
    outer_start: int,
    inner_start: int,
    end: int,
)
    requires
        0 <= outer_start <= inner_start,
        end <= containers.len(),
    ensures
        range_max_height(containers, inner_start, end) <= range_max_height(
            containers,
            outer_start,
            end,
        ),
    decreases end - inner_start,
{
    if end <= inner_start {
        lemma_range_max_height_nonneg(containers, inner_start, end);
        lemma_range_max_height_nonneg(containers, outer_start, end);
    } else {
        lemma_range_max_height_le_left(containers, outer_start, inner_start, end - 1);
    }
}

} // verus!
