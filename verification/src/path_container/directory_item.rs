//! One entry of a directory listing, as the boxes render it: its raw name,
//! the name actually drawn (after any truncation), its kind, and its
//! navigation state.

use vstd::prelude::*;

verus! {

/// Navigation state of one listed entry.
#[derive(Clone, Copy, PartialEq, Eq, Structural, Debug)]
pub enum ItemState {
    /// Not involved in the navigation.
    Normal,
    /// The default cursor: the first entry of the terminal (leaf) box.
    Selected,
    /// The child entry that continues toward the target path.
    DirectoryInPath,
}

/// Kind of one listed entry.
#[derive(Clone, Copy, PartialEq, Eq, Structural, Debug)]
pub enum ItemType {
    File,
    Directory,
    Other,
}

/// What the rendered name of `file_name` is under an optional length limit:
/// the name itself when it fits, otherwise its first `limit` characters.
pub open spec fn spec_rendered_name(file_name: Seq<char>, limit: Option<usize>) -> Seq<char> {
    match limit {
        Option::None => file_name,
        Option::Some(width) => if file_name.len() <= width {
            file_name
        } else {
            file_name.take(width as int)
        },
    }
}

/// One entry of a directory listing.
pub struct DirectoryItem {
    /// The entry's raw name, as the filesystem reports it.
    pub file_name: String,
    /// The name the box actually draws: `file_name`, possibly truncated.
    pub rendered_file_name: String,
    pub item_state: ItemState,
    pub item_type: ItemType,
}

impl DirectoryItem {
    /// Builds an item in the `Normal` state, applying the given rendered-name
    /// length limit.
    pub fn new(file_name: String, item_type: ItemType, name_length_limit: Option<usize>) -> (result:
        DirectoryItem)
        ensures
            result.file_name == file_name,
            result.rendered_file_name@ == spec_rendered_name(file_name@, name_length_limit),
            result.item_state == ItemState::Normal,
            result.item_type == item_type,
    {
        let rendered_file_name: String = match name_length_limit {
            Option::None => file_name.clone(),
            Option::Some(width) => {
                if file_name.as_str().unicode_len() <= width {
                    file_name.clone()
                } else {
                    let truncated = file_name.as_str().substring_char(0, width);
                    proof {
                        assert(file_name@.subrange(0, width as int) =~= file_name@.take(
                            width as int,
                        ));
                    }
                    truncated.to_owned()
                }
            },
        };
        DirectoryItem { file_name, rendered_file_name, item_state: ItemState::Normal, item_type }
    }

    /// The raw name, or the rendered (possibly truncated) name.
    pub fn get_file_name(&self, use_rendered_name: bool) -> (result: String)
        ensures
            result@ == if use_rendered_name {
                self.rendered_file_name@
            } else {
                self.file_name@
            },
    {
        if use_rendered_name {
            self.rendered_file_name.clone()
        } else {
            self.file_name.clone()
        }
    }

    /// Display length, in characters, of the raw or rendered name.
    pub fn get_file_name_length(&self, use_rendered_name: bool) -> (result: usize)
        ensures
            result == if use_rendered_name {
                self.rendered_file_name@.len()
            } else {
                self.file_name@.len()
            },
    {
        if use_rendered_name {
            self.rendered_file_name.as_str().unicode_len()
        } else {
            self.file_name.as_str().unicode_len()
        }
    }
}

} // verus!
