//! Icons shown in front of each row of the tree.

use vstd::prelude::*;

verus! {

/// Icon of a regular file.
pub const FILE_ICON: &'static str = "📄";

/// Icon of an expanded directory.
pub const OPEN_FOLDER_ICON: &'static str = "📂";

/// Icon of a collapsed directory.
pub const CLOSED_FOLDER_ICON: &'static str = "📁";

/// The icon of an entry, as a specification.
pub open spec fn icon_of(is_folder: bool, is_open: bool) -> &'static str {
    if is_folder {
        if is_open {
            OPEN_FOLDER_ICON
        } else {
            CLOSED_FOLDER_ICON
        }
    } else {
        FILE_ICON
    }
}

/// Picks the icon of an entry: files have one icon whatever `is_open` says,
/// directories one for each of their two states.
pub fn get_icon(is_folder: bool, is_open: bool) -> (icon: &'static str)
    ensures
        icon == icon_of(is_folder, is_open),
{
    if is_folder {
        if is_open {
            OPEN_FOLDER_ICON
        } else {
            CLOSED_FOLDER_ICON
        }
    } else {
        FILE_ICON
    }
}

} // verus!
