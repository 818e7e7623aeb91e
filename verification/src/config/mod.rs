//! What the user keeps: connections, settings, and what they are read from.

pub mod connections;
pub mod groups;
pub mod profile;
pub mod search;
pub mod settings;
pub mod ssh;

use crate::session::is_tag_color;
use vstd::prelude::*;

verus! {

/// Colours offered as tag presets, as `#rrggbb`. Nothing is picked by default,
/// so a connection or group stays transparent until one is chosen.
pub const TAG_COLORS: [&'static str; 9] = [
    "#e06c75",
    "#e5c07b",
    "#98c379",
    "#56b6c2",
    "#61afef",
    "#c678dd",
    "#ff9e64",
    "#f783ac",
    "#8bd5ca",
];

/// The presets, each of which is a color that can be read.
pub proof fn law_presets_are_colors()
    ensures
        TAG_COLORS[0]@ == "#e06c75"@ && is_tag_color(TAG_COLORS[0]@),
        TAG_COLORS[1]@ == "#e5c07b"@ && is_tag_color(TAG_COLORS[1]@),
        TAG_COLORS[2]@ == "#98c379"@ && is_tag_color(TAG_COLORS[2]@),
        TAG_COLORS[3]@ == "#56b6c2"@ && is_tag_color(TAG_COLORS[3]@),
        TAG_COLORS[4]@ == "#61afef"@ && is_tag_color(TAG_COLORS[4]@),
        TAG_COLORS[5]@ == "#c678dd"@ && is_tag_color(TAG_COLORS[5]@),
        TAG_COLORS[6]@ == "#ff9e64"@ && is_tag_color(TAG_COLORS[6]@),
        TAG_COLORS[7]@ == "#f783ac"@ && is_tag_color(TAG_COLORS[7]@),
        TAG_COLORS[8]@ == "#8bd5ca"@ && is_tag_color(TAG_COLORS[8]@),
{
    reveal_strlit("#e06c75");
    reveal_strlit("#e5c07b");
    reveal_strlit("#98c379");
    reveal_strlit("#56b6c2");
    reveal_strlit("#61afef");
    reveal_strlit("#c678dd");
    reveal_strlit("#ff9e64");
    reveal_strlit("#f783ac");
    reveal_strlit("#8bd5ca");
}

} // verus!
