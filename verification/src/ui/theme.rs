//! Icons of the interface (Nerd Font glyphs; a patched font is needed).
use vstd::prelude::*;

verus! {

pub const ICON_ONLINE: &'static str = "\u{f111}";
pub const ICON_OFFLINE: &'static str = "\u{f10c}";
pub const ICON_VERIFIED: &'static str = "\u{f00c}";
pub const ICON_FILE: &'static str = "\u{f0c6}";
pub const ICON_WARN: &'static str = "\u{f071}";
pub const ICON_DIR: &'static str = "\u{f07b}";
pub const ICON_FILE_PLAIN: &'static str = "\u{f15b}";
pub const ICON_EXEC: &'static str = "\u{f120}";
pub const ICON_LINK: &'static str = "\u{f0c1}";

} // verus!
