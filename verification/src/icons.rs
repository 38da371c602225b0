//! Chrome icon codepoints of the bundled icon font. Every codepoint lives in
//! the Private Use Area, which overlaps the Nerd Font range terminal content
//! may use; they are only drawn through the icon font role.

use vstd::prelude::*;

verus! {

/// Family name the bundled icon font is registered under.
pub const ICON_FAMILY: &'static str = "Nexterm Icons";

/// `ic_fluent_play_20_regular`
pub const SETTINGS_STARTUP: char = '\u{f605}';

/// `ic_fluent_text_font_20_regular`
pub const SETTINGS_FONT: char = '\u{f7e4}';

/// `ic_fluent_dark_theme_20_regular`
pub const SETTINGS_THEME: char = '\u{e452}';

/// `ic_fluent_window_20_regular`
pub const SETTINGS_WINDOW: char = '\u{f8b5}';

/// `ic_fluent_server_20_regular`
pub const SETTINGS_SSH: char = '\u{f769}';

/// `ic_fluent_keyboard_20_regular`
pub const SETTINGS_KEYBINDINGS: char = '\u{f4b8}';

/// `ic_fluent_person_20_regular`
pub const SETTINGS_PROFILES: char = '\u{f5bd}';

/// `ic_fluent_text_bullet_list_square_20_regular`
pub const SETTINGS_BLOCKS: char = '\u{ece2}';

/// `ic_fluent_shield_20_regular`
pub const SETTINGS_SECURITY: char = '\u{f6be}';

/// `ic_fluent_arrow_export_16_regular`
pub const TAB_TEAR_OUT: char = '\u{f027f}';

/// `ic_fluent_dismiss_16_regular`
pub const TAB_CLOSE: char = '\u{f368}';

/// `ic_fluent_chevron_down_16_regular`
pub const CHEVRON_DOWN: char = '\u{f2a2}';

/// `ic_fluent_chevron_left_16_regular`
pub const CHEVRON_LEFT: char = '\u{f2a9}';

/// `ic_fluent_chevron_right_16_regular`
pub const CHEVRON_RIGHT: char = '\u{f2af}';

/// `ic_fluent_subtract_16_regular`
pub const WINDOW_MINIMIZE: char = '\u{ebcf}';

/// `ic_fluent_maximize_16_regular`
pub const WINDOW_MAXIMIZE: char = '\u{f533}';

/// `ic_fluent_square_multiple_16_regular`
pub const WINDOW_RESTORE: char = '\u{eb95}';

/// `ic_fluent_dismiss_16_regular`
pub const WINDOW_CLOSE: char = '\u{f368}';

/// Number of icons in the set.
pub const ICON_COUNT: usize = 18;

/// Every icon of the set.
pub const ALL_ICONS: [char; 18] = [
    SETTINGS_STARTUP,
    SETTINGS_FONT,
    SETTINGS_THEME,
    SETTINGS_WINDOW,
    SETTINGS_SSH,
    SETTINGS_KEYBINDINGS,
    SETTINGS_PROFILES,
    SETTINGS_BLOCKS,
    SETTINGS_SECURITY,
    TAB_TEAR_OUT,
    TAB_CLOSE,
    CHEVRON_DOWN,
    CHEVRON_LEFT,
    CHEVRON_RIGHT,
    WINDOW_MINIMIZE,
    WINDOW_MAXIMIZE,
    WINDOW_RESTORE,
    WINDOW_CLOSE,
];

} // verus!
