use vstd::prelude::*;

verus! {

/// The user's display settings.
#[derive(Clone, Copy, Debug, PartialEq, Eq, Structural)]
pub struct Preferences {
    pub enable_overlay: bool,
    pub display_daily_clears: bool,
    pub display_clear_notifications: bool,
    pub display_milliseconds: bool,
    pub display_timer: bool,
    pub display_activity_name: bool,
    pub auto_hide_activity_name: bool,
    pub activity_name_hide_delay_seconds: u32,
}

/// The settings of a new installation, and of every setting that a saved
/// file leaves out: everything shown but the overlay, and the activity name
/// hidden after ten seconds.
pub open spec fn default_preferences() -> Preferences {
    Preferences {
        enable_overlay: false,
        display_daily_clears: true,
        display_clear_notifications: true,
        display_milliseconds: true,
        display_timer: true,
        display_activity_name: true,
        auto_hide_activity_name: true,
        activity_name_hide_delay_seconds: 10,
    }
}

impl Default for Preferences {
    fn default() -> (p: Preferences)
        ensures
            p == default_preferences(),
    {
        Preferences {
            enable_overlay: false,
            display_daily_clears: true,
            display_clear_notifications: true,
            display_milliseconds: true,
            display_timer: true,
            display_activity_name: true,
            auto_hide_activity_name: true,
            activity_name_hide_delay_seconds: 10,
        }
    }
}

impl Preferences {
    /// The name of the file that holds the settings.
    pub fn get_filename() -> (name: &'static str)
        ensures
            name@ == "preferences.json"@,
    {
        "preferences.json"
    }
}

} // verus!
