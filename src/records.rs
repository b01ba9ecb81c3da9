//! Records kept by the launcher's stores: applications, clipboard kinds, settings,
//! calculator history, and the timezone names the calculator accepts.
use vstd::prelude::*;
use vstd::string::*;

use crate::store::RecordStore;
use crate::text::strings_view;

verus! {

/// An installed application.
#[derive(Debug, Clone, PartialEq, Eq)]
pub struct AppEntry {
    pub name: String,
    pub path: String,
}

impl AppEntry {
    pub fn new(name: String, path: String) -> (r: Self)
        ensures
            r.name@ == name@,
            r.path@ == path@,
    {
        AppEntry { name, path }
    }
}

/// A calculation and its result, as kept in the history.
#[derive(Debug, Clone, PartialEq, Eq)]
pub struct CalculationEntry {
    pub query: String,
    pub result: String,
}

/// What a clipboard entry holds.
#[derive(Debug, Clone, Copy, PartialEq, Eq)]
pub enum ClipboardItemType {
    Text,
    Image,
    Unknown,
}

impl ClipboardItemType {
    /// The kind's code: 0 text, 1 image, 2 unknown.
    pub fn as_u8(self) -> (r: u8)
        ensures
            r == match self {
                ClipboardItemType::Text => 0u8,
                ClipboardItemType::Image => 1u8,
                ClipboardItemType::Unknown => 2u8,
            },
    {
        match self {
            ClipboardItemType::Text => 0,
            ClipboardItemType::Image => 1,
            ClipboardItemType::Unknown => 2,
        }
    }

    /// The kind of a code; codes other than 0 and 1 are unknown.
    pub fn from_u8(value: u8) -> (r: Self)
        ensures
            r == if value == 0 {
                ClipboardItemType::Text
            } else if value == 1 {
                ClipboardItemType::Image
            } else {
                ClipboardItemType::Unknown
            },
    {
        if value == 0 {
            ClipboardItemType::Text
        } else if value == 1 {
            ClipboardItemType::Image
        } else {
            ClipboardItemType::Unknown
        }
    }
}

/// The launcher's settings.
#[derive(Debug, Clone, PartialEq, Eq)]
pub struct AppSettings {
    pub theme: String,
    pub custom_font_name: String,
    pub font_size: String,
    pub max_results: i32,
    pub max_clipboard_items: i32,
    pub clipboard_retention_days: i32,
    pub quick_select_modifier: String,
    pub enable_commands: bool,
    pub show_tray_icon: bool,
    pub show_dock_icon: bool,
    pub hide_traffic_lights: bool,
    pub launcher_shortcut_key: String,
    pub launcher_shortcut_mods: Vec<String>,
    pub clipboard_shortcut_key: String,
    pub clipboard_shortcut_mods: Vec<String>,
    pub search_folders: Vec<String>,
}

fn strings_of2(a: &str, b: &str) -> (r: Vec<String>)
    ensures
        strings_view(r@) == seq![a@, b@],
{
    let mut v: Vec<String> = Vec::new();
    v.push(String::from_str(a));
    v.push(String::from_str(b));
    assert(strings_view(v@) =~= seq![a@, b@]);
    v
}

/// The settings of a fresh installation.
pub open spec fn default_settings_hold(s: AppSettings) -> bool {
    &&& s.theme@ == "dark"@
    &&& s.custom_font_name@ == Seq::<char>::empty()
    &&& s.font_size@ == "medium"@
    &&& s.max_results == 7
    &&& s.max_clipboard_items == 30
    &&& s.clipboard_retention_days == 7
    &&& s.quick_select_modifier@ == "option"@
    &&& s.enable_commands
    &&& s.show_tray_icon
    &&& !s.show_dock_icon
    &&& !s.hide_traffic_lights
    &&& s.launcher_shortcut_key@ == "space"@
    &&& strings_view(s.launcher_shortcut_mods@) == seq!["command"@]
    &&& s.clipboard_shortcut_key@ == "v"@
    &&& strings_view(s.clipboard_shortcut_mods@) == seq!["command"@, "shift"@]
    &&& strings_view(s.search_folders@) == seq![
        "/Applications"@,
        "/System/Applications"@,
        "/System/Applications/Utilities"@,
    ]
}

impl Default for AppSettings {
    fn default() -> (r: Self)
        ensures
            default_settings_hold(r),
    {
        let mut mods: Vec<String> = Vec::new();
        mods.push(String::from_str("command"));
        assert(strings_view(mods@) =~= seq!["command"@]);
        let mut folders: Vec<String> = Vec::new();
        folders.push(String::from_str("/Applications"));
        folders.push(String::from_str("/System/Applications"));
        folders.push(String::from_str("/System/Applications/Utilities"));
        assert(strings_view(folders@) =~= seq![
            "/Applications"@,
            "/System/Applications"@,
            "/System/Applications/Utilities"@,
        ]);
        AppSettings {
            theme: String::from_str("dark"),
            custom_font_name: String::new(),
            font_size: String::from_str("medium"),
            max_results: 7,
            max_clipboard_items: 30,
            clipboard_retention_days: 7,
            quick_select_modifier: String::from_str("option"),
            enable_commands: true,
            show_tray_icon: true,
            show_dock_icon: false,
            hide_traffic_lights: false,
            launcher_shortcut_key: String::from_str("space"),
            launcher_shortcut_mods: mods,
            clipboard_shortcut_key: String::from_str("v"),
            clipboard_shortcut_mods: strings_of2("command", "shift"),
            search_folders: folders,
        }
    }
}

/// The single settings record, kept in a record store.
pub struct SettingsStorage {
    store: RecordStore<AppSettings>,
}

impl SettingsStorage {
    /// The settings records held (normally exactly one).
    pub closed spec fn records(&self) -> Seq<AppSettings> {
        self.store.items()
    }

    /// A settings store over the records loaded from `path`; an empty store gets the
    /// default settings.
    pub fn new(path: String, loaded: Vec<AppSettings>) -> (r: Self)
        ensures
            loaded@.len() > 0 ==> r.records() == loaded@,
            loaded@.len() == 0 ==> r.records().len() == 1 && default_settings_hold(r.records()[0]),
    {
        let mut store = RecordStore::new(path, loaded);
        if store.is_empty() {
            store.add(AppSettings::default());
        }
        SettingsStorage { store }
    }

    /// The current settings: the first record.
    pub fn get(&self) -> (r: &AppSettings)
        requires
            self.records().len() > 0,
        ensures
            *r == self.records()[0],
    {
        &self.store.get_all()[0]
    }

    /// Replaces the settings.
    pub fn save(&mut self, settings: AppSettings)
        ensures
            final(self).records() == seq![settings],
    {
        self.store.clear();
        self.store.add(settings);
        assert(self.store.items() =~= seq![settings]);
    }
}

/// The upper-case form of a string, as `str::to_uppercase` gives it.
pub uninterp spec fn upper_of(s: Seq<char>) -> Seq<char>;

/// Relies on `str::to_uppercase`: the result depends on the characters alone.
#[verifier::external_body]
fn to_upper(s: &str) -> (r: String)
    ensures
        r@ == upper_of(s@),
{
    s.to_uppercase()
}

/// The zone an upper-case abbreviation stands for, if it is one the calculator knows.
pub open spec fn zone_alias(u: Seq<char>) -> Option<Seq<char>> {
    if u == "EST"@ || u == "EDT"@ || u == "ET"@ {
        Some("America/New_York"@)
    } else if u == "CST"@ || u == "CDT"@ || u == "CT"@ {
        Some("America/Chicago"@)
    } else if u == "MST"@ || u == "MDT"@ || u == "MT"@ {
        Some("America/Denver"@)
    } else if u == "PST"@ || u == "PDT"@ || u == "PT"@ {
        Some("America/Los_Angeles"@)
    } else if u == "UTC"@ || u == "GMT"@ {
        Some("UTC"@)
    } else if u == "JST"@ {
        Some("Asia/Tokyo"@)
    } else if u == "KST"@ {
        Some("Asia/Seoul"@)
    } else if u == "IST"@ {
        Some("Asia/Kolkata"@)
    } else if u == "CET"@ || u == "CEST"@ {
        Some("Europe/Paris"@)
    } else if u == "BST"@ {
        Some("Europe/London"@)
    } else if u == "AEST"@ || u == "AEDT"@ {
        Some("Australia/Sydney"@)
    } else {
        None
    }
}

fn is(u: &str, lit: &str) -> (r: bool)
    ensures
        r == (u@ == lit@),
{
    crate::text::str_eq(u, lit)
}

/// The zone for an upper-case abbreviation.
pub fn timezone_alias(u: &str) -> (r: Option<&'static str>)
    ensures
        match zone_alias(u@) {
            Some(z) => r matches Some(s) && s@ == z,
            None => r is None,
        },
{
    if is(u, "EST") || is(u, "EDT") || is(u, "ET") {
        Some("America/New_York")
    } else if is(u, "CST") || is(u, "CDT") || is(u, "CT") {
        Some("America/Chicago")
    } else if is(u, "MST") || is(u, "MDT") || is(u, "MT") {
        Some("America/Denver")
    } else if is(u, "PST") || is(u, "PDT") || is(u, "PT") {
        Some("America/Los_Angeles")
    } else if is(u, "UTC") || is(u, "GMT") {
        Some("UTC")
    } else if is(u, "JST") {
        Some("Asia/Tokyo")
    } else if is(u, "KST") {
        Some("Asia/Seoul")
    } else if is(u, "IST") {
        Some("Asia/Kolkata")
    } else if is(u, "CET") || is(u, "CEST") {
        Some("Europe/Paris")
    } else if is(u, "BST") {
        Some("Europe/London")
    } else if is(u, "AEST") || is(u, "AEDT") {
        Some("Australia/Sydney")
    } else {
        None
    }
}

/// The zone name for `tz`: a known abbreviation (in any case) becomes its zone;
/// anything else is kept.
pub fn normalize_timezone(tz: &str) -> (r: String)
    ensures
        r@ == match zone_alias(upper_of(tz@)) {
            Some(z) => z,
            None => tz@,
        },
{
    let upper = to_upper(tz);
    match timezone_alias(upper.as_str()) {
        Some(z) => String::from_str(z),
        None => String::from_str(tz),
    }
}

} // verus!
