//! How the app lays out its windows at start: which widget windows are created and how,
//! the labels and addresses of its windows, and what the tray menu's entries do.
use crate::strmap::StrMap;
use crate::text::{has_prefix, push_str_chars, str_eq, str_starts_with, string_of, string_of_range, string_views, chars_of};
use vstd::prelude::*;

verus! {

/// The index of the first occurrence of `id` in the sequence.
pub open spec fn position_of(seq: Seq<Seq<char>>, id: Seq<char>) -> Option<int>
    decreases seq.len(),
{
    if seq.len() == 0 {
        None
    } else {
        match position_of(seq.drop_last(), id) {
            Some(i) => Some(i),
            None => if seq.last() == id {
                Some(seq.len() - 1)
            } else {
                None
            },
        }
    }
}

proof fn lemma_position_prefix(seq: Seq<Seq<char>>, id: Seq<char>, k: int)
    requires
        0 <= k <= seq.len(),
        position_of(seq.take(k), id) is Some,
    ensures
        position_of(seq, id) == position_of(seq.take(k), id),
    decreases seq.len() - k,
{
    if k < seq.len() {
        assert(seq.take(k + 1).drop_last() =~= seq.take(k));
        lemma_position_prefix(seq, id, k + 1);
    } else {
        assert(seq.take(k) =~= seq);
    }
}

/// The position of a plugin in the widget sequence.
pub fn sequence_position(sequence: &Vec<String>, id: &str) -> (r: Option<usize>)
    ensures
        match r {
            Some(i) => position_of(string_views(sequence@), id@) == Some(i as int),
            None => position_of(string_views(sequence@), id@) is None,
        },
{
    let ghost all = string_views(sequence@);
    let mut i: usize = 0;
    while i < sequence.len()
        invariant
            all == string_views(sequence@),
            i <= sequence@.len(),
            position_of(all.take(i as int), id@) is None,
        decreases sequence@.len() - i,
    {
        assert(all.take(i + 1).drop_last() =~= all.take(i as int));
        assert(all.take(i + 1).last() == sequence@[i as int]@);
        if str_eq(sequence[i].as_str(), id) {
            proof {
                assert(position_of(all.take(i + 1), id@) == Some(i as int));
                lemma_position_prefix(all, id@, i + 1);
            }
            return Some(i);
        }
        i = i + 1;
    }
    assert(all.take(sequence@.len() as int) =~= all);
    None
}

/// Whether a plugin's widget window is created at start, and with which visibility: it
/// is created when the plugin is visible or in the sequence; a widget of the sequence
/// starts shown only if it is the first, any other starts as its attach setting makes it.
pub open spec fn startup_window_spec(visibility: Map<Seq<char>, bool>, seq: Seq<Seq<char>>, id: Seq<char>) -> Option<Option<bool>> {
    let visible = visibility.dom().contains(id) && visibility[id];
    match position_of(seq, id) {
        Some(i) => Some(Some(i == 0)),
        None => if visible {
            Some(None)
        } else {
            None
        },
    }
}

/// Decides whether a plugin's widget window is created at start (`None`: not created),
/// and its initial visibility if the sequence fixes it.
pub fn startup_window(visibility: &StrMap<bool>, sequence: &Vec<String>, plugin_id: &str) -> (r: Option<Option<bool>>)
    requires
        visibility.wf(),
    ensures
        r == startup_window_spec(visibility@, string_views(sequence@), plugin_id@),
{
    let visible = match visibility.get(plugin_id) {
        Some(v) => *v,
        None => false,
    };
    match sequence_position(sequence, plugin_id) {
        Some(i) => Some(Some(i == 0)),
        None => if visible {
            Some(None)
        } else {
            None
        },
    }
}

/// What a widget window's saved state says of attaching, where it says anything.
#[derive(Debug)]
pub struct SavedAttach {
    pub attach_enabled: Option<bool>,
    pub whitelist: Option<Vec<String>>,
    pub attach_remember: Option<bool>,
}

/// How a widget window is set up: whether it follows the foreground window, the processes
/// it follows, whether it keeps its own place, and whether it starts shown.
#[derive(Debug)]
pub struct WidgetWindowPlan {
    pub attach: bool,
    pub whitelist: Vec<String>,
    pub remember: bool,
    pub start_visible: bool,
}

/// The saved whitelist when there is a non-empty one, else the default.
pub open spec fn whitelist_choice(saved: Option<SavedAttach>, default_whitelist: Seq<Seq<char>>) -> Seq<Seq<char>> {
    match saved {
        Some(s) => match s.whitelist {
            Some(w) => if w@.len() > 0 {
                string_views(w@)
            } else {
                default_whitelist
            },
            None => default_whitelist,
        },
        None => default_whitelist,
    }
}

/// The saved setting where there is one, else the default.
pub open spec fn saved_or(saved: Option<SavedAttach>, pick: spec_fn(SavedAttach) -> Option<bool>, default: bool) -> bool {
    match saved {
        Some(s) => match pick(s) {
            Some(b) => b,
            None => default,
        },
        None => default,
    }
}

fn clone_strings(v: &Vec<String>) -> (r: Vec<String>)
    ensures
        string_views(r@) == string_views(v@),
{
    let mut out: Vec<String> = Vec::new();
    let mut i: usize = 0;
    while i < v.len()
        invariant
            i <= v@.len(),
            string_views(out@) == string_views(v@).take(i as int),
        decreases v@.len() - i,
    {
        let ghost prev = string_views(out@);
        out.push(v[i].clone());
        assert(string_views(out@) =~= prev.push(v@[i as int]@));
        assert(string_views(v@).take(i + 1) =~= string_views(v@).take(i as int).push(v@[i as int]@));
        i = i + 1;
    }
    assert(string_views(v@).take(v@.len() as int) =~= string_views(v@));
    out
}

/// Sets up a widget window from its saved state and the plugin's defaults: each setting
/// saved wins over its default (an empty saved whitelist does not), and the window starts
/// shown as the caller says, or else when it does not follow the foreground window.
pub fn widget_window_plan(
    saved: &Option<SavedAttach>,
    default_attach: bool,
    default_remember: bool,
    default_whitelist: &Vec<String>,
    initial_visible: Option<bool>,
) -> (r: WidgetWindowPlan)
    ensures
        r.attach == saved_or(*saved, |s: SavedAttach| s.attach_enabled, default_attach),
        r.remember == saved_or(*saved, |s: SavedAttach| s.attach_remember, default_remember),
        string_views(r.whitelist@) == whitelist_choice(*saved, string_views(default_whitelist@)),
        r.start_visible == (match initial_visible {
            Some(v) => v,
            None => !r.attach,
        }),
{
    let attach = match saved {
        Some(s) => match s.attach_enabled {
            Some(b) => b,
            None => default_attach,
        },
        None => default_attach,
    };
    let remember = match saved {
        Some(s) => match s.attach_remember {
            Some(b) => b,
            None => default_remember,
        },
        None => default_remember,
    };
    let whitelist = match saved {
        Some(s) => match &s.whitelist {
            Some(w) => if w.len() > 0 {
                clone_strings(w)
            } else {
                clone_strings(default_whitelist)
            },
            None => clone_strings(default_whitelist),
        },
        None => clone_strings(default_whitelist),
    };
    let start_visible = match initial_visible {
        Some(v) => v,
        None => !attach,
    };
    WidgetWindowPlan { attach, whitelist, remember, start_visible }
}

/// `prefix` followed by `s`.
pub fn prefixed(prefix: &str, s: &str) -> (r: String)
    ensures
        r@ == prefix@ + s@,
{
    let mut out: Vec<char> = Vec::new();
    push_str_chars(&mut out, prefix);
    push_str_chars(&mut out, s);
    string_of(out.as_slice())
}

/// The window label of a runtime add-on: `runtime-addon-` and its id.
pub fn runtime_addon_label(addon_id: &str) -> (r: String)
    ensures
        r@ == "runtime-addon-"@ + addon_id@,
{
    prefixed("runtime-addon-", addon_id)
}

/// The page a plugin's widget window shows.
pub fn widget_url(plugin_id: &str) -> (r: String)
    ensures
        r@ == "index.html?widget="@ + plugin_id@,
{
    prefixed("index.html?widget=", plugin_id)
}

/// The window label of a plugin's settings window: `settings-` and its id.
pub fn plugin_settings_label(plugin_id: &str) -> (r: String)
    ensures
        r@ == "settings-"@ + plugin_id@,
{
    prefixed("settings-", plugin_id)
}

/// The page a plugin's settings window shows.
pub fn plugin_settings_url(plugin_id: &str) -> (r: String)
    ensures
        r@ == "index.html?widget=plugin_settings&plugin="@ + plugin_id@,
{
    prefixed("index.html?widget=plugin_settings&plugin=", plugin_id)
}

/// The title of a settings window: the name and ` 设置`.
pub fn settings_title(name: &str) -> (r: String)
    ensures
        r@ == name@ + " 设置"@,
{
    let mut out: Vec<char> = Vec::new();
    push_str_chars(&mut out, name);
    push_str_chars(&mut out, " 设置");
    string_of(out.as_slice())
}

/// The tray menu entry of a plugin's settings: its id and its label.
pub fn plugin_menu_item(plugin_id: &str, title: &str) -> (r: (String, String))
    ensures
        r.0@ == "plugin_settings:"@ + plugin_id@,
        r.1@ == title@ + " 设置"@,
{
    (prefixed("plugin_settings:", plugin_id), settings_title(title))
}

/// What a tray menu entry does.
#[derive(Debug)]
pub enum TrayAction {
    /// Open the settings window of the plugin.
    PluginSettings(String),
    /// Show the global settings window.
    ShowSettings,
    /// Show the plugin management window.
    ShowManage,
    /// Hide every window.
    HideAll,
    /// Quit the app.
    Quit,
    /// Nothing.
    Ignore,
}

/// What the tray menu entry with this id does.
pub fn tray_action(id: &str) -> (r: TrayAction)
    ensures
        has_prefix(id@, "plugin_settings:"@) ==> (r matches TrayAction::PluginSettings(p) && "plugin_settings:"@ + p@ == id@),
        !has_prefix(id@, "plugin_settings:"@) ==> (if id@ == "global_settings"@ {
            r is ShowSettings
        } else if id@ == "manage"@ {
            r is ShowManage
        } else if id@ == "hide_all"@ {
            r is HideAll
        } else if id@ == "quit"@ {
            r is Quit
        } else {
            r is Ignore
        }),
{
    if str_starts_with(id, "plugin_settings:") {
        let v = chars_of(id);
        let p: Vec<char> = chars_of("plugin_settings:");
        assert(p@ == "plugin_settings:"@);
        let rest = string_of_range(&v, p.len(), v.len());
        assert("plugin_settings:"@ + rest@ =~= id@);
        return TrayAction::PluginSettings(rest);
    }
    if str_eq(id, "global_settings") {
        TrayAction::ShowSettings
    } else if str_eq(id, "manage") {
        TrayAction::ShowManage
    } else if str_eq(id, "hide_all") {
        TrayAction::HideAll
    } else if str_eq(id, "quit") {
        TrayAction::Quit
    } else {
        TrayAction::Ignore
    }
}

} // verus!
