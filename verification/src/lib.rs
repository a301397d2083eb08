use vstd::prelude::*;

pub mod amkr;
pub mod browser_ext;
pub mod clipboard;
pub mod git;
pub mod json;
pub mod lyrics;
pub mod music;
pub mod page_notes;
pub mod runtime_addons;
pub mod settings;
pub mod startup;
pub mod strmap;
pub mod system_monitor;
pub mod text;
pub mod updater;
pub mod updater_order;
pub mod window_attach;

verus! {

/// Enables the translucent window backdrop. Off Windows this has no effect and always succeeds.
pub fn enable_backdrop(_hwnd: isize) -> (r: Result<(), String>)
    ensures
        r is Ok,
{
    Ok(())
}

} // verus!
