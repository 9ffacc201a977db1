//! Settings kept by the local store.
use vstd::prelude::*;
use crate::domain::DEFAULT_HIGHLIGHTS_PROMPT;

verus! {

/// The user's application settings.
#[derive(Debug, Clone)]
pub struct AppSettings {
    pub autosave_seconds: u32,
    pub model: String,
    pub admin_cost_sync: bool,
    pub prompt: String,
}

impl Default for AppSettings {
    /// Autosave every 15 s, the terra model, no organisation cost sync, the default prompt.
    fn default() -> (r: Self)
        ensures
            r.autosave_seconds == 15,
            r.model@ == "gpt-5.6-terra"@,
            !r.admin_cost_sync,
            r.prompt@ == DEFAULT_HIGHLIGHTS_PROMPT@,
    {
        AppSettings {
            autosave_seconds: 15,
            model: "gpt-5.6-terra".to_owned(),
            admin_cost_sync: false,
            prompt: DEFAULT_HIGHLIGHTS_PROMPT.to_owned(),
        }
    }
}

} // verus!
