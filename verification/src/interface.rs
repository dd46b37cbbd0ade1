//! The settings of the user interface, which the store's folder keeps as one JSON text.

use vstd::prelude::*;

verus! {

/// The settings of the user interface.
pub struct Interface {}

impl Interface {
    /// The name of the file that holds the settings.
    pub fn file_name() -> (name: String)
        ensures
            name@ == "interface.json"@,
    {
        "interface.json".to_owned()
    }

    /// The settings to hand out: what the file held or, where it could not be read, an
    /// empty JSON object.
    pub fn get_config_from_db(stored: Option<String>) -> (config: String)
        ensures
            stored matches Some(text) ==> config@ == text@,
            stored is None ==> config@ == "{}"@,
    {
        match stored {
            Some(text) => text,
            None => "{}".to_owned(),
        }
    }
}

} // verus!
