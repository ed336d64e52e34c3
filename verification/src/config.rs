//! The workspace configuration that `flash.json` holds.
use vstd::prelude::*;

verus! {

/// The name of the configuration file looked for at the top of the workspace.
pub const CONFIG_FILE_NAME: &'static str = "flash.json";

/// What the configuration file holds: the directories whose changes are ignored
/// and the observers that receive built executables.
pub struct FlashConfig {
    pub dir: Vec<String>,
    pub observers: Vec<Observer>,
}

/// A program that wants a built executable, with the executables it depends on,
/// and the base URL it receives them at.
#[derive(Debug, Clone)]
pub struct Observer {
    pub name: String,
    pub executable: String,
    pub deps: Vec<String>,
    pub url: String,
}

/// The mathematical model of an [`Observer`].
pub struct ObserverView {
    pub name: Seq<char>,
    pub executable: Seq<char>,
    pub deps: Seq<Seq<char>>,
    pub url: Seq<char>,
}

/// The views of a sequence of strings, in order.
pub open spec fn strings_view(v: Seq<String>) -> Seq<Seq<char>> {
    v.map_values(|s: String| s@)
}

impl View for Observer {
    type V = ObserverView;

    open spec fn view(&self) -> ObserverView {
        ObserverView {
            name: self.name@,
            executable: self.executable@,
            deps: strings_view(self.deps@),
            url: self.url@,
        }
    }
}

/// Whether a directory entry with this file name is the configuration file.
pub fn is_config_file_name(file_name: &str) -> (r: bool)
    ensures
        r == (file_name@ == CONFIG_FILE_NAME@),
{
    let candidate = file_name.to_owned();
    let expected = CONFIG_FILE_NAME.to_owned();
    candidate == expected
}

} // verus!
