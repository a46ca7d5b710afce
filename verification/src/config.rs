//! Where the app keeps its configuration: one file per concern inside an
//! app directory under the OS configuration root.

use vstd::prelude::*;

verus! {

/// A configuration file, relative to the OS configuration root.
pub struct ConfigFile {
    /// The app's own directory.
    pub dir: String,
    /// The file's name inside it.
    pub file: String,
}

/// The file `name` in the app's configuration directory.
pub fn config_path(name: &str) -> (p: ConfigFile)
    ensures
        p.dir@ == "KenkoTerminal"@,
        p.file@ == name@,
{
    ConfigFile { dir: "KenkoTerminal".to_owned(), file: name.to_owned() }
}

/// The file holding the tunnel rules.
pub fn tunnels_path() -> (p: ConfigFile)
    ensures
        p.dir@ == "KenkoTerminal"@,
        p.file@ == "tunnels.json"@,
{
    config_path("tunnels.json")
}

/// The file holding the saved connections.
pub fn connections_path() -> (p: ConfigFile)
    ensures
        p.dir@ == "KenkoTerminal"@,
        p.file@ == "connections.json"@,
{
    config_path("connections.json")
}

} // verus!
