//! The descriptors by which the studio shell lists its apps.
use vstd::prelude::*;

verus! {

/// What the shell shows of an app.
#[derive(Debug, Clone, Copy)]
pub struct AppInfo {
    pub name: &'static str,
    pub id: &'static str,
    pub description: &'static str,
}

/// MoFA Cast app descriptor.
pub struct MoFaCastApp;

impl MoFaCastApp {
    /// The app's name, id and description.
    pub fn info() -> (r: AppInfo)
        ensures
            r.name@ == "MoFA Cast"@,
            r.id@ == "mofa-cast"@,
            r.description@
                == "Transform your optimized scripts into multi-voice podcast audio with local TTS"@,
    {
        AppInfo {
            name: "MoFA Cast",
            id: "mofa-cast",
            description: "Transform your optimized scripts into multi-voice podcast audio with local TTS",
        }
    }
}

/// MoFA Hello app descriptor.
pub struct MoFaHelloApp;

impl MoFaHelloApp {
    /// The app's name, id and description.
    pub fn info() -> (r: AppInfo)
        ensures
            r.name@ == "Hello World"@,
            r.id@ == "mofa-hello"@,
            r.description@ == "A simple Hello World app"@,
    {
        AppInfo { name: "Hello World", id: "mofa-hello", description: "A simple Hello World app" }
    }
}

} // verus!
