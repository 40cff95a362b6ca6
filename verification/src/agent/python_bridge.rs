//! Python tasks on an agent: a placeholder that always refuses.
use crate::map::StringMap;
use vstd::prelude::*;

verus! {

/// A Python task by its name.
#[derive(Debug)]
pub struct PythonTask {
    pub name: String,
}

/// The request that a Python task asks for.
#[derive(Debug)]
pub struct PythonTaskResult {
    pub method: String,
    pub url: String,
    pub headers: StringMap<String>,
    pub body: Option<String>,
}

impl PythonTask {
    /// Runs the task. Agents have no Python, so this always fails.
    pub fn invoke(&self) -> (r: Result<PythonTaskResult, String>)
        ensures
            r matches Err(e) && e@ == "Python bridge not available in MVP"@,
    {
        Err("Python bridge not available in MVP".to_string())
    }
}

} // verus!
