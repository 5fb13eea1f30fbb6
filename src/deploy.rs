use vstd::prelude::*;

verus! {

/// How a container is started once deployed.
#[derive(Clone, Copy, Debug, PartialEq, Eq, Structural)]
pub enum StartMode {
    Empty,
    Blocking,
}

impl Default for StartMode {
    fn default() -> (r: StartMode)
        ensures
            r == StartMode::Empty,
    {
        StartMode::Empty
    }
}

/// A volume that a deployed container mounts.
#[derive(Clone, Debug, PartialEq, Eq)]
pub struct ContainerVolume {
    pub name: String,
    pub path: String,
}

/// What a runtime reports after a deploy.
#[derive(Debug, PartialEq, Eq)]
pub struct DeployResult {
    pub valid: Result<String, String>,
    pub vols: Vec<ContainerVolume>,
    pub start_mode: StartMode,
}

/// What a deploy response holds, judged by its first byte.
#[derive(Clone, Copy, Debug, PartialEq, Eq, Structural)]
pub enum DeployFrame {
    /// No bytes: a successful deploy with nothing to report.
    Empty,
    /// A JSON object, to be read as a [`DeployResult`].
    Json,
    /// Anything else: an invalid response.
    Invalid,
}

impl DeployResult {
    /// The result of a deploy that reported nothing: valid, no volumes, default start mode.
    pub fn empty() -> (r: DeployResult)
        ensures
            r.valid matches Ok(s) && s@.len() == 0,
            r.vols@.len() == 0,
            r.start_mode == StartMode::Empty,
    {
        DeployResult { valid: Ok(String::new()), vols: Vec::new(), start_mode: StartMode::Empty }
    }

    /// Tells an empty response, a JSON object and an invalid response apart.
    pub fn frame(bytes: &[u8]) -> (r: DeployFrame)
        ensures
            r == if bytes@.len() == 0 {
                DeployFrame::Empty
            } else if bytes@[0] == 123u8 {
                DeployFrame::Json
            } else {
                DeployFrame::Invalid
            },
    {
        if bytes.len() == 0 {
            DeployFrame::Empty
        } else if bytes[0] == 123u8 {
            DeployFrame::Json
        } else {
            DeployFrame::Invalid
        }
    }
}

} // verus!
