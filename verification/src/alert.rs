//! Viewing one alert of a project.
use vstd::prelude::*;

use crate::resource::ResourceId;
use crate::text::{uuid_text, uuid_to_string};

verus! {

pub const PROJECTS_PATH: &'static str = "/v0/projects/";

pub const ALERTS_PATH: &'static str = "/alerts/";

/// The `alert view` command: the project and the UUID of the alert.
pub struct AlertView {
    pub project: ResourceId,
    pub alert: u128,
}

/// The API path of an alert of a project.
pub open spec fn alert_path(project: Seq<char>, alert: u128) -> Seq<char> {
    PROJECTS_PATH@ + project + ALERTS_PATH@ + uuid_text(alert)
}

impl AlertView {
    /// The API path that the command reads: `/v0/projects/{project}/alerts/{alert}`.
    pub fn path(&self) -> (res: String)
        ensures
            res@ == alert_path(self.project.0@, self.alert),
    {
        let mut s = String::new();
        s.append(PROJECTS_PATH);
        s.append(self.project.0.as_str());
        s.append(ALERTS_PATH);
        let alert = uuid_to_string(self.alert);
        s.append(alert.as_str());
        assert(s@ =~= alert_path(self.project.0@, self.alert));
        s
    }
}

} // verus!
