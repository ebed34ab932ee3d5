//! Deno.

use vstd::prelude::*;

use super::{owned, path_of, path_view, plan_view, Arg, ArgSpec, CommandPlan, ServiceStatus};

verus! {

pub struct DenoService {
    /// The installation root.
    pub root: String,
}

impl DenoService {
    pub fn new(root: &String) -> (s: Self)
        ensures
            s.root == *root,
    {
        DenoService { root: root.clone() }
    }

    pub fn name(&self) -> (r: &'static str)
        ensures
            r@ == "deno"@,
    {
        "deno"
    }

    pub fn display_name(&self) -> (r: &'static str)
        ensures
            r@ == "Deno"@,
    {
        "Deno"
    }

    pub fn service_type(&self) -> (r: &'static str)
        ensures
            r@ == "deno"@,
    {
        "deno"
    }

    pub fn default_port(&self) -> (r: u16)
        ensures
            r == 8000,
    {
        8000
    }

    /// The executable, relative to the root; installed when it exists.
    pub fn exe_path(&self) -> (r: Vec<&'static str>)
        ensures
            path_view(r) == seq!["deno"@, "deno.exe"@],
    {
        path_of(&["deno", "deno.exe"])
    }

    /// The configuration file, relative to the root.
    pub fn config_path(&self) -> (r: Option<Vec<&'static str>>)
        ensures
            r is None,
    {
        None
    }

    /// The image name the process list is searched for.
    pub fn image_name(&self) -> (r: &'static str)
        ensures
            r@ == "deno.exe"@,
    {
        "deno.exe"
    }

    /// `start` is not implemented for this service: always `Err("Not implemented")`.
    pub fn start_plan(&self, installed: bool) -> (r: Result<CommandPlan, String>)
        ensures
            r matches Err(e) && e@ == "Not implemented"@,
    {
        Err(owned("Not implemented"))
    }

    /// `stop` is not implemented for this service: always `Err("Not implemented")`.
    pub fn stop_plan(&self, installed: bool) -> (r: Result<CommandPlan, String>)
        ensures
            r matches Err(e) && e@ == "Not implemented"@,
    {
        Err(owned("Not implemented"))
    }
}


} // verus!
