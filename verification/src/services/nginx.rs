//! Nginx.

use vstd::prelude::*;

use super::{owned, path_of, path_view, plan_view, Arg, ArgSpec, CommandPlan, ServiceStatus};

verus! {

pub struct NginxService {
    /// The installation root.
    pub root: String,
}

impl NginxService {
    pub fn new(root: &String) -> (s: Self)
        ensures
            s.root == *root,
    {
        NginxService { root: root.clone() }
    }

    pub fn name(&self) -> (r: &'static str)
        ensures
            r@ == "nginx"@,
    {
        "nginx"
    }

    pub fn display_name(&self) -> (r: &'static str)
        ensures
            r@ == "Nginx"@,
    {
        "Nginx"
    }

    pub fn service_type(&self) -> (r: &'static str)
        ensures
            r@ == "nginx"@,
    {
        "nginx"
    }

    pub fn default_port(&self) -> (r: u16)
        ensures
            r == 80,
    {
        80
    }

    /// The executable, relative to the root; installed when it exists.
    pub fn exe_path(&self) -> (r: Vec<&'static str>)
        ensures
            path_view(r) == seq!["nginx"@, "nginx.exe"@],
    {
        path_of(&["nginx", "nginx.exe"])
    }

    /// The configuration file, relative to the root.
    pub fn config_path(&self) -> (r: Option<Vec<&'static str>>)
        ensures
            r matches Some(p) && path_view(p) == seq!["nginx"@, "conf"@, "nginx.conf"@],
    {
        Some(path_of(&["nginx", "conf", "nginx.conf"]))
    }

    /// The image name the process list is searched for.
    pub fn image_name(&self) -> (r: &'static str)
        ensures
            r@ == "nginx.exe"@,
    {
        "nginx.exe"
    }

    /// The command that starts the service, or the not-installed error.
    pub fn start_plan(&self, installed: bool) -> (r: Result<CommandPlan, String>)
        ensures
            !installed ==> (r matches Err(e) && e@ == "Nginx not installed"@),
            installed ==> (r matches Ok(p) && plan_view(p) == (seq!["nginx"@, "nginx.exe"@], Seq::<ArgSpec>::empty())),
    {
        if !installed {
            return Err(owned("Nginx not installed"));
        }
        let args: Vec<Arg> = Vec::new();
        let plan = CommandPlan { program: path_of(&["nginx", "nginx.exe"]), args };
        assert(plan_view(plan) =~~= (seq!["nginx"@, "nginx.exe"@], Seq::<ArgSpec>::empty()));
        Ok(plan)
    }

    /// The command that stops the service, or the not-installed error.
    pub fn stop_plan(&self, installed: bool) -> (r: Result<CommandPlan, String>)
        ensures
            !installed ==> (r matches Err(e) && e@ == "Nginx not installed"@),
            installed ==> (r matches Ok(p) && plan_view(p) == (seq!["nginx"@, "nginx.exe"@], seq![ArgSpec::Text("-s"@), ArgSpec::Text("stop"@)])),
    {
        if !installed {
            return Err(owned("Nginx not installed"));
        }
        let mut args: Vec<Arg> = Vec::new();
        args.push(Arg::Text("-s"));
        args.push(Arg::Text("stop"));
        let plan = CommandPlan { program: path_of(&["nginx", "nginx.exe"]), args };
        assert(plan_view(plan) =~~= (seq!["nginx"@, "nginx.exe"@], seq![ArgSpec::Text("-s"@), ArgSpec::Text("stop"@)]));
        Ok(plan)
    }
}


} // verus!
