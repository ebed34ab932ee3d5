//! Apache HTTP Server.

use vstd::prelude::*;

use super::{owned, path_of, path_view, plan_view, Arg, ArgSpec, CommandPlan, ServiceStatus};

verus! {

pub struct ApacheService {
    /// The installation root.
    pub root: String,
}

impl ApacheService {
    pub fn new(root: &String) -> (s: Self)
        ensures
            s.root == *root,
    {
        ApacheService { root: root.clone() }
    }

    pub fn name(&self) -> (r: &'static str)
        ensures
            r@ == "apache"@,
    {
        "apache"
    }

    pub fn display_name(&self) -> (r: &'static str)
        ensures
            r@ == "Apache HTTP Server"@,
    {
        "Apache HTTP Server"
    }

    pub fn service_type(&self) -> (r: &'static str)
        ensures
            r@ == "httpd"@,
    {
        "httpd"
    }

    pub fn default_port(&self) -> (r: u16)
        ensures
            r == 80,
    {
        80
    }

    /// The executable, relative to the root; installed when it exists.
    pub fn exe_path(&self) -> (r: Vec<&'static str>)
        ensures
            path_view(r) == seq!["apache"@, "bin"@, "httpd.exe"@],
    {
        path_of(&["apache", "bin", "httpd.exe"])
    }

    /// The configuration file, relative to the root.
    pub fn config_path(&self) -> (r: Option<Vec<&'static str>>)
        ensures
            r matches Some(p) && path_view(p) == seq!["apache"@, "conf"@, "httpd.conf"@],
    {
        Some(path_of(&["apache", "conf", "httpd.conf"]))
    }

    /// The image name the process list is searched for.
    pub fn image_name(&self) -> (r: &'static str)
        ensures
            r@ == "httpd.exe"@,
    {
        "httpd.exe"
    }

    /// The command that starts the service, or the not-installed error.
    pub fn start_plan(&self, installed: bool) -> (r: Result<CommandPlan, String>)
        ensures
            !installed ==> (r matches Err(e) && e@ == "Apache not installed"@),
            installed ==> (r matches Ok(p) && plan_view(p) == (seq!["apache"@, "bin"@, "httpd.exe"@], seq![ArgSpec::Text("-k"@), ArgSpec::Text("start"@)])),
    {
        if !installed {
            return Err(owned("Apache not installed"));
        }
        let mut args: Vec<Arg> = Vec::new();
        args.push(Arg::Text("-k"));
        args.push(Arg::Text("start"));
        let plan = CommandPlan { program: path_of(&["apache", "bin", "httpd.exe"]), args };
        assert(plan_view(plan) =~~= (seq!["apache"@, "bin"@, "httpd.exe"@], seq![ArgSpec::Text("-k"@), ArgSpec::Text("start"@)]));
        Ok(plan)
    }

    /// The command that stops the service, or the not-installed error.
    pub fn stop_plan(&self, installed: bool) -> (r: Result<CommandPlan, String>)
        ensures
            !installed ==> (r matches Err(e) && e@ == "Apache not installed"@),
            installed ==> (r matches Ok(p) && plan_view(p) == (seq!["apache"@, "bin"@, "httpd.exe"@], seq![ArgSpec::Text("-k"@), ArgSpec::Text("stop"@)])),
    {
        if !installed {
            return Err(owned("Apache not installed"));
        }
        let mut args: Vec<Arg> = Vec::new();
        args.push(Arg::Text("-k"));
        args.push(Arg::Text("stop"));
        let plan = CommandPlan { program: path_of(&["apache", "bin", "httpd.exe"]), args };
        assert(plan_view(plan) =~~= (seq!["apache"@, "bin"@, "httpd.exe"@], seq![ArgSpec::Text("-k"@), ArgSpec::Text("stop"@)]));
        Ok(plan)
    }

    /// The status after running the start command: not installed is an
    /// error; a run that reports success is `Running`, another exit is
    /// `Stopped`; a failure to run carries its message.
    pub fn status_from(&self, installed: bool, run: Option<Result<bool, String>>) -> (r: ServiceStatus)
        requires
            installed ==> run is Some,
        ensures
            !installed ==> (r matches ServiceStatus::Error(e) && e@ == "Apache not installed"@),
            installed ==> match run.unwrap() {
                Ok(true) => r is Running,
                Ok(false) => r is Stopped,
                Err(m) => r matches ServiceStatus::Error(e) && e@ == m@,
            },
    {
        if !installed {
            return ServiceStatus::Error(owned("Apache not installed"));
        }
        match run {
            Some(Ok(true)) => ServiceStatus::Running,
            Some(Ok(false)) => ServiceStatus::Stopped,
            Some(Err(m)) => ServiceStatus::Error(m),
            None => ServiceStatus::Unknown,
        }
    }
}


} // verus!
