//! MariaDB.

use vstd::prelude::*;

use super::{owned, path_of, path_view, plan_view, Arg, ArgSpec, CommandPlan, ServiceStatus};

verus! {

pub struct MariaDbService {
    /// The installation root.
    pub root: String,
}

impl MariaDbService {
    pub fn new(root: &String) -> (s: Self)
        ensures
            s.root == *root,
    {
        MariaDbService { root: root.clone() }
    }

    pub fn name(&self) -> (r: &'static str)
        ensures
            r@ == "mariadb"@,
    {
        "mariadb"
    }

    pub fn display_name(&self) -> (r: &'static str)
        ensures
            r@ == "MariaDB"@,
    {
        "MariaDB"
    }

    pub fn service_type(&self) -> (r: &'static str)
        ensures
            r@ == "mysqld"@,
    {
        "mysqld"
    }

    pub fn default_port(&self) -> (r: u16)
        ensures
            r == 3306,
    {
        3306
    }

    /// The executable, relative to the root; installed when it exists.
    pub fn exe_path(&self) -> (r: Vec<&'static str>)
        ensures
            path_view(r) == seq!["mysql"@, "bin"@, "mysqld.exe"@],
    {
        path_of(&["mysql", "bin", "mysqld.exe"])
    }

    /// The configuration file, relative to the root.
    pub fn config_path(&self) -> (r: Option<Vec<&'static str>>)
        ensures
            r matches Some(p) && path_view(p) == seq!["mysql"@, "my.ini"@],
    {
        Some(path_of(&["mysql", "my.ini"]))
    }

    /// The image name the process list is searched for.
    pub fn image_name(&self) -> (r: &'static str)
        ensures
            r@ == "mysqld.exe"@,
    {
        "mysqld.exe"
    }

    /// The command that starts the service, or the not-installed error.
    pub fn start_plan(&self, installed: bool) -> (r: Result<CommandPlan, String>)
        ensures
            !installed ==> (r matches Err(e) && e@ == "MariaDB not installed"@),
            installed ==> (r matches Ok(p) && plan_view(p) == (seq!["mysql"@, "bin"@, "mysqld.exe"@], seq![ArgSpec::Text("--defaults-file"@), ArgSpec::Path(seq!["mysql"@, "my.ini"@])])),
    {
        if !installed {
            return Err(owned("MariaDB not installed"));
        }
        let mut args: Vec<Arg> = Vec::new();
        args.push(Arg::Text("--defaults-file"));
        let path1 = path_of(&["mysql", "my.ini"]);
        assert(path_view(path1) =~= seq!["mysql"@, "my.ini"@]);
        args.push(Arg::Path(path1));
        let plan = CommandPlan { program: path_of(&["mysql", "bin", "mysqld.exe"]), args };
        assert(plan_view(plan) =~~= (seq!["mysql"@, "bin"@, "mysqld.exe"@], seq![ArgSpec::Text("--defaults-file"@), ArgSpec::Path(seq!["mysql"@, "my.ini"@])]));
        Ok(plan)
    }

    /// The command that stops the service, or the not-installed error.
    pub fn stop_plan(&self, installed: bool) -> (r: Result<CommandPlan, String>)
        ensures
            !installed ==> (r matches Err(e) && e@ == "MariaDB not installed"@),
            installed ==> (r matches Ok(p) && plan_view(p) == (seq!["mysql"@, "bin"@, "mysql.exe"@], seq![ArgSpec::Text("-u"@), ArgSpec::Text("root"@), ArgSpec::Text("--password="@), ArgSpec::Text("-e"@), ArgSpec::Text("SHUTDOWN;"@)])),
    {
        if !installed {
            return Err(owned("MariaDB not installed"));
        }
        let mut args: Vec<Arg> = Vec::new();
        args.push(Arg::Text("-u"));
        args.push(Arg::Text("root"));
        args.push(Arg::Text("--password="));
        args.push(Arg::Text("-e"));
        args.push(Arg::Text("SHUTDOWN;"));
        let plan = CommandPlan { program: path_of(&["mysql", "bin", "mysql.exe"]), args };
        assert(plan_view(plan) =~~= (seq!["mysql"@, "bin"@, "mysql.exe"@], seq![ArgSpec::Text("-u"@), ArgSpec::Text("root"@), ArgSpec::Text("--password="@), ArgSpec::Text("-e"@), ArgSpec::Text("SHUTDOWN;"@)]));
        Ok(plan)
    }
}


} // verus!
