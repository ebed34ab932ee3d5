//! PostgreSQL.

use vstd::prelude::*;

use super::{owned, path_of, path_view, plan_view, Arg, ArgSpec, CommandPlan, ServiceStatus};

verus! {

pub struct PostgresqlService {
    /// The installation root.
    pub root: String,
}

impl PostgresqlService {
    pub fn new(root: &String) -> (s: Self)
        ensures
            s.root == *root,
    {
        PostgresqlService { root: root.clone() }
    }

    pub fn name(&self) -> (r: &'static str)
        ensures
            r@ == "postgresql"@,
    {
        "postgresql"
    }

    pub fn display_name(&self) -> (r: &'static str)
        ensures
            r@ == "PostgreSQL"@,
    {
        "PostgreSQL"
    }

    pub fn service_type(&self) -> (r: &'static str)
        ensures
            r@ == "pg_ctl"@,
    {
        "pg_ctl"
    }

    pub fn default_port(&self) -> (r: u16)
        ensures
            r == 5432,
    {
        5432
    }

    /// The executable, relative to the root; installed when it exists.
    pub fn exe_path(&self) -> (r: Vec<&'static str>)
        ensures
            path_view(r) == seq!["postgresql"@, "bin"@, "pg_ctl.exe"@],
    {
        path_of(&["postgresql", "bin", "pg_ctl.exe"])
    }

    /// The configuration file, relative to the root.
    pub fn config_path(&self) -> (r: Option<Vec<&'static str>>)
        ensures
            r matches Some(p) && path_view(p) == seq!["postgresql"@, "data"@, "postgresql.conf"@],
    {
        Some(path_of(&["postgresql", "data", "postgresql.conf"]))
    }

    /// The image name the process list is searched for.
    pub fn image_name(&self) -> (r: &'static str)
        ensures
            r@ == "postgres.exe"@,
    {
        "postgres.exe"
    }

    /// The command that starts the service, or the not-installed error.
    pub fn start_plan(&self, installed: bool) -> (r: Result<CommandPlan, String>)
        ensures
            !installed ==> (r matches Err(e) && e@ == "PostgreSQL not installed"@),
            installed ==> (r matches Ok(p) && plan_view(p) == (seq!["postgresql"@, "bin"@, "pg_ctl.exe"@], seq![ArgSpec::Text("start"@), ArgSpec::Text("-D"@), ArgSpec::Path(seq!["postgresql"@, "data"@])])),
    {
        if !installed {
            return Err(owned("PostgreSQL not installed"));
        }
        let mut args: Vec<Arg> = Vec::new();
        args.push(Arg::Text("start"));
        args.push(Arg::Text("-D"));
        let path1 = path_of(&["postgresql", "data"]);
        assert(path_view(path1) =~= seq!["postgresql"@, "data"@]);
        args.push(Arg::Path(path1));
        let plan = CommandPlan { program: path_of(&["postgresql", "bin", "pg_ctl.exe"]), args };
        assert(plan_view(plan) =~~= (seq!["postgresql"@, "bin"@, "pg_ctl.exe"@], seq![ArgSpec::Text("start"@), ArgSpec::Text("-D"@), ArgSpec::Path(seq!["postgresql"@, "data"@])]));
        Ok(plan)
    }

    /// The command that stops the service, or the not-installed error.
    pub fn stop_plan(&self, installed: bool) -> (r: Result<CommandPlan, String>)
        ensures
            !installed ==> (r matches Err(e) && e@ == "PostgreSQL not installed"@),
            installed ==> (r matches Ok(p) && plan_view(p) == (seq!["postgresql"@, "bin"@, "pg_ctl.exe"@], seq![ArgSpec::Text("stop"@), ArgSpec::Text("-D"@), ArgSpec::Path(seq!["postgresql"@, "data"@])])),
    {
        if !installed {
            return Err(owned("PostgreSQL not installed"));
        }
        let mut args: Vec<Arg> = Vec::new();
        args.push(Arg::Text("stop"));
        args.push(Arg::Text("-D"));
        let path1 = path_of(&["postgresql", "data"]);
        assert(path_view(path1) =~= seq!["postgresql"@, "data"@]);
        args.push(Arg::Path(path1));
        let plan = CommandPlan { program: path_of(&["postgresql", "bin", "pg_ctl.exe"]), args };
        assert(plan_view(plan) =~~= (seq!["postgresql"@, "bin"@, "pg_ctl.exe"@], seq![ArgSpec::Text("stop"@), ArgSpec::Text("-D"@), ArgSpec::Path(seq!["postgresql"@, "data"@])]));
        Ok(plan)
    }
}


} // verus!
