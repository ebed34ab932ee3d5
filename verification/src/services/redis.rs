//! Redis.

use vstd::prelude::*;

use super::{owned, path_of, path_view, plan_view, Arg, ArgSpec, CommandPlan, ServiceStatus};

verus! {

pub struct RedisService {
    /// The installation root.
    pub root: String,
}

impl RedisService {
    pub fn new(root: &String) -> (s: Self)
        ensures
            s.root == *root,
    {
        RedisService { root: root.clone() }
    }

    pub fn name(&self) -> (r: &'static str)
        ensures
            r@ == "redis"@,
    {
        "redis"
    }

    pub fn display_name(&self) -> (r: &'static str)
        ensures
            r@ == "Redis"@,
    {
        "Redis"
    }

    pub fn service_type(&self) -> (r: &'static str)
        ensures
            r@ == "redis-server"@,
    {
        "redis-server"
    }

    pub fn default_port(&self) -> (r: u16)
        ensures
            r == 6379,
    {
        6379
    }

    /// The executable, relative to the root; installed when it exists.
    pub fn exe_path(&self) -> (r: Vec<&'static str>)
        ensures
            path_view(r) == seq!["redis"@, "redis-server.exe"@],
    {
        path_of(&["redis", "redis-server.exe"])
    }

    /// The configuration file, relative to the root.
    pub fn config_path(&self) -> (r: Option<Vec<&'static str>>)
        ensures
            r matches Some(p) && path_view(p) == seq!["redis"@, "redis.conf"@],
    {
        Some(path_of(&["redis", "redis.conf"]))
    }

    /// The image name the process list is searched for.
    pub fn image_name(&self) -> (r: &'static str)
        ensures
            r@ == "redis-server.exe"@,
    {
        "redis-server.exe"
    }

    /// The command that starts the service, or the not-installed error.
    pub fn start_plan(&self, installed: bool) -> (r: Result<CommandPlan, String>)
        ensures
            !installed ==> (r matches Err(e) && e@ == "Redis not installed"@),
            installed ==> (r matches Ok(p) && plan_view(p) == (seq!["redis"@, "redis-server.exe"@], Seq::<ArgSpec>::empty())),
    {
        if !installed {
            return Err(owned("Redis not installed"));
        }
        let args: Vec<Arg> = Vec::new();
        let plan = CommandPlan { program: path_of(&["redis", "redis-server.exe"]), args };
        assert(plan_view(plan) =~~= (seq!["redis"@, "redis-server.exe"@], Seq::<ArgSpec>::empty()));
        Ok(plan)
    }

    /// The command that stops the service, or the not-installed error.
    pub fn stop_plan(&self, installed: bool) -> (r: Result<CommandPlan, String>)
        ensures
            !installed ==> (r matches Err(e) && e@ == "Redis not installed"@),
            installed ==> (r matches Ok(p) && plan_view(p) == (seq!["redis"@, "redis-cli.exe"@], seq![ArgSpec::Text("shutdown"@)])),
    {
        if !installed {
            return Err(owned("Redis not installed"));
        }
        let mut args: Vec<Arg> = Vec::new();
        args.push(Arg::Text("shutdown"));
        let plan = CommandPlan { program: path_of(&["redis", "redis-cli.exe"]), args };
        assert(plan_view(plan) =~~= (seq!["redis"@, "redis-cli.exe"@], seq![ArgSpec::Text("shutdown"@)]));
        Ok(plan)
    }
}


} // verus!
