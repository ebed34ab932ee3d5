//! The managed services: their fixed facts (names, ports, executables,
//! configuration files), the commands that start and stop them, and how
//! their status is decided from what was observed.

pub mod apache;
pub mod deno;
pub mod mariadb;
pub mod nginx;
pub mod php;
pub mod postgresql;
pub mod redis;

use vstd::prelude::*;

pub use crate::text::owned;
use crate::text::{chars_of, contains_chars, contains_text, from_utf8_lossy, lossy_text};

verus! {

/// Service operational status.
pub enum ServiceStatus {
    Running,
    Stopped,
    Error(String),
    Unknown,
}

pub open spec fn status_label(s: ServiceStatus) -> Seq<char> {
    match s {
        ServiceStatus::Running => "Running"@,
        ServiceStatus::Stopped => "Stopped"@,
        ServiceStatus::Error(_) => "Error"@,
        ServiceStatus::Unknown => "Unknown"@,
    }
}

impl ServiceStatus {
    /// The word shown for the status.
    pub fn label(&self) -> (r: &'static str)
        ensures
            r@ == status_label(*self),
    {
        match self {
            ServiceStatus::Running => "Running",
            ServiceStatus::Stopped => "Stopped",
            ServiceStatus::Error(_) => "Error",
            ServiceStatus::Unknown => "Unknown",
        }
    }
}

/// Service info for display.
pub struct ServiceInfo {
    pub name: String,
    pub display_name: String,
    pub service_type: String,
    pub status: ServiceStatus,
    pub port: u16,
    pub version: String,
    pub is_installed: bool,
    pub is_running: bool,
}

impl ServiceInfo {
    /// The display record of a service from what its manager reports; the
    /// version column reads `detected`.
    pub fn from_manager(
        name: &str,
        display_name: &str,
        service_type: &str,
        port: u16,
        status: ServiceStatus,
        is_installed: bool,
        is_running: bool,
    ) -> (r: Self)
        ensures
            r.name@ == name@,
            r.display_name@ == display_name@,
            r.service_type@ == service_type@,
            r.port == port,
            r.status == status,
            r.version@ == "detected"@,
            r.is_installed == is_installed,
            r.is_running == is_running,
    {
        ServiceInfo {
            name: owned(name),
            display_name: owned(display_name),
            service_type: owned(service_type),
            status,
            port,
            version: owned("detected"),
            is_installed,
            is_running,
        }
    }
}

/// The status of a service from what was observed: `exe` is `None` when the
/// service has no executable path, else whether that executable exists.
pub fn status_of(exe: Option<bool>, running: bool) -> (r: ServiceStatus)
    ensures
        match exe {
            Some(true) => if running {
                r is Running
            } else {
                r is Stopped
            },
            Some(false) => r matches ServiceStatus::Error(e) && e@ == "Executable not found"@,
            None => r is Unknown,
        },
{
    match exe {
        Some(true) => if running {
            ServiceStatus::Running
        } else {
            ServiceStatus::Stopped
        },
        Some(false) => ServiceStatus::Error(owned("Executable not found")),
        None => ServiceStatus::Unknown,
    }
}

/// The process list printed by `tasklist` (raw bytes, decoded as
/// `String::from_utf8_lossy` does) mentions `image`.
pub fn tasklist_shows(stdout: &[u8], image: &str) -> (r: bool)
    ensures
        r == contains_text(lossy_text(stdout@), image@),
{
    let text = from_utf8_lossy(stdout);
    let hay = chars_of(text.as_str());
    let needle = chars_of(image);
    contains_chars(hay.as_slice(), needle.as_slice())
}

/// A path as its components, relative to the installation root.
pub open spec fn path_view(v: Vec<&'static str>) -> Seq<Seq<char>> {
    v@.map_values(|s: &'static str| s@)
}

pub fn path_of(parts: &[&'static str]) -> (r: Vec<&'static str>)
    ensures
        r@ == parts@,
{
    let mut r: Vec<&'static str> = Vec::new();
    for i in 0..parts.len()
        invariant
            r@ == parts@.take(i as int),
    {
        r.push(parts[i]);
        assert(parts@.take(i + 1) == parts@.take(i as int).push(parts@[i as int]));
    }
    assert(parts@.take(parts@.len() as int) == parts@);
    r
}

/// One command-line argument: a fixed text, or a path under the root.
pub enum Arg {
    Text(&'static str),
    Path(Vec<&'static str>),
}

pub enum ArgSpec {
    Text(Seq<char>),
    Path(Seq<Seq<char>>),
}

pub open spec fn arg_view(a: Arg) -> ArgSpec {
    match a {
        Arg::Text(t) => ArgSpec::Text(t@),
        Arg::Path(p) => ArgSpec::Path(path_view(p)),
    }
}

/// A command to run: the program (relative to the root) and its arguments.
pub struct CommandPlan {
    pub program: Vec<&'static str>,
    pub args: Vec<Arg>,
}

pub open spec fn plan_view(p: CommandPlan) -> (Seq<Seq<char>>, Seq<ArgSpec>) {
    (path_view(p.program), p.args@.map_values(|a: Arg| arg_view(a)))
}

} // verus!
