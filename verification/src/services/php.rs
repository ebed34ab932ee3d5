//! PHP.

use vstd::prelude::*;

use super::{owned, path_of, path_view, plan_view, Arg, ArgSpec, CommandPlan, ServiceStatus};
use crate::text::{chars_of, lines, lines_of, string_of, trim_ws, trim_ws_chars, views};


verus! {

pub struct PhpService {
    /// The installation root.
    pub root: String,
}

impl PhpService {
    pub fn new(root: &String) -> (s: Self)
        ensures
            s.root == *root,
    {
        PhpService { root: root.clone() }
    }

    pub fn name(&self) -> (r: &'static str)
        ensures
            r@ == "php"@,
    {
        "php"
    }

    pub fn display_name(&self) -> (r: &'static str)
        ensures
            r@ == "PHP"@,
    {
        "PHP"
    }

    pub fn service_type(&self) -> (r: &'static str)
        ensures
            r@ == "php-cgi"@,
    {
        "php-cgi"
    }

    pub fn default_port(&self) -> (r: u16)
        ensures
            r == 9000,
    {
        9000
    }

    /// The executable, relative to the root; installed when it exists.
    pub fn exe_path(&self) -> (r: Vec<&'static str>)
        ensures
            path_view(r) == seq!["php"@, "php.exe"@],
    {
        path_of(&["php", "php.exe"])
    }

    /// The configuration file, relative to the root.
    pub fn config_path(&self) -> (r: Option<Vec<&'static str>>)
        ensures
            r matches Some(p) && path_view(p) == seq!["php"@, "php.ini"@],
    {
        Some(path_of(&["php", "php.ini"]))
    }

    /// The image name the process list is searched for.
    pub fn image_name(&self) -> (r: &'static str)
        ensures
            r@ == "php-cgi.exe"@,
    {
        "php-cgi.exe"
    }

    /// `start` is not implemented for this service: always `Err("Not implemented")`.
    pub fn start_plan(&self, installed: bool) -> (r: Result<CommandPlan, String>)
        ensures
            r matches Err(e) && e@ == "Not implemented"@,
    {
        Err(owned("Not implemented"))
    }

    /// `stop` is not implemented for this service: always `Err("Not implemented")`.
    pub fn stop_plan(&self, installed: bool) -> (r: Result<CommandPlan, String>)
        ensures
            r matches Err(e) && e@ == "Not implemented"@,
    {
        Err(owned("Not implemented"))
    }

    /// Not installed is an error; otherwise `Stopped` (PHP runs on demand).
    pub fn status_from(&self, installed: bool) -> (r: ServiceStatus)
        ensures
            !installed ==> (r matches ServiceStatus::Error(e) && e@ == "PHP not installed"@),
            installed ==> r is Stopped,
    {
        if !installed {
            return ServiceStatus::Error(owned("PHP not installed"));
        }
        ServiceStatus::Stopped
    }
}

pub open spec fn module_line() -> spec_fn(Seq<char>) -> bool {
    |l: Seq<char>| trim_ws(l).len() > 0 && !(l.len() > 0 && l[0] == '[')
}

/// The modules listed by `php -m`: each line that is not blank and does not
/// start with `[`, trimmed.
pub open spec fn php_modules(out: Seq<char>) -> Seq<Seq<char>> {
    lines(out).filter(module_line()).map_values(|l: Seq<char>| trim_ws(l))
}

/// The first line of `php --version`, or `Not found` when there is no
/// output to read.
pub open spec fn php_version_line(out: Option<Seq<char>>) -> Seq<char> {
    match out {
        Some(s) => if lines(s).len() > 0 {
            lines(s)[0]
        } else {
            "Not found"@
        },
        None => "Not found"@,
    }
}

pub open spec fn opt_text(o: Option<&str>) -> Option<Seq<char>> {
    match o {
        Some(s) => Some(s@),
        None => None,
    }
}

impl PhpService {
    /// The version line from the output of `php --version` (`None` when PHP is
    /// missing, did not run or printed invalid UTF-8).
    pub fn version_string(&self, output: Option<&str>) -> (r: String)
        ensures
            r@ == php_version_line(opt_text(output)),
    {
        match output {
            Some(s) => {
                let chars = chars_of(s);
                let ls = lines_of(chars.as_slice());
                if ls.len() > 0 {
                    assert(views(ls@)[0] == ls@[0]@);
                    string_of(ls[0].as_slice())
                } else {
                    owned("Not found")
                }
            },
            None => owned("Not found"),
        }
    }

    /// The module names from the output of `php -m` (`None` when PHP is
    /// missing, did not run or printed invalid UTF-8).
    pub fn modules(&self, output: Option<&str>) -> (r: Vec<String>)
        ensures
            match output {
                Some(s) => r@.map_values(|m: String| m@) == php_modules(s@),
                None => r@.len() == 0,
            },
    {
        let mut out: Vec<String> = Vec::new();
        let s = match output {
            Some(s) => s,
            None => return out,
        };
        let chars = chars_of(s);
        let ls = lines_of(chars.as_slice());
        let ghost lv = views(ls@);
        proof {
            reveal(Seq::filter);
            assert(out@.map_values(|m: String| m@) =~= lv.take(0).filter(module_line()).map_values(
                |l: Seq<char>| trim_ws(l),
            ));
        }
        for i in 0..ls.len()
            invariant
                lv == views(ls@),
                out@.map_values(|m: String| m@) == lv.take(i as int).filter(module_line()).map_values(
                    |l: Seq<char>| trim_ws(l),
                ),
        {
            proof {
                reveal(Seq::filter);
                assert(lv.take(i + 1).drop_last() == lv.take(i as int));
                assert(lv[i as int] == ls@[i as int]@);
            }
            let line = &ls[i];
            let trimmed = trim_ws_chars(line.as_slice());
            let bracket = line.len() > 0 && line[0] == '[';
            let ghost before = out@;
            if trimmed.len() > 0 && !bracket {
                out.push(string_of(trimmed.as_slice()));
                assert(out@.map_values(|m: String| m@) =~= before.map_values(|m: String| m@).push(
                    trim_ws(lv[i as int]),
                ));
            }
            assert(out@.map_values(|m: String| m@) =~= lv.take(i + 1).filter(module_line()).map_values(
                |l: Seq<char>| trim_ws(l),
            ));
        }
        assert(lv.take(ls.len() as int) == lv);
        out
    }
}


} // verus!
