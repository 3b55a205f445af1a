//! The target interpreter as the library sees it: a name, a location, and
//! the compatibility tag its environment directories are keyed by.
//!
//! Discovering an interpreter and querying its tag run subprocesses; the
//! caller does that and hands the results in as plain values.  Paths are
//! carried as `/`-joined strings.

use vstd::prelude::*;
use vstd::string::StringExecFns;

verus! {

/// Why an interpreter cannot serve.
#[derive(Debug)]
pub enum Error {
    /// The interpreter reported no compatibility tag; carries its name.
    IncompatibleInterpreterError(String),
}

/// One discovered Python interpreter.
#[derive(Debug)]
pub struct Interpreter {
    pub name: String,
    pub location: String,
    /// The compatibility tag the interpreter reported, or `None` when it
    /// reported none.
    pub comptag: Option<String>,
}

impl Interpreter {
    pub fn new(name: &str, location: &str, comptag: Option<String>) -> (r: Interpreter)
        ensures
            r.name@ == name@,
            r.location@ == location@,
            r.comptag == comptag,
    {
        Interpreter { name: name.to_owned(), location: location.to_owned(), comptag }
    }

    pub fn name(&self) -> (r: &str)
        ensures
            r@ == self.name@,
    {
        self.name.as_str()
    }

    pub fn location(&self) -> (r: &str)
        ensures
            r@ == self.location@,
    {
        self.location.as_str()
    }

    /// The reported compatibility tag, or the error naming this interpreter
    /// when it has none.
    pub fn compatibility_tag(&self) -> (r: Result<String, Error>)
        ensures
            match self.comptag {
                Some(t) => r matches Ok(v) && v@ == t@,
                None => r matches Err(Error::IncompatibleInterpreterError(n)) && n@ == self.name@,
            },
    {
        match &self.comptag {
            Some(t) => Ok(t.clone()),
            None => Err(Error::IncompatibleInterpreterError(self.name.clone())),
        }
    }

    /// Where this interpreter's site-packages directory is expected under a
    /// `__pypackages__` directory: `Lib/site-packages` inside the tag-named
    /// environment on Windows, `lib/<version_name>/site-packages` elsewhere,
    /// with `version_name` the `pythonM.m` name the interpreter reports.
    pub fn presumed_site_packages(&self, pypackages: &str, windows: bool, version_name: &str) -> (r:
        Result<String, Error>)
        ensures
            match self.comptag {
                Some(t) => r matches Ok(p) && p@ == (if windows {
                    pypackages@ + "/"@ + t@ + "/Lib/site-packages"@
                } else {
                    pypackages@ + "/"@ + t@ + "/lib/"@ + version_name@ + "/site-packages"@
                }),
                None => r matches Err(Error::IncompatibleInterpreterError(n)) && n@ == self.name@,
            },
    {
        match &self.comptag {
            Some(t) => {
                let mut p = pypackages.to_owned();
                p.append("/");
                p.append(t.as_str());
                if windows {
                    p.append("/Lib/site-packages");
                } else {
                    p.append("/lib/");
                    p.append(version_name);
                    p.append("/site-packages");
                }
                Ok(p)
            },
            None => Err(Error::IncompatibleInterpreterError(self.name.clone())),
        }
    }

    /// Where this interpreter's environment lives under a `__pypackages__`
    /// directory: the tag-named subdirectory.
    pub fn presumed_env_root(&self, pypackages: &str) -> (r: Result<String, Error>)
        ensures
            match self.comptag {
                Some(t) => r matches Ok(p) && p@ == pypackages@ + "/"@ + t@,
                None => r matches Err(Error::IncompatibleInterpreterError(n)) && n@ == self.name@,
            },
    {
        match &self.comptag {
            Some(t) => {
                let mut p = pypackages.to_owned();
                p.append("/");
                p.append(t.as_str());
                Ok(p)
            },
            None => Err(Error::IncompatibleInterpreterError(self.name.clone())),
        }
    }
}

} // verus!
