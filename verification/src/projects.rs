//! A project rooted at a directory holding `__pypackages__`, bound to the
//! interpreter that serves it.
//!
//! Filesystem probing happens outside: the caller lists the candidate
//! directories and says which of them hold the package directory; the
//! decision of where the project is rooted, and every derived path, is made
//! here.  Paths are carried as `/`-joined strings.

use vstd::prelude::*;
use vstd::string::StringExecFns;
use crate::pythons::Interpreter;

verus! {

#[derive(Debug)]
pub enum Error {
    /// No candidate directory holds `__pypackages__`; carries the directory
    /// the search started from.
    ProjectNotFoundError(String),
    /// The interpreter cannot serve this project.
    PythonInterpreterError(crate::pythons::Error),
}

/// A found project: its root directory and its interpreter.
#[derive(Debug)]
pub struct Project {
    pub interpreter: Interpreter,
    pub root: String,
}

impl Project {
    pub fn new(interpreter: Interpreter, root: &str) -> (r: Project)
        ensures
            r.interpreter == interpreter,
            r.root@ == root@,
    {
        Project { interpreter, root: root.to_owned() }
    }

    /// Pick the project root: the first of `candidates` (a directory and
    /// its ancestors, innermost first) that holds a `__pypackages__`
    /// directory, as `holds_pypackages` reports position by position.
    pub fn find(candidates: &Vec<String>, holds_pypackages: &Vec<bool>, interpreter: Interpreter)
        -> (r: Result<Project, Error>)
        requires
            candidates@.len() == holds_pypackages@.len(),
        ensures
            match r {
                Ok(p) => exists|i: int|
                    {
                        &&& 0 <= i < candidates@.len()
                        &&& holds_pypackages@[i]
                        &&& p.root@ == candidates@[i]@
                        &&& forall|j: int| 0 <= j < i ==> !holds_pypackages@[j]
                        &&& p.interpreter == interpreter
                    },
                Err(e) => (forall|j: int| 0 <= j < candidates@.len() ==> !holds_pypackages@[j])
                    && match e {
                    Error::ProjectNotFoundError(d) => candidates@.len() == 0 || d@
                        == candidates@[0]@,
                    _ => false,
                },
            },
    {
        let n = candidates.len();
        let mut i: usize = 0;
        while i < n
            invariant
                i <= n,
                n == candidates@.len(),
                n == holds_pypackages@.len(),
                forall|j: int| 0 <= j < i ==> !holds_pypackages@[j],
            decreases n - i,
        {
            if holds_pypackages[i] {
                return Ok(Project { interpreter, root: candidates[i].clone() });
            }
            i = i + 1;
        }
        if n == 0 {
            Err(Error::ProjectNotFoundError(String::new()))
        } else {
            Err(Error::ProjectNotFoundError(candidates[0].clone()))
        }
    }

    pub fn base_interpreter(&self) -> (r: &Interpreter)
        ensures
            r == &self.interpreter,
    {
        &self.interpreter
    }

    /// Where the lock file is expected: `<root>/molt.lock.json`.
    pub fn persumed_lock_file_path(&self) -> (r: String)
        ensures
            r@ == self.root@ + "/molt.lock.json"@,
    {
        let mut p = self.root.clone();
        p.append("/molt.lock.json");
        p
    }

    /// The package directory: `<root>/__pypackages__`.
    pub fn pypackages(&self) -> (r: String)
        ensures
            r@ == self.root@ + "/__pypackages__"@,
    {
        let mut p = self.root.clone();
        p.append("/__pypackages__");
        p
    }

    /// Where this project's environment is expected, keyed by the
    /// interpreter's compatibility tag.
    pub fn presumed_env_root(&self) -> (r: Result<String, Error>)
        ensures
            match self.interpreter.comptag {
                Some(t) => r matches Ok(p) && p@ == self.root@ + "/__pypackages__"@ + "/"@ + t@,
                None => r matches Err(Error::PythonInterpreterError(
                    crate::pythons::Error::IncompatibleInterpreterError(n),
                )) && n@ == self.interpreter.name@,
            },
    {
        let pkgs = self.pypackages();
        match self.interpreter.presumed_env_root(pkgs.as_str()) {
            Ok(p) => Ok(p),
            Err(e) => Err(Error::PythonInterpreterError(e)),
        }
    }
}

} // verus!
