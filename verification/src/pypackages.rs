//! Resolved installable packages and the requirement line each one renders
//! for the installer.

use vstd::prelude::*;
use vstd::string::StringExecFns;
use crate::hashes::Hashes;
use crate::sources::Source;
use crate::urls::{
    url_check, url_host, url_host_of, url_parse, url_path, url_path_of, url_replace_path,
    url_set_fragment, url_with_fragment, url_with_path, URL_LEN_LIMIT,
};
use vstd::string::StrSliceExecFns;

verus! {

/// How a package is obtained: a pinned version (optionally from a named
/// source), a direct URL, a local path, or a VCS reference with a revision.
#[derive(Debug)]
pub enum PythonPackageSpecifier {
    Version(String, Option<Source>),
    Url(String, bool),
    Path(String),
    Vcs(String, String),
}

/// A fully resolved installable unit.
#[derive(Debug)]
pub struct PythonPackage {
    pub name: String,
    pub specifier: PythonPackageSpecifier,
    pub hashes: Option<Hashes>,
}

/// ` --trusted-host=H` when the host `H` of `u` exists and verification is
/// switched off; empty otherwise.
pub open spec fn spec_trusted_host(u: Seq<char>, no_verify_ssl: bool) -> Seq<char> {
    if no_verify_ssl && url_host(u) is Some {
        " --trusted-host="@ + url_host(u)->Some_0
    } else {
        Seq::<char>::empty()
    }
}

/// The requirement-line part that names the package, by specifier kind.
pub open spec fn spec_specifier_part(name: Seq<char>, specifier: PythonPackageSpecifier) -> Seq<
    char,
> {
    match specifier {
        PythonPackageSpecifier::Version(v, None) => name + " == "@ + v@,
        PythonPackageSpecifier::Version(v, Some(src)) => name + " == "@ + v@ + " --index-url="@
            + src.base_url@ + spec_trusted_host(src.base_url@, src.no_verify_ssl),
        PythonPackageSpecifier::Url(u, trust) => url_with_fragment(u@, "egg="@ + name)
            + spec_trusted_host(u@, trust),
        PythonPackageSpecifier::Path(p) => p@,
        PythonPackageSpecifier::Vcs(u, rev) => url_with_fragment(
            url_with_path(u@, url_path(u@) + "@"@ + rev@),
            "egg="@ + name,
        ),
    }
}

/// ` --hash A:D` for each recorded pair, in order.
pub open spec fn spec_hash_args(pairs: Seq<(Seq<char>, Seq<char>)>) -> Seq<char>
    decreases pairs.len(),
{
    if pairs.len() == 0 {
        Seq::<char>::empty()
    } else {
        spec_hash_args(pairs.drop_last()) + " --hash "@ + pairs.last().0 + ":"@ + pairs.last().1
    }
}

/// The whole requirement line of a package whose URLs are canonical.
pub open spec fn spec_requirement(p: PythonPackage) -> Seq<char> {
    spec_specifier_part(p.name@, p.specifier) + match p.hashes {
        None => Seq::<char>::empty(),
        Some(h) => spec_hash_args(h.pairs()),
    }
}

/// The specifier part on every input: where a carried URL string does not
/// parse, it is rendered verbatim and no trusted-host can be derived from
/// it.  On canonical URLs this coincides with `spec_specifier_part`.
pub open spec fn spec_rendered_part(name: Seq<char>, specifier: PythonPackageSpecifier) -> Seq<
    char,
> {
    match specifier {
        PythonPackageSpecifier::Version(v, None) => name + " == "@ + v@,
        PythonPackageSpecifier::Version(v, Some(src)) => name + " == "@ + v@ + " --index-url="@
            + src.base_url@ + (if url_parse(src.base_url@) is Some {
            spec_trusted_host(src.base_url@, src.no_verify_ssl)
        } else {
            Seq::<char>::empty()
        }),
        PythonPackageSpecifier::Url(u, trust) => if url_parse(u@) is Some && u@.len() < (
        URL_LEN_LIMIT as int) {
            url_with_fragment(u@, "egg="@ + name) + spec_trusted_host(u@, trust)
        } else {
            u@
        },
        PythonPackageSpecifier::Path(p) => p@,
        PythonPackageSpecifier::Vcs(u, rev) => if url_parse(u@) is Some && u@.len() + (url_path(u@)
            + "@"@ + rev@).len() < (URL_LEN_LIMIT as int) && url_with_path(
            u@,
            url_path(u@) + "@"@ + rev@,
        ).len() < (URL_LEN_LIMIT as int) {
            url_with_fragment(url_with_path(u@, url_path(u@) + "@"@ + rev@), "egg="@ + name)
        } else {
            u@
        },
    }
}

/// The whole requirement line on every input.
pub open spec fn spec_rendered_requirement(p: PythonPackage) -> Seq<char> {
    spec_rendered_part(p.name@, p.specifier) + match p.hashes {
        None => Seq::<char>::empty(),
        Some(h) => spec_hash_args(h.pairs()),
    }
}

impl PythonPackage {
    /// The URL strings a specifier carries are canonical serializations.
    pub open spec fn urls_ok(self) -> bool {
        match self.specifier {
            PythonPackageSpecifier::Version(_, Some(src)) => src.wf(),
            PythonPackageSpecifier::Version(_, None) => true,
            PythonPackageSpecifier::Url(u, _) => url_parse(u@) == Some(u@),
            PythonPackageSpecifier::Path(_) => true,
            PythonPackageSpecifier::Vcs(u, _) => url_parse(u@) == Some(u@),
        }
    }

    /// Machine limit: the carried URL strings are short enough for the URL
    /// mutations the render performs (see `URL_LEN_LIMIT`).
    pub open spec fn spec_fits(self) -> bool {
        match self.specifier {
            PythonPackageSpecifier::Version(_, _) => true,
            PythonPackageSpecifier::Url(u, _) => u@.len() < (URL_LEN_LIMIT as int),
            PythonPackageSpecifier::Path(_) => true,
            PythonPackageSpecifier::Vcs(u, rev) => u@.len() + (url_path(u@) + "@"@ + rev@).len() < (
            URL_LEN_LIMIT as int) && url_with_path(u@, url_path(u@) + "@"@ + rev@).len() < (
            URL_LEN_LIMIT as int),
        }
    }

    pub open spec fn hashes_wf(self) -> bool {
        match self.hashes {
            None => true,
            Some(h) => h.wf(),
        }
    }

    /// Whether at least one content hash is recorded.
    pub open spec fn spec_has_hashes(self) -> bool {
        match self.hashes {
            None => false,
            Some(h) => h.items@.len() > 0,
        }
    }

    pub fn new(name: &str, specifier: PythonPackageSpecifier, hashes: Option<Hashes>) -> (r:
        PythonPackage)
        ensures
            r.name@ == name@,
            r.specifier == specifier,
            r.hashes == hashes,
    {
        PythonPackage { name: name.to_owned(), specifier, hashes }
    }

    pub fn name(&self) -> (r: &str)
        ensures
            r@ == self.name@,
    {
        self.name.as_str()
    }

    /// Render the requirement line handed to the installer, and report
    /// whether any hash is present (which gates `--require-hashes`).
    pub fn to_requirement_txt(&self) -> (r: (bool, String))
        ensures
            r.0 == self.spec_has_hashes(),
            r.1@ == spec_rendered_requirement(*self),
            self.urls_ok() && self.spec_fits() ==> r.1@ == spec_requirement(*self),
    {
        let mut line: String = match &self.specifier {
            PythonPackageSpecifier::Version(v, src) => {
                let mut s = self.name.clone();
                s.append(" == ");
                s.append(v.as_str());
                match src {
                    None => {},
                    Some(source) => {
                        s.append(" --index-url=");
                        s.append(source.base_url.as_str());
                        if source.no_verify_ssl {
                            match url_check(source.base_url.as_str()) {
                                Some(_) => {
                                    match url_host_of(source.base_url.as_str()) {
                                        Some(h) => {
                                            s.append(" --trusted-host=");
                                            s.append(h.as_str());
                                        },
                                        None => {},
                                    }
                                },
                                None => {},
                            }
                        }
                    },
                }
                s
            },
            PythonPackageSpecifier::Url(u, trust) => {
                match url_check(u.as_str()) {
                    Some(_) => {
                        if u.as_str().unicode_len() < URL_LEN_LIMIT {
                            let mut frag = String::new();
                            frag.append("egg=");
                            frag.append(self.name.as_str());
                            let mut s = url_set_fragment(u.as_str(), frag.as_str());
                            if *trust {
                                match url_host_of(u.as_str()) {
                                    Some(h) => {
                                        s.append(" --trusted-host=");
                                        s.append(h.as_str());
                                    },
                                    None => {},
                                }
                            }
                            s
                        } else {
                            u.clone()
                        }
                    },
                    None => u.clone(),
                }
            },
            PythonPackageSpecifier::Path(p) => p.clone(),
            PythonPackageSpecifier::Vcs(u, rev) => {
                match url_check(u.as_str()) {
                    Some(_) => {
                        let mut p = url_path_of(u.as_str());
                        p.append("@");
                        p.append(rev.as_str());
                        let ulen = u.as_str().unicode_len();
                        let plen = p.as_str().unicode_len();
                        if ulen < URL_LEN_LIMIT && plen < URL_LEN_LIMIT && ulen + plen
                            < URL_LEN_LIMIT {
                            let moved = url_replace_path(u.as_str(), p.as_str());
                            if moved.as_str().unicode_len() < URL_LEN_LIMIT {
                                let mut frag = String::new();
                                frag.append("egg=");
                                frag.append(self.name.as_str());
                                url_set_fragment(moved.as_str(), frag.as_str())
                            } else {
                                u.clone()
                            }
                        } else {
                            u.clone()
                        }
                    },
                    None => u.clone(),
                }
            },
        };
        match &self.hashes {
            None => (false, line),
            Some(h) => {
                let n = h.items.len();
                let mut i: usize = 0;
                let ghost part = line@;
                while i < n
                    invariant
                        i <= n,
                        n == h.items@.len(),
                        line@ == part + spec_hash_args(h.pairs().take(i as int)),
                    decreases n - i,
                {
                    line.append(" --hash ");
                    line.append(h.items[i].algorithm.as_str());
                    line.append(":");
                    line.append(h.items[i].digest.as_str());
                    proof {
                        assert(h.pairs().take(i + 1 as int).drop_last() =~= h.pairs().take(
                            i as int,
                        ));
                        assert(h.pairs().take(i + 1 as int).last() == (
                            h.items@[i as int].algorithm@,
                            h.items@[i as int].digest@,
                        ));
                    }
                    i = i + 1;
                }
                proof {
                    assert(h.pairs().take(n as int) =~= h.pairs());
                }
                (n > 0, line)
            },
        }
    }
}

} // verus!
