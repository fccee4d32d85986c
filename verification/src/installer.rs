//! Package installation planning: where a package's files go under the
//! package store, which writes its archive expands to, and which executable
//! links its manifest asks for.
//!
//! A scoped name `@scope/name` maps to the two-level directory
//! `@scope/name`, never to one flattened segment.  Executing the planned
//! writes and links is the caller's business.

use vstd::prelude::*;
use crate::archive::{
    common_prefix, gunzip, gunzip_of, plan_view, spec_plan, tar_entries_of, tar_list, FileAction,
};
use crate::strutil::first_index_from;

verus! {

/// Why an install could not be planned.
#[derive(Debug)]
pub enum InstallError {
    /// The bytes are not a well-formed gzipped tar archive.
    InvalidArchive,
}

/// The entries of gzipped tarball bytes, if they decompress and parse.
pub open spec fn tar_of_gz(gz: Seq<u8>) -> Option<Seq<(Seq<char>, Seq<u8>, u32, bool)>> {
    match gunzip_of(gz) {
        Some(t) => tar_entries_of(t),
        None => None,
    }
}

/// The directory segments a package installs under, relative to the package
/// store root: a scoped name `@scope/name` becomes the two segments
/// `@scope` and `name`; any other name is one segment.
pub open spec fn dir_segments(name: Seq<char>) -> Seq<Seq<char>> {
    if name.len() > 0 && name[0] == '@' {
        match first_index_from(name, '/', 0) {
            Some(k) => if first_index_from(name, '/', k + 1) is None {
                seq![name.subrange(0, k), name.skip(k + 1)]
            } else {
                seq![name]
            },
            None => seq![name],
        }
    } else {
        seq![name]
    }
}

/// Names of a sequence of path segments.
pub open spec fn segments_view(s: Seq<String>) -> Seq<Seq<char>> {
    s.map_values(|x: String| x@)
}

/// Splits a package name into its install directory segments.
pub fn install_dir_segments(name: &str) -> (r: Vec<String>)
    ensures
        segments_view(r@) == dir_segments(name@),
{
    let len = name.unicode_len();
    let mut r: Vec<String> = Vec::new();
    if len > 0 && name.get_char(0) == '@' {
        match crate::strutil::find_char_from(name, '/', 0) {
            Some(k) => {
                match crate::strutil::find_char_from(name, '/', k + 1) {
                    None => {
                        let scope = name.substring_char(0, k);
                        let rest = name.substring_char(k + 1, len);
                        proof {
                            assert(scope@ =~= name@.subrange(0, k as int));
                            assert(rest@ =~= name@.skip(k as int + 1));
                        }
                        r.push(scope.to_owned());
                        r.push(rest.to_owned());
                        proof {
                            assert(segments_view(r@) =~= dir_segments(name@));
                        }
                        return r;
                    },
                    Some(_) => {
                        r.push(name.to_owned());
                        proof {
                            assert(segments_view(r@) =~= dir_segments(name@));
                        }
                        return r;
                    },
                }
            },
            None => {
                r.push(name.to_owned());
                proof {
                    assert(segments_view(r@) =~= dir_segments(name@));
                }
                return r;
            },
        }
    }
    r.push(name.to_owned());
    proof {
        assert(segments_view(r@) =~= dir_segments(name@));
    }
    r
}

/// A planned install: the package's directory under the store, and the
/// writes its archive expands to.
#[derive(Debug)]
pub struct InstallPlan {
    pub package_dir: Vec<String>,
    pub actions: Vec<FileAction>,
}

/// A planned executable link: `name` under the bin directory, pointing at
/// `target` inside the package.
#[derive(Debug)]
pub struct BinLink {
    pub name: String,
    pub target: String,
}

/// What a package manifest's `bin` field declares: nothing, a single script
/// (the binary takes the package's name), or a map from binary names to
/// scripts.
#[derive(Debug)]
pub enum BinSpec {
    Missing,
    Single(String),
    Entries(Vec<(String, String)>),
}

/// The package installer, bound to one project directory.
pub struct PackageInstaller {
    project_dir: String,
}

impl PackageInstaller {
    /// The project directory this installer installs under.
    pub closed spec fn project_dir(self) -> Seq<char> {
        self.project_dir@
    }

    /// Create a new package installer.
    pub fn new(project_dir: String) -> (s: PackageInstaller)
        ensures
            s.project_dir() == project_dir@,
    {
        PackageInstaller { project_dir }
    }

    /// Plans the installation of one package from gzipped tarball bytes:
    /// succeeds exactly when the bytes are a well-formed gzipped tar
    /// archive, with the archive's extraction plan (common leading segment
    /// stripped if every entry shares one) under the package's directory
    /// segments.
    pub fn install_from_tarball(&self, tarball: &Vec<u8>, package_name: &str) -> (r: Result<
        InstallPlan,
        InstallError,
    >)
        ensures
            match r {
                Ok(plan) => {
                    &&& segments_view(plan.package_dir@) == dir_segments(package_name@)
                    &&& match tar_of_gz(tarball@) {
                        Some(es) => plan_view(plan.actions@) == spec_plan(es, common_prefix(es)),
                        None => false,
                    }
                },
                Err(e) => tar_of_gz(tarball@) is None && e is InvalidArchive,
            },
    {
        let tar_bytes = match gunzip(tarball.as_slice()) {
            Some(t) => t,
            None => {
                return Err(InstallError::InvalidArchive);
            },
        };
        let entries = match tar_list(tar_bytes.as_slice()) {
            Some(es) => es,
            None => {
                return Err(InstallError::InvalidArchive);
            },
        };
        let actions = crate::archive::plan_extraction(entries);
        let package_dir = install_dir_segments(package_name);
        Ok(InstallPlan { package_dir, actions })
    }

    /// Plans the executable links for a package's `bin` declaration: none
    /// without one, one link named after the package for a single script,
    /// and one link per entry of a map.
    pub fn plan_bin_links(&self, package_name: &str, bin: &BinSpec) -> (r: Vec<BinLink>)
        ensures
            match bin {
                BinSpec::Missing => r@.len() == 0,
                BinSpec::Single(p) => r@.len() == 1 && r@[0].name@ == package_name@
                    && r@[0].target@ == p@,
                BinSpec::Entries(m) => r@.len() == m@.len() && forall|i: int|
                    0 <= i < m@.len() ==> (#[trigger] r@[i]).name@ == m@[i].0@ && r@[i].target@
                        == m@[i].1@,
            },
    {
        let mut r: Vec<BinLink> = Vec::new();
        match bin {
            BinSpec::Missing => r,
            BinSpec::Single(p) => {
                r.push(BinLink { name: package_name.to_owned(), target: p.clone() });
                r
            },
            BinSpec::Entries(m) => {
                let mut i: usize = 0;
                while i < m.len()
                    invariant
                        i <= m@.len(),
                        r@.len() == i,
                        forall|k: int|
                            0 <= k < i ==> (#[trigger] r@[k]).name@ == m@[k].0@ && r@[k].target@
                                == m@[k].1@,
                    decreases m@.len() - i,
                {
                    r.push(BinLink { name: m[i].0.clone(), target: m[i].1.clone() });
                    i += 1;
                }
                r
            },
        }
    }
}

} // verus!
