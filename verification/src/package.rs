//! Package manifests and lock files, and the pure edits made to them.
//!
//! Loading and saving the documents is the caller's business; this module
//! holds the structures and the edits: initialising a manifest from a
//! directory name, and adding or removing a dependency.

use vstd::prelude::*;
use crate::strutil::last_index_of;

verus! {

/// Why a manifest operation failed.
#[derive(Debug)]
pub enum PackageError {
    /// A filesystem failure.
    IoError(String),
    /// The document is not well-formed JSON.
    JsonError(String),
    /// The manifest file does not exist.
    ManifestNotFound,
    /// The document parses but misses a required field.
    InvalidManifest(String),
}

/// A package manifest.
#[derive(Debug)]
pub struct PackageManifest {
    pub name: String,
    pub version: String,
    pub description: Option<String>,
    pub author: Option<String>,
    pub main: Option<String>,
    pub dependencies: Vec<(String, String)>,
    pub dev_dependencies: Vec<(String, String)>,
}

impl Default for PackageManifest {
    /// The empty manifest: no name, version `0.1.0`, nothing else.
    fn default() -> (r: Self)
        ensures
            r.name@.len() == 0,
            r.version@ == "0.1.0"@,
            r.description is None,
            r.author is None,
            r.main is None,
            r.dependencies@.len() == 0,
            r.dev_dependencies@.len() == 0,
    {
        PackageManifest {
            name: String::new(),
            version: "0.1.0".to_owned(),
            description: None,
            author: None,
            main: None,
            dependencies: Vec::new(),
            dev_dependencies: Vec::new(),
        }
    }
}

/// A lock file.
#[derive(Debug)]
pub struct LockFile {
    pub version: String,
    pub packages: Vec<(String, LockPackage)>,
}

/// One package pinned in the lock file.
#[derive(Debug)]
pub struct LockPackage {
    pub version: String,
    pub resolved: String,
    pub integrity: String,
    pub dependencies: Vec<(String, String)>,
}

/// Some key of the dependency map reads `n`.
pub open spec fn has_key(d: Seq<(String, String)>, n: Seq<char>) -> bool {
    exists|i: int| 0 <= i < d.len() && (#[trigger] d[i]).0@ == n
}

/// The dependency map `b` is `a` with key `n` bound to `v`: the first entry
/// keyed `n` is replaced, or a new entry appended.
pub open spec fn map_set(
    a: Seq<(String, String)>,
    b: Seq<(String, String)>,
    n: Seq<char>,
    v: Seq<char>,
) -> bool {
    if has_key(a, n) {
        exists|k: int|
            {
                &&& 0 <= k < a.len()
                &&& (#[trigger] a[k]).0@ == n
                &&& forall|m: int| 0 <= m < k ==> (#[trigger] a[m]).0@ != n
                &&& b.len() == a.len()
                &&& forall|m: int| 0 <= m < a.len() && m != k ==> #[trigger] b[m] == a[m]
                &&& b[k].0@ == n
                &&& b[k].1@ == v
            }
    } else {
        &&& b.len() == a.len() + 1
        &&& forall|m: int| 0 <= m < a.len() ==> #[trigger] b[m] == a[m]
        &&& b.last().0@ == n
        &&& b.last().1@ == v
    }
}

/// The dependency map `b` is `a` with the first entry keyed `n` removed, if
/// any.
pub open spec fn map_unset(a: Seq<(String, String)>, b: Seq<(String, String)>, n: Seq<char>) -> bool {
    if has_key(a, n) {
        exists|k: int|
            {
                &&& 0 <= k < a.len()
                &&& (#[trigger] a[k]).0@ == n
                &&& forall|m: int| 0 <= m < k ==> (#[trigger] a[m]).0@ != n
                &&& b == a.remove(k)
            }
    } else {
        b == a
    }
}

/// Binds `name` to `version` in the map: replaces the first entry of that
/// key, or appends one.
fn deps_set(d: &mut Vec<(String, String)>, name: &str, version: &str)
    ensures
        map_set(old(d)@, final(d)@, name@, version@),
{
    let mut i: usize = 0;
    while i < d.len()
        invariant
            i <= d@.len(),
            d@ == old(d)@,
            forall|m: int| 0 <= m < i ==> (#[trigger] d@[m]).0@ != name@,
        decreases d@.len() - i,
    {
        if crate::strutil::str_eq_str(d[i].0.as_str(), name) {
            let _ = d.remove(i);
            d.insert(i, (name.to_owned(), version.to_owned()));
            proof {
                old(d)@.remove_ensures(i as int);
                old(d)@.remove(i as int).insert_ensures(
                    i as int,
                    (d@[i as int].0, d@[i as int].1),
                );
                assert forall|m: int|
                    0 <= m < old(d)@.len() && m != i implies #[trigger] d@[m] == old(d)@[m] by {
                    if m < i {
                        assert(d@[m] == old(d)@.remove(i as int)[m]);
                    } else {
                        assert(d@[m] == old(d)@.remove(i as int)[m - 1]);
                        assert(old(d)@.remove(i as int)[m - 1] == old(d)@[m]);
                    }
                }
                assert(has_key(old(d)@, name@));
            }
            return ;
        }
        i += 1;
    }
    d.push((name.to_owned(), version.to_owned()));
    proof {
        assert(!has_key(old(d)@, name@));
    }
}

/// Removes the first entry keyed `name`, reporting whether one was there.
fn deps_unset(d: &mut Vec<(String, String)>, name: &str) -> (r: bool)
    ensures
        map_unset(old(d)@, final(d)@, name@),
        r == has_key(old(d)@, name@),
{
    let mut i: usize = 0;
    while i < d.len()
        invariant
            i <= d@.len(),
            d@ == old(d)@,
            forall|m: int| 0 <= m < i ==> (#[trigger] d@[m]).0@ != name@,
        decreases d@.len() - i,
    {
        if crate::strutil::str_eq_str(d[i].0.as_str(), name) {
            let _ = d.remove(i);
            proof {
                assert(has_key(old(d)@, name@));
            }
            return true;
        }
        i += 1;
    }
    false
}

/// The package manager, bound to one project root directory.
pub struct PackageManager {
    root_dir: String,
}

impl PackageManager {
    /// The project root directory.
    pub closed spec fn root_dir(self) -> Seq<char> {
        self.root_dir@
    }

    /// Create a new package manager with the given root directory.
    pub fn new(root_dir: String) -> (s: PackageManager)
        ensures
            s.root_dir() == root_dir@,
    {
        PackageManager { root_dir }
    }

    /// The name a fresh package takes: the last path segment of the root
    /// directory, or `my-package` when that is empty.
    pub open spec fn fresh_name(self) -> Seq<char> {
        let base = match last_index_of(self.root_dir(), '/') {
            Some(k) => self.root_dir().skip(k + 1),
            None => self.root_dir(),
        };
        if base.len() == 0 {
            "my-package"@
        } else {
            base
        }
    }

    /// The manifest a fresh package starts from: named after the root
    /// directory, otherwise the default.  Saving it is the caller's
    /// business.
    pub fn init_package(&self) -> (r: PackageManifest)
        ensures
            r.name@ == self.fresh_name(),
            r.version@ == "0.1.0"@,
            r.dependencies@.len() == 0,
            r.dev_dependencies@.len() == 0,
    {
        let len = self.root_dir.as_str().unicode_len();
        let base = match crate::strutil::rfind_char(self.root_dir.as_str(), '/') {
            Some(k) => {
                let b = self.root_dir.as_str().substring_char(k + 1, len);
                proof {
                    assert(b@ =~= self.root_dir@.skip(k as int + 1));
                }
                b
            },
            None => self.root_dir.as_str(),
        };
        let name = if base.unicode_len() == 0 {
            "my-package".to_owned()
        } else {
            base.to_owned()
        };
        let mut m = PackageManifest::default();
        m.name = name;
        m
    }

    /// Binds `name` to `version` among the manifest's dependencies (or dev
    /// dependencies); every other field is untouched.
    pub fn add_dependency(
        &self,
        manifest: &mut PackageManifest,
        name: &str,
        version: &str,
        is_dev: bool,
    )
        ensures
            final(manifest).name == old(manifest).name,
            final(manifest).version == old(manifest).version,
            final(manifest).description == old(manifest).description,
            final(manifest).author == old(manifest).author,
            final(manifest).main == old(manifest).main,
            if is_dev {
                final(manifest).dependencies == old(manifest).dependencies && map_set(
                    old(manifest).dev_dependencies@,
                    final(manifest).dev_dependencies@,
                    name@,
                    version@,
                )
            } else {
                final(manifest).dev_dependencies == old(manifest).dev_dependencies && map_set(
                    old(manifest).dependencies@,
                    final(manifest).dependencies@,
                    name@,
                    version@,
                )
            },
    {
        if is_dev {
            deps_set(&mut manifest.dev_dependencies, name, version);
        } else {
            deps_set(&mut manifest.dependencies, name, version);
        }
    }

    /// Removes `name` from both dependency maps, reporting whether it was
    /// bound in either; every other field is untouched.
    pub fn remove_dependency(&self, manifest: &mut PackageManifest, name: &str) -> (r: bool)
        ensures
            final(manifest).name == old(manifest).name,
            final(manifest).version == old(manifest).version,
            final(manifest).description == old(manifest).description,
            final(manifest).author == old(manifest).author,
            final(manifest).main == old(manifest).main,
            map_unset(old(manifest).dependencies@, final(manifest).dependencies@, name@),
            map_unset(old(manifest).dev_dependencies@, final(manifest).dev_dependencies@, name@),
            r == (has_key(old(manifest).dependencies@, name@) || has_key(
                old(manifest).dev_dependencies@,
                name@,
            )),
    {
        let a = deps_unset(&mut manifest.dependencies, name);
        let b = deps_unset(&mut manifest.dev_dependencies, name);
        a || b
    }
}

} // verus!
