//! Package resolution: mapping a (name, version-request) pair to exact
//! metadata out of a registry document.
//!
//! The registry document for a package holds the `latest` dist-tag and one
//! entry per published version; fetching and decoding it is the caller's
//! business.  Resolution picks the version tagged `latest` for the `latest`
//! sentinel, the literal version for an exact request, and the highest
//! published version satisfying a caret/tilde range.

use vstd::prelude::*;
use crate::version::{
    denotes_req, lemma_denotes_req_unique, parse_version_req, req_matches, version_le, Version,
    VersionReq,
};

verus! {

/// Why resolution failed.
#[derive(Debug)]
pub enum ResolverError {
    /// The registry has no package under the requested name.
    PackageNotFound(String),
    /// No published version satisfies the request.
    VersionResolutionFailed(String),
    /// A transport fault talking to the registry.
    NetworkError(String),
    /// The registry answered with something malformed.
    RegistryError(String),
}

/// One requested dependency and, once resolution ran, its outcome.
#[derive(Debug)]
pub struct Dependency {
    pub name: String,
    pub version_req: String,
    pub resolved_version: Option<Version>,
}

/// Where a version's archive lives and what it must hash to.
#[derive(Debug)]
pub struct PackageDist {
    pub tarball: String,
    pub shasum: String,
}

/// Exact metadata of one resolved package version.
#[derive(Debug)]
pub struct PackageMetadata {
    pub name: String,
    pub version: Version,
    pub dependencies: Vec<(String, String)>,
    pub dist: PackageDist,
}

/// One published version in a registry document.
#[derive(Debug)]
pub struct VersionEntry {
    pub version: Version,
    pub dist: PackageDist,
    pub dependencies: Vec<(String, String)>,
}

/// A package's registry document: its `latest` dist-tag, if the tag exists
/// and names a well-formed version, and its published versions.
#[derive(Debug)]
pub struct RegistryDoc {
    pub name: String,
    pub latest: Option<Version>,
    pub versions: Vec<VersionEntry>,
}

/// A dependency map as plain values.
pub open spec fn deps_view(d: Seq<(String, String)>) -> Seq<(Seq<char>, Seq<char>)> {
    d.map_values(|p: (String, String)| (p.0@, p.1@))
}

/// `m` carries exactly the content of entry `e` of document `doc`.
pub open spec fn entry_meta(doc: RegistryDoc, e: VersionEntry, m: PackageMetadata) -> bool {
    &&& m.name@ == doc.name@
    &&& m.version == e.version
    &&& m.dist.tarball@ == e.dist.tarball@
    &&& m.dist.shasum@ == e.dist.shasum@
    &&& deps_view(m.dependencies@) == deps_view(e.dependencies@)
}

/// Some entry of `vs` is published at version `v`.
pub open spec fn has_version(vs: Seq<VersionEntry>, v: Version) -> bool {
    exists|i: int| 0 <= i < vs.len() && (#[trigger] vs[i]).version == v
}

/// Some entry of `vs` satisfies request `q`.
pub open spec fn some_match(vs: Seq<VersionEntry>, q: VersionReq) -> bool {
    exists|i: int| 0 <= i < vs.len() && req_matches(q, (#[trigger] vs[i]).version)
}

/// `m` is a correct resolution of request string `rs` against `doc`: its
/// content is that of a published entry, and its version is the `latest` tag
/// for the sentinel, or the highest published version satisfying the
/// request.
pub open spec fn resolution_ok(doc: RegistryDoc, rs: Seq<char>, m: PackageMetadata) -> bool {
    &&& exists|i: int|
        0 <= i < doc.versions@.len() && entry_meta(doc, #[trigger] doc.versions@[i], m)
    &&& if rs == "latest"@ {
        doc.latest == Some(m.version)
    } else {
        exists|q: VersionReq|
            {
                &&& #[trigger] denotes_req(rs, q)
                &&& req_matches(q, m.version)
                &&& forall|j: int|
                    0 <= j < doc.versions@.len() && req_matches(
                        q,
                        (#[trigger] doc.versions@[j]).version,
                    ) ==> version_le(doc.versions@[j].version, m.version)
            }
    }
}

/// No resolution of request string `rs` against `doc` exists: the `latest`
/// tag is absent or unpublished, the request is malformed, or no published
/// version satisfies it.
pub open spec fn resolution_fails(doc: RegistryDoc, rs: Seq<char>) -> bool {
    if rs == "latest"@ {
        match doc.latest {
            Some(l) => !has_version(doc.versions@, l),
            None => true,
        }
    } else {
        forall|q: VersionReq| #[trigger]
            denotes_req(rs, q) ==> !some_match(doc.versions@, q)
    }
}

/// Entry `e` of a dependency tree answers request `dep` from some fetched
/// document of the requested name.
pub open spec fn tree_entry_ok(
    docs: Seq<RegistryDoc>,
    dep: (String, String),
    e: (String, PackageMetadata),
) -> bool {
    &&& e.0@ == dep.0@
    &&& exists|d: int|
        0 <= d < docs.len() && (#[trigger] docs[d]).name@ == dep.0@ && resolution_ok(
            docs[d],
            dep.1@,
            e.1,
        )
}

/// The dependency resolver, bound to one registry.
pub struct DependencyResolver {
    registry_url: String,
}

impl DependencyResolver {
    /// The base URL of the registry this resolver was built for.
    pub closed spec fn registry_url(self) -> Seq<char> {
        self.registry_url@
    }

    pub fn new(registry_url: String) -> (s: DependencyResolver)
        ensures
            s.registry_url() == registry_url@,
    {
        DependencyResolver { registry_url }
    }

    /// Resolves one request against a fetched registry document.  Succeeds
    /// exactly when the document offers a resolution; every failure is a
    /// `VersionResolutionFailed` naming the request.
    pub fn resolve(&self, doc: &RegistryDoc, version_req: &str) -> (r: Result<
        PackageMetadata,
        ResolverError,
    >)
        ensures
            match r {
                Ok(m) => resolution_ok(*doc, version_req@, m) && !resolution_fails(
                    *doc,
                    version_req@,
                ),
                Err(e) => resolution_fails(*doc, version_req@) && (e matches
                    ResolverError::VersionResolutionFailed(s) && s@ == version_req@),
            },
    {
        let req = parse_version_req(version_req);
        match req {
            None => {
                proof {
                    assert(version_req@ != "latest"@) by {
                        if version_req@ == "latest"@ {
                            assert(denotes_req(version_req@, VersionReq::Latest));
                        }
                    }
                }
                Err(ResolverError::VersionResolutionFailed(version_req.to_owned()))
            },
            Some(VersionReq::Latest) => {
                match &doc.latest {
                    None => Err(
                        ResolverError::VersionResolutionFailed(version_req.to_owned()),
                    ),
                    Some(l) => {
                        match Self::find_version(&doc.versions, l) {
                            Some(i) => {
                                let m = Self::entry_metadata(doc, i);
                                Ok(m)
                            },
                            None => Err(
                                ResolverError::VersionResolutionFailed(version_req.to_owned()),
                            ),
                        }
                    },
                }
            },
            Some(q) => {
                proof {
                    assert(version_req@ != "latest"@) by {
                        if version_req@ == "latest"@ {
                            lemma_denotes_req_unique(version_req@, q, VersionReq::Latest);
                        }
                    }
                }
                match Self::find_best_match(&doc.versions, q) {
                    Some(i) => {
                        let m = Self::entry_metadata(doc, i);
                        proof {
                            assert forall|q2: VersionReq| #[trigger]
                                denotes_req(version_req@, q2) implies q2 == q by {
                                lemma_denotes_req_unique(version_req@, q2, q);
                            }
                        }
                        Ok(m)
                    },
                    None => {
                        proof {
                            assert forall|q2: VersionReq| #[trigger]
                                denotes_req(version_req@, q2) implies !some_match(
                                doc.versions@,
                                q2,
                            ) by {
                                lemma_denotes_req_unique(version_req@, q2, q);
                            }
                        }
                        Err(ResolverError::VersionResolutionFailed(version_req.to_owned()))
                    },
                }
            },
        }
    }

    /// Index of the entry published at exactly `v`.
    fn find_version(vs: &Vec<VersionEntry>, v: &Version) -> (r: Option<usize>)
        ensures
            match r {
                Some(i) => i < vs@.len() && vs@[i as int].version == *v,
                None => !has_version(vs@, *v),
            },
    {
        let mut i: usize = 0;
        while i < vs.len()
            invariant
                i <= vs@.len(),
                forall|k: int| 0 <= k < i ==> (#[trigger] vs@[k]).version != *v,
            decreases vs@.len() - i,
        {
            if vs[i].version == *v {
                return Some(i);
            }
            i += 1;
        }
        None
    }

    /// Index of the highest published version satisfying `q`.
    fn find_best_match(vs: &Vec<VersionEntry>, q: VersionReq) -> (r: Option<usize>)
        ensures
            match r {
                Some(i) => {
                    &&& i < vs@.len()
                    &&& req_matches(q, vs@[i as int].version)
                    &&& forall|j: int|
                        0 <= j < vs@.len() && req_matches(q, (#[trigger] vs@[j]).version)
                            ==> version_le(vs@[j].version, vs@[i as int].version)
                },
                None => !some_match(vs@, q),
            },
    {
        let mut best: Option<usize> = None;
        let mut i: usize = 0;
        while i < vs.len()
            invariant
                i <= vs@.len(),
                match best {
                    Some(b) => {
                        &&& (b as int) < i
                        &&& req_matches(q, vs@[b as int].version)
                        &&& forall|j: int|
                            0 <= j < i && req_matches(q, (#[trigger] vs@[j]).version)
                                ==> version_le(vs@[j].version, vs@[b as int].version)
                    },
                    None => forall|j: int|
                        0 <= j < i ==> !req_matches(q, (#[trigger] vs@[j]).version),
                },
            decreases vs@.len() - i,
        {
            if Self::matches_req(q, &vs[i].version) {
                match best {
                    None => {
                        best = Some(i);
                    },
                    Some(b) => {
                        if vs[b].version.le(&vs[i].version) {
                            best = Some(i);
                        }
                    },
                }
            }
            i += 1;
        }
        best
    }

    /// Decides `req_matches`.
    fn matches_req(q: VersionReq, v: &Version) -> (r: bool)
        ensures
            r == req_matches(q, *v),
    {
        match q {
            VersionReq::Latest => false,
            VersionReq::Exact(b) => *v == b,
            VersionReq::Caret(b) => {
                b.le(v) && (if b.major > 0 {
                    v.major == b.major
                } else if b.minor > 0 {
                    v.major == 0 && v.minor == b.minor
                } else {
                    *v == b
                })
            },
            VersionReq::Tilde(b) => b.le(v) && v.major == b.major && v.minor == b.minor,
        }
    }

    /// Copies entry `i` of `doc` into stand-alone metadata.
    fn entry_metadata(doc: &RegistryDoc, i: usize) -> (m: PackageMetadata)
        requires
            i < doc.versions@.len(),
        ensures
            entry_meta(*doc, doc.versions@[i as int], m),
    {
        let e = &doc.versions[i];
        let m = PackageMetadata {
            name: doc.name.clone(),
            version: e.version,
            dependencies: clone_deps(&e.dependencies),
            dist: PackageDist { tarball: e.dist.tarball.clone(), shasum: e.dist.shasum.clone() },
        };
        m
    }

    /// Resolves a flat dependency map in one pass, without transitive
    /// discovery: each requested name is looked up among the fetched
    /// documents and resolved against the first document of that name.
    pub fn build_dependency_tree(&self, deps: &Vec<(String, String)>, docs: &Vec<RegistryDoc>) -> (r:
        Result<Vec<(String, PackageMetadata)>, ResolverError>)
        ensures
            match r {
                Ok(out) => {
                    &&& out@.len() == deps@.len()
                    &&& forall|m: int|
                        0 <= m < deps@.len() ==> tree_entry_ok(
                            docs@,
                            deps@[m],
                            #[trigger] out@[m],
                        )
                },
                Err(e) => match e {
                    ResolverError::PackageNotFound(n) => exists|m: int|
                        0 <= m < deps@.len() && (#[trigger] deps@[m]).0@ == n@ && (forall|d: int|
                            0 <= d < docs@.len() ==> (#[trigger] docs@[d]).name@ != n@),
                    ResolverError::VersionResolutionFailed(rs) => exists|m: int, d: int|
                        {
                            &&& 0 <= m < deps@.len()
                            &&& 0 <= d < docs@.len()
                            &&& (#[trigger] deps@[m]).1@ == rs@
                            &&& (#[trigger] docs@[d]).name@ == deps@[m].0@
                            &&& resolution_fails(docs@[d], deps@[m].1@)
                        },
                    _ => false,
                },
            },
    {
        let mut out: Vec<(String, PackageMetadata)> = Vec::new();
        let mut m: usize = 0;
        while m < deps.len()
            invariant
                m <= deps@.len(),
                out@.len() == m,
                forall|k: int|
                    0 <= k < m ==> tree_entry_ok(docs@, deps@[k], #[trigger] out@[k]),
            decreases deps@.len() - m,
        {
            let name = &deps[m].0;
            match Self::find_doc(docs, name) {
                None => {
                    return Err(ResolverError::PackageNotFound(name.clone()));
                },
                Some(d) => {
                    match self.resolve(&docs[d], deps[m].1.as_str()) {
                        Ok(meta) => {
                            let ghost g_meta = meta;
                            out.push((name.clone(), meta));
                            proof {
                                assert(out@[m as int].1 == g_meta);
                                assert(docs@[d as int].name@ == deps@[m as int].0@);
                                assert(resolution_ok(docs@[d as int], deps@[m as int].1@, g_meta));
                                assert(tree_entry_ok(docs@, deps@[m as int], out@[m as int]));
                            }
                        },
                        Err(_) => {
                            return Err(
                                ResolverError::VersionResolutionFailed(deps[m].1.clone()),
                            );
                        },
                    }
                },
            }
            m += 1;
        }
        Ok(out)
    }

    /// Index of the first document named `n`.
    fn find_doc(docs: &Vec<RegistryDoc>, n: &String) -> (r: Option<usize>)
        ensures
            match r {
                Some(d) => d < docs@.len() && docs@[d as int].name@ == n@,
                None => forall|d: int| 0 <= d < docs@.len() ==> (#[trigger] docs@[d]).name@ != n@,
            },
    {
        let mut d: usize = 0;
        while d < docs.len()
            invariant
                d <= docs@.len(),
                forall|k: int| 0 <= k < d ==> (#[trigger] docs@[k]).name@ != n@,
            decreases docs@.len() - d,
        {
            if docs[d].name == *n {
                return Some(d);
            }
            d += 1;
        }
        None
    }
}

/// Copies a dependency map entry by entry.
pub fn clone_deps(v: &Vec<(String, String)>) -> (r: Vec<(String, String)>)
    ensures
        deps_view(r@) == deps_view(v@),
{
    let mut r: Vec<(String, String)> = Vec::new();
    let mut i: usize = 0;
    while i < v.len()
        invariant
            i <= v@.len(),
            r@.len() == i,
            forall|k: int|
                0 <= k < i ==> (#[trigger] r@[k]).0@ == v@[k].0@ && r@[k].1@ == v@[k].1@,
        decreases v@.len() - i,
    {
        r.push((v[i].0.clone(), v[i].1.clone()));
        i += 1;
    }
    proof {
        assert(deps_view(r@) =~= deps_view(v@));
    }
    r
}

} // verus!
