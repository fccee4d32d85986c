//! Archive handling: listing a tarball's entries and planning its
//! extraction.
//!
//! Most package archives wrap their files in a single leading directory.
//! Planning detects whether every entry shares such a common leading path
//! segment, strips it if so, and turns the entries into write actions with
//! relative paths; executing the writes is the caller's business.

use vstd::prelude::*;
use crate::strutil::first_index_from;

verus! {

/// One entry read out of a tar archive.
#[derive(Debug)]
pub struct TarEntry {
    pub path: String,
    pub data: Vec<u8>,
    pub mode: u32,
    pub is_dir: bool,
}

/// An entry as plain values: path, contents, mode, directory flag.
pub open spec fn entry_view(e: TarEntry) -> (Seq<char>, Seq<u8>, u32, bool) {
    (e.path@, e.data@, e.mode, e.is_dir)
}

/// A whole entry list as plain values.
pub open spec fn entries_view(s: Seq<TarEntry>) -> Seq<(Seq<char>, Seq<u8>, u32, bool)> {
    s.map_values(|e: TarEntry| entry_view(e))
}

/// What gzip decompression yields on the data, if it is well-formed.  The
/// format is not restated here: decompression is done by the flate2 crate
/// and only named.
pub uninterp spec fn gunzip_of(data: Seq<u8>) -> Option<Seq<u8>>;

/// What reading the data as a tar archive yields, if it is well-formed: the
/// entries in order, each with path, contents, mode and directory flag.  The
/// format is not restated here: it is read by the tar crate and only named.
pub uninterp spec fn tar_entries_of(data: Seq<u8>) -> Option<Seq<(Seq<char>, Seq<u8>, u32, bool)>>;

/// Relies on flate2::read::GzDecoder: decompression depends on the input
/// bytes alone; malformed input is an error.
#[verifier::external_body]
pub(crate) fn gunzip(data: &[u8]) -> (r: Option<Vec<u8>>)
    ensures
        match r {
            Some(v) => gunzip_of(data@) == Some(v@),
            None => gunzip_of(data@) is None,
        },
{
    let mut out: Vec<u8> = Vec::new();
    let mut dec = flate2::read::GzDecoder::new(data);
    match std::io::Read::read_to_end(&mut dec, &mut out) {
        Ok(_) => Some(out),
        Err(_) => None,
    }
}

/// Relies on tar::Archive::entries: the entry list, with each entry's path,
/// contents and header mode, depends on the archive bytes alone; malformed
/// input is an error.
#[verifier::external_body]
pub(crate) fn tar_list(data: &[u8]) -> (r: Option<Vec<TarEntry>>)
    ensures
        match r {
            Some(es) => tar_entries_of(data@) == Some(entries_view(es@)),
            None => tar_entries_of(data@) is None,
        },
{
    let mut archive = tar::Archive::new(data);
    let mut out: Vec<TarEntry> = Vec::new();
    for entry in archive.entries().ok()? {
        let mut entry = entry.ok()?;
        let path = entry.path().ok()?.to_string_lossy().into_owned();
        let mode = entry.header().mode().ok()?;
        let is_dir = entry.header().entry_type().is_dir();
        let mut contents: Vec<u8> = Vec::new();
        std::io::Read::read_to_end(&mut entry, &mut contents).ok()?;
        out.push(TarEntry { path, data: contents, mode, is_dir });
    }
    Some(out)
}

/// `p` names something inside directory `seg`: it begins with `seg` followed
/// by a slash.
pub open spec fn starts_with_dir(p: Seq<char>, seg: Seq<char>) -> bool {
    p.len() > seg.len() && p.subrange(0, seg.len() as int + 1) == seg.push('/')
}

/// The common leading path segment wrapping every entry, if there is one:
/// the first segment of the first entry's path, provided every entry's path
/// begins with that segment and a slash.
pub open spec fn common_prefix(entries: Seq<(Seq<char>, Seq<u8>, u32, bool)>) -> Option<Seq<char>> {
    if entries.len() == 0 {
        None
    } else {
        match first_index_from(entries[0].0, '/', 0) {
            None => None,
            Some(k) => {
                let seg = entries[0].0.subrange(0, k);
                if forall|i: int| 0 <= i < entries.len() ==> starts_with_dir(
                    (#[trigger] entries[i]).0,
                    seg,
                ) {
                    Some(seg)
                } else {
                    None
                }
            },
        }
    }
}

/// An entry's path with the common segment removed, if one was detected.
pub open spec fn stripped(p: Seq<char>, cp: Option<Seq<char>>) -> Seq<char> {
    match cp {
        Some(seg) => p.skip(seg.len() as int + 1),
        None => p,
    }
}

/// The write actions one entry contributes: none if its stripped path is
/// empty, else one action carrying the stripped path; a directory entry
/// carries no contents.
pub open spec fn entry_actions(e: (Seq<char>, Seq<u8>, u32, bool), cp: Option<Seq<char>>) -> Seq<
    (Seq<char>, Seq<u8>, u32, bool),
> {
    let p = stripped(e.0, cp);
    if p.len() == 0 {
        Seq::empty()
    } else if e.3 {
        seq![(p, Seq::<u8>::empty(), e.2, true)]
    } else {
        seq![(p, e.1, e.2, false)]
    }
}

/// The extraction plan for an entry list under a detected common prefix.
pub open spec fn spec_plan(
    entries: Seq<(Seq<char>, Seq<u8>, u32, bool)>,
    cp: Option<Seq<char>>,
) -> Seq<(Seq<char>, Seq<u8>, u32, bool)>
    decreases entries.len(),
{
    if entries.len() == 0 {
        Seq::empty()
    } else {
        entry_actions(entries[0], cp) + spec_plan(entries.drop_first(), cp)
    }
}

/// The plan of an extended entry list is the plan plus the new entry's
/// contribution.
proof fn lemma_spec_plan_push(
    entries: Seq<(Seq<char>, Seq<u8>, u32, bool)>,
    e: (Seq<char>, Seq<u8>, u32, bool),
    cp: Option<Seq<char>>,
)
    ensures
        spec_plan(entries.push(e), cp) == spec_plan(entries, cp) + entry_actions(e, cp),
    decreases entries.len(),
{
    if entries.len() == 0 {
        assert(entries.push(e)[0] == e);
        assert(entries.push(e).drop_first() =~= Seq::empty());
        assert(spec_plan(entries.push(e), cp) == entry_actions(e, cp) + spec_plan(
            Seq::empty(),
            cp,
        ));
        assert(entry_actions(e, cp) + Seq::empty() =~= entry_actions(e, cp));
        assert(spec_plan(entries, cp) + entry_actions(e, cp) =~= entry_actions(e, cp));
    } else {
        assert(entries.push(e).drop_first() =~= entries.drop_first().push(e));
        assert(entries.push(e)[0] == entries[0]);
        lemma_spec_plan_push(entries.drop_first(), e, cp);
        assert(spec_plan(entries.push(e), cp) =~= spec_plan(entries, cp) + entry_actions(e, cp));
    }
}

/// One planned filesystem write.
#[derive(Debug)]
pub enum FileAction {
    /// Create this directory (and any missing parents).
    Dir { path: String, mode: u32 },
    /// Write this file with these contents and permissions.
    File { path: String, data: Vec<u8>, mode: u32 },
}

/// An action as plain values, in the same shape as an entry.
pub open spec fn action_view(a: FileAction) -> (Seq<char>, Seq<u8>, u32, bool) {
    match a {
        FileAction::Dir { path, mode } => (path@, Seq::empty(), mode, true),
        FileAction::File { path, data, mode } => (path@, data@, mode, false),
    }
}

/// A whole plan as plain values.
pub open spec fn plan_view(s: Seq<FileAction>) -> Seq<(Seq<char>, Seq<u8>, u32, bool)> {
    s.map_values(|a: FileAction| action_view(a))
}

/// Decides `starts_with_dir`.
fn starts_with_dir_exec(p: &str, seg: &str) -> (r: bool)
    ensures
        r == starts_with_dir(p@, seg@),
{
    let plen = p.unicode_len();
    let slen = seg.unicode_len();
    if plen <= slen {
        return false;
    }
    let mut j: usize = 0;
    while j < slen
        invariant
            j <= slen,
            slen == seg@.len(),
            plen == p@.len(),
            plen > slen,
            forall|k: int| 0 <= k < j ==> p@[k] == seg@[k],
        decreases slen - j,
    {
        if p.get_char(j) != seg.get_char(j) {
            proof {
                assert(p@.subrange(0, seg@.len() as int + 1)[j as int] != seg@.push('/')[j as int]);
            }
            return false;
        }
        j += 1;
    }
    let r = p.get_char(slen) == '/';
    proof {
        if r {
            assert(p@.subrange(0, seg@.len() as int + 1) =~= seg@.push('/'));
        } else {
            assert(p@.subrange(0, seg@.len() as int + 1)[slen as int] != seg@.push('/')[slen as int]);
        }
    }
    r
}

/// Detects the common leading segment of an entry list.
fn detect_prefix(entries: &Vec<TarEntry>) -> (r: Option<String>)
    ensures
        match r {
            Some(seg) => common_prefix(entries_view(entries@)) == Some(seg@),
            None => common_prefix(entries_view(entries@)) is None,
        },
{
    let ghost evs = entries_view(entries@);
    if entries.len() == 0 {
        return None;
    }
    proof {
        assert(evs[0] == entry_view(entries@[0]));
    }
    let first = &entries[0].path;
    let k = match first_slash(first.as_str()) {
        None => {
            return None;
        },
        Some(k) => k,
    };
    let seg = first.substring_char(0, k);
    proof {
        assert(seg@ =~= evs[0].0.subrange(0, k as int));
    }
    let mut i: usize = 0;
    while i < entries.len()
        invariant
            i <= entries@.len(),
            evs == entries_view(entries@),
            evs.len() == entries@.len(),
            seg@ == evs[0].0.subrange(0, k as int),
            first_index_from(evs[0].0, '/', 0) == Some(k as int),
            forall|m: int| 0 <= m < i ==> starts_with_dir((#[trigger] evs[m]).0, seg@),
        decreases entries@.len() - i,
    {
        proof {
            assert(evs[i as int] == entry_view(entries@[i as int]));
        }
        if !starts_with_dir_exec(entries[i].path.as_str(), seg) {
            return None;
        }
        i += 1;
    }
    Some(seg.to_owned())
}

/// Index of the first slash in `p`.
fn first_slash(p: &str) -> (r: Option<usize>)
    ensures
        match r {
            Some(k) => k < p@.len() && first_index_from(p@, '/', 0) == Some(k as int),
            None => first_index_from(p@, '/', 0) is None,
        },
{
    crate::strutil::find_char_from(p, '/', 0)
}

/// Plans the extraction of an entry list: detects the common leading
/// segment, strips it from every path if found, and yields one write action
/// per entry that still has a path, in order.
pub fn plan_extraction(entries: Vec<TarEntry>) -> (plan: Vec<FileAction>)
    ensures
        plan_view(plan@) == spec_plan(entries_view(entries@), common_prefix(entries_view(entries@))),
{
    let ghost evs = entries_view(entries@);
    let ghost cp = common_prefix(evs);
    let prefix = detect_prefix(&entries);
    let mut rest = entries;
    let mut out: Vec<FileAction> = Vec::new();
    let ghost mut i: int = 0;
    proof {
        assert(evs.take(0) =~= Seq::empty());
        assert(plan_view(out@) =~= Seq::empty());
        assert(entries_view(rest@) == evs.skip(0)) by {
            assert(evs.skip(0) =~= evs);
        }
    }
    while rest.len() > 0
        invariant
            0 <= i <= evs.len(),
            entries_view(rest@) == evs.skip(i),
            rest@.len() == evs.len() - i,
            plan_view(out@) == spec_plan(evs.take(i), cp),
            cp == common_prefix(evs),
            match prefix {
                Some(seg) => cp == Some(seg@),
                None => cp is None,
            },
        decreases rest@.len(),
    {
        let ghost pre_rest = rest@;
        let e = rest.remove(0);
        proof {
            assert(entry_view(e) == entries_view(pre_rest)[0]);
            assert(entries_view(pre_rest)[0] == evs[i]);
            assert(entries_view(rest@) =~= evs.skip(i + 1)) by {
                assert forall|m: int| 0 <= m < rest@.len() implies entries_view(rest@)[m] == evs[
                    i + 1 + m
                ] by {
                    assert(rest@[m] == pre_rest[m + 1]);
                    assert(entries_view(pre_rest)[m + 1] == evs.skip(i)[m + 1]);
                }
            }
            assert(evs.take(i + 1) =~= evs.take(i).push(evs[i]));
            lemma_spec_plan_push(evs.take(i), evs[i], cp);
        }
        let plen = e.path.as_str().unicode_len();
        match &prefix {
            Some(seg) => {
                let slen = seg.as_str().unicode_len();
                proof {
                    assert(starts_with_dir(evs[i].0, seg@)) by {
                        assert(common_prefix(evs) == Some(seg@));
                        assert(evs.len() > 0);
                        let k0 = first_index_from(evs[0].0, '/', 0);
                        assert(k0 is Some);
                    }
                }
                let rel = e.path.as_str().substring_char(slen + 1, plen);
                proof {
                    assert(rel@ =~= stripped(evs[i].0, cp));
                }
                if rel.unicode_len() == 0 {
                    proof {
                        assert(entry_actions(evs[i], cp) =~= Seq::empty());
                        assert(plan_view(out@) =~= spec_plan(evs.take(i + 1), cp));
                    }
                } else {
                    let rel = rel.to_owned();
                    push_action(&mut out, rel, e.data, e.mode, e.is_dir);
                    proof {
                        assert(plan_view(out@) =~= spec_plan(evs.take(i + 1), cp));
                    }
                }
            },
            None => {
                if plen == 0 {
                    proof {
                        assert(stripped(evs[i].0, cp) == evs[i].0);
                        assert(entry_actions(evs[i], cp) =~= Seq::empty());
                        assert(plan_view(out@) =~= spec_plan(evs.take(i + 1), cp));
                    }
                } else {
                    push_action(&mut out, e.path, e.data, e.mode, e.is_dir);
                    proof {
                        assert(plan_view(out@) =~= spec_plan(evs.take(i + 1), cp));
                    }
                }
            },
        }
        proof {
            i = i + 1;
        }
    }
    proof {
        assert(evs.take(i) =~= evs);
    }
    out
}

/// Appends the action for one surviving entry.
fn push_action(out: &mut Vec<FileAction>, path: String, data: Vec<u8>, mode: u32, is_dir: bool)
    requires
        path@.len() > 0,
    ensures
        final(out)@.len() == old(out)@.len() + 1,
        plan_view(final(out)@) == plan_view(old(out)@).push(
            (path@, if is_dir { Seq::<u8>::empty() } else { data@ }, mode, is_dir),
        ),
{
    let a = if is_dir {
        FileAction::Dir { path, mode }
    } else {
        FileAction::File { path, data, mode }
    };
    out.push(a);
    proof {
        assert(plan_view(out@) =~= plan_view(old(out)@).push(action_view(out@.last())));
        assert(plan_view(out@).last() == action_view(out@.last()));
    }
}

} // verus!
