//! Exact semantic versions and version requests.
//!
//! A version is `MAJOR.MINOR.PATCH`, each part a canonical decimal numeral
//! (no leading zero) that fits in a `u64`.  A version request is either the
//! sentinel `latest`, an exact version, or a caret/tilde range.

use vstd::prelude::*;
use crate::strutil::{find_char_from, str_eq_str};

verus! {

/// An exact semantic version.
#[derive(Clone, Copy, Debug, PartialEq, Eq, Structural)]
pub struct Version {
    pub major: u64,
    pub minor: u64,
    pub patch: u64,
}

/// Ordering of versions: by major, then minor, then patch.
pub open spec fn version_le(a: Version, b: Version) -> bool {
    ||| a.major < b.major
    ||| (a.major == b.major && a.minor < b.minor)
    ||| (a.major == b.major && a.minor == b.minor && a.patch <= b.patch)
}

impl Version {
    /// Decides `version_le`.
    pub fn le(&self, other: &Version) -> (r: bool)
        ensures
            r == version_le(*self, *other),
    {
        if self.major != other.major {
            self.major < other.major
        } else if self.minor != other.minor {
            self.minor < other.minor
        } else {
            self.patch <= other.patch
        }
    }
}

/// `c` is a decimal digit.
pub open spec fn is_digit(c: char) -> bool {
    '0' <= c && c <= '9'
}

/// Numeric value of a digit character.
pub open spec fn digit_val(c: char) -> nat {
    (c as int - '0' as int) as nat
}

/// Every character of `s` is a decimal digit.
pub open spec fn all_digits(s: Seq<char>) -> bool {
    forall|i: int| 0 <= i < s.len() ==> is_digit(#[trigger] s[i])
}

/// The number denoted by a digit string, most significant digit first.
pub open spec fn dec_value(s: Seq<char>) -> nat
    decreases s.len(),
{
    if s.len() == 0 {
        0
    } else {
        dec_value(s.drop_last()) * 10 + digit_val(s.last())
    }
}

/// A canonical decimal numeral: nonempty digits, no leading zero, fits in `u64`.
pub open spec fn is_numeral(s: Seq<char>) -> bool {
    &&& all_digits(s)
    &&& s.len() > 0
    &&& (s.len() == 1 || s[0] != '0')
    &&& dec_value(s) <= u64::MAX
}

/// `i` and `j` are the positions of the two dots splitting `s` into the three
/// numerals of a version string.
pub open spec fn version_parts(s: Seq<char>, i: int, j: int) -> bool {
    &&& 0 <= i < j < s.len()
    &&& s[i] == '.'
    &&& s[j] == '.'
    &&& is_numeral(s.subrange(0, i))
    &&& is_numeral(s.subrange(i + 1, j))
    &&& is_numeral(s.subrange(j + 1, s.len() as int))
}

/// `s` is a well-formed version string.
pub open spec fn is_version_str(s: Seq<char>) -> bool {
    exists|i: int, j: int| version_parts(s, i, j)
}

/// The version denoted by `s` when split at dots `i` and `j`.
pub open spec fn parts_version(s: Seq<char>, i: int, j: int) -> Version {
    Version {
        major: dec_value(s.subrange(0, i)) as u64,
        minor: dec_value(s.subrange(i + 1, j)) as u64,
        patch: dec_value(s.subrange(j + 1, s.len() as int)) as u64,
    }
}

/// `v` is the version denoted by the version string `s`.
pub open spec fn denotes_version(s: Seq<char>, v: Version) -> bool {
    exists|i: int, j: int| version_parts(s, i, j) && v == parts_version(s, i, j)
}

/// The split of a version string into its parts is unique: the first two dots
/// are the only candidates.
pub proof fn lemma_version_parts_unique(s: Seq<char>, i1: int, j1: int, i2: int, j2: int)
    requires
        version_parts(s, i1, j1),
        version_parts(s, i2, j2),
    ensures
        i1 == i2,
        j1 == j2,
{
    if i1 < i2 {
        assert(is_digit(s.subrange(0, i2)[i1]));
    }
    if i2 < i1 {
        assert(is_digit(s.subrange(0, i1)[i2]));
    }
    if j1 < j2 {
        assert(is_digit(s.subrange(i2 + 1, j2)[j1 - i2 - 1]));
    }
    if j2 < j1 {
        assert(is_digit(s.subrange(i1 + 1, j1)[j2 - i1 - 1]));
    }
}

/// Appending digits to a digit string never decreases its value.
proof fn lemma_dec_value_prefix(s: Seq<char>, k: int)
    requires
        0 <= k <= s.len(),
    ensures
        dec_value(s) >= dec_value(s.subrange(0, k)),
    decreases s.len() - k,
{
    if k < s.len() {
        assert(s.drop_last().subrange(0, k) =~= s.subrange(0, k));
        lemma_dec_value_prefix(s.drop_last(), k);
    } else {
        assert(s.subrange(0, k) =~= s);
    }
}

/// Reads the numeral spanning `s[start..end]`, if those characters form one.
fn scan_numeral(s: &str, start: usize, end: usize) -> (r: Option<u64>)
    requires
        start <= end <= s@.len(),
    ensures
        match r {
            Some(n) => is_numeral(s@.subrange(start as int, end as int))
                && n == dec_value(s@.subrange(start as int, end as int)),
            None => !is_numeral(s@.subrange(start as int, end as int)),
        },
{
    let ghost part = s@.subrange(start as int, end as int);
    if start == end {
        return None;
    }
    let c0 = s.get_char(start);
    if c0 == '0' && end - start > 1 {
        proof {
            assert(part[0] == '0');
        }
        return None;
    }
    let mut n: u64 = 0;
    let mut k: usize = start;
    while k < end
        invariant
            start <= k <= end <= s@.len(),
            part == s@.subrange(start as int, end as int),
            all_digits(s@.subrange(start as int, k as int)),
            n == dec_value(s@.subrange(start as int, k as int)),
        decreases end - k,
    {
        let c = s.get_char(k);
        if c < '0' || c > '9' {
            proof {
                assert(part[k - start] == s@[k as int]);
                assert(!is_digit(part[k - start]));
            }
            return None;
        }
        let d: u64 = (c as u32 as u64) - ('0' as u32 as u64);
        proof {
            assert(d == digit_val(c));
        }
        if n > (u64::MAX - d) / 10 {
            // The value of the full part can only be larger still.
            proof {
                assert(s@.subrange(start as int, k as int + 1).drop_last()
                    =~= s@.subrange(start as int, k as int));
                assert(s@.subrange(start as int, k as int + 1).last() == s@[k as int]);
                assert(dec_value(s@.subrange(start as int, k as int + 1))
                    == n * 10 + digit_val(c));
                assert(n * 10 + d > u64::MAX) by {
                    assert(n >= (u64::MAX - d) / 10 + 1);
                    assert(((u64::MAX - d) / 10 + 1) * 10 == ((u64::MAX - d) / 10) * 10 + 10);
                    assert(((u64::MAX - d) / 10) * 10 + (u64::MAX - d) % 10 == u64::MAX - d);
                    assert((u64::MAX - d) % 10 < 10);
                    assert(n * 10 >= ((u64::MAX - d) / 10 + 1) * 10) by (nonlinear_arith)
                        requires
                            n >= (u64::MAX - d) / 10 + 1,
                    ;
                }
                assert(part.subrange(0, k - start + 1)
                    =~= s@.subrange(start as int, k as int + 1));
                lemma_dec_value_prefix(part, k - start + 1);
                assert(dec_value(part) > u64::MAX);
            }
            return None;
        }
        proof {
            assert(n * 10 + d <= u64::MAX) by {
                assert(n <= (u64::MAX - d) / 10);
                assert(((u64::MAX - d) / 10) * 10 + (u64::MAX - d) % 10 == u64::MAX - d);
                assert(n * 10 <= ((u64::MAX - d) / 10) * 10) by (nonlinear_arith)
                    requires
                        n <= (u64::MAX - d) / 10,
                ;
            }
            assert(s@.subrange(start as int, k as int + 1).drop_last()
                =~= s@.subrange(start as int, k as int));
            assert(s@.subrange(start as int, k as int + 1).last() == s@[k as int]);
        }
        n = n * 10 + d;
        k += 1;
    }
    proof {
        assert(part =~= s@.subrange(start as int, end as int));
        assert(part.len() > 0);
        assert(part[0] == s@[start as int]);
    }
    Some(n)
}

/// Parses a version string.  Returns the denoted version exactly when `s` is
/// a well-formed version string.
pub fn parse_version(s: &str) -> (r: Option<Version>)
    ensures
        match r {
            Some(v) => denotes_version(s@, v),
            None => !is_version_str(s@),
        },
{
    let len = s.unicode_len();
    let dot1 = match find_char_from(s, '.', 0) {
        Some(k) => k,
        None => {
            proof {
                assert forall|i: int, j: int| !version_parts(s@, i, j) by {
                    if version_parts(s@, i, j) {
                        assert(s@[i] == '.');
                    }
                }
            }
            return None;
        },
    };
    let dot2 = match find_char_from(s, '.', dot1 + 1) {
        Some(k) => k,
        None => {
            proof {
                assert forall|i: int, j: int| !version_parts(s@, i, j) by {
                    if version_parts(s@, i, j) {
                        lemma_dot_positions(s@, i, j, dot1 as int);
                    }
                }
            }
            return None;
        },
    };
    let major = scan_numeral(s, 0, dot1);
    let minor = scan_numeral(s, dot1 + 1, dot2);
    let patch = scan_numeral(s, dot2 + 1, len);
    match (major, minor, patch) {
        (Some(a), Some(b), Some(c)) => {
            let v = Version { major: a, minor: b, patch: c };
            proof {
                assert(version_parts(s@, dot1 as int, dot2 as int));
                assert(v == parts_version(s@, dot1 as int, dot2 as int));
            }
            Some(v)
        },
        _ => {
            proof {
                assert forall|i: int, j: int| !version_parts(s@, i, j) by {
                    if version_parts(s@, i, j) {
                        lemma_dot_positions(s@, i, j, dot1 as int);
                        assert(j == dot2 as int) by {
                            if j < dot2 {
                                assert(s@[j] == '.');
                            }
                            if dot2 < j {
                                assert(is_digit(s@.subrange(i + 1, j)[dot2 - i - 1]));
                            }
                        }
                    }
                }
            }
            None
        },
    }
}

/// In any valid split, the first dot of the string is the first split point.
proof fn lemma_dot_positions(s: Seq<char>, i: int, j: int, first_dot: int)
    requires
        version_parts(s, i, j),
        0 <= first_dot < s.len(),
        s[first_dot] == '.',
        forall|m: int| 0 <= m < first_dot ==> s[m] != '.',
    ensures
        i == first_dot,
{
    if i < first_dot {
        assert(s[i] == '.');
    }
    if first_dot < i {
        assert(is_digit(s.subrange(0, i)[first_dot]));
    }
}

/// `s` with every leading occurrence of `c` removed.
pub open spec fn trim_leading(s: Seq<char>, c: char) -> Seq<char>
    decreases s.len(),
{
    if s.len() > 0 && s[0] == c {
        trim_leading(s.skip(1), c)
    } else {
        s
    }
}

/// A request string with its range markers removed: all leading carets, then
/// all leading tildes.
pub open spec fn stripped_req(s: Seq<char>) -> Seq<char> {
    trim_leading(trim_leading(s, '^'), '~')
}

/// Removes leading `^` and `~` range markers from a request string.
pub fn strip_range_markers(s: &str) -> (r: String)
    ensures
        r@ == stripped_req(s@),
{
    let len = s.unicode_len();
    let mut i: usize = 0;
    proof {
        assert(s@.skip(0) =~= s@);
    }
    while i < len && s.get_char(i) == '^'
        invariant
            i <= len,
            len == s@.len(),
            trim_leading(s@, '^') == trim_leading(s@.skip(i as int), '^'),
        decreases len - i,
    {
        proof {
            assert(s@.skip(i as int)[0] == s@[i as int]);
            assert(s@.skip(i as int).skip(1) =~= s@.skip(i as int + 1));
        }
        i += 1;
    }
    proof {
        if i < len {
            assert(s@.skip(i as int)[0] == s@[i as int]);
        }
        assert(trim_leading(s@, '^') == s@.skip(i as int));
    }
    let ghost caret_done = i as int;
    while i < len && s.get_char(i) == '~'
        invariant
            caret_done <= i <= len,
            len == s@.len(),
            trim_leading(s@, '^') == s@.skip(caret_done),
            trim_leading(s@.skip(caret_done), '~') == trim_leading(s@.skip(i as int), '~'),
        decreases len - i,
    {
        proof {
            assert(s@.skip(i as int)[0] == s@[i as int]);
            assert(s@.skip(i as int).skip(1) =~= s@.skip(i as int + 1));
        }
        i += 1;
    }
    proof {
        if i < len {
            assert(s@.skip(i as int)[0] == s@[i as int]);
        }
        assert(stripped_req(s@) == s@.skip(i as int));
    }
    let r = s.substring_char(i, len);
    proof {
        assert(r@ =~= s@.skip(i as int));
    }
    r.to_owned()
}

/// A version request: the `latest` dist-tag, an exact version, or a
/// caret/tilde range anchored at a base version.
#[derive(Clone, Copy, Debug, PartialEq, Eq, Structural)]
pub enum VersionReq {
    Latest,
    Exact(Version),
    Caret(Version),
    Tilde(Version),
}

/// Which versions satisfy a request.  `Latest` matches no version by range:
/// it is resolved through the registry's dist-tag instead.
pub open spec fn req_matches(req: VersionReq, v: Version) -> bool {
    match req {
        VersionReq::Latest => false,
        VersionReq::Exact(b) => v == b,
        VersionReq::Caret(b) => version_le(b, v) && (if b.major > 0 {
            v.major == b.major
        } else if b.minor > 0 {
            v.major == 0 && v.minor == b.minor
        } else {
            v == b
        }),
        VersionReq::Tilde(b) => version_le(b, v) && v.major == b.major && v.minor == b.minor,
    }
}

/// The request denoted by the request string `s`.
pub open spec fn denotes_req(s: Seq<char>, q: VersionReq) -> bool {
    match q {
        VersionReq::Latest => s == "latest"@,
        VersionReq::Exact(v) => denotes_version(s, v),
        VersionReq::Caret(v) => s.len() > 0 && s[0] == '^' && denotes_version(s.skip(1), v),
        VersionReq::Tilde(v) => s.len() > 0 && s[0] == '~' && denotes_version(s.skip(1), v),
    }
}

/// `s` is a well-formed version request.
pub open spec fn is_req_str(s: Seq<char>) -> bool {
    exists|q: VersionReq| denotes_req(s, q)
}

/// A request string denotes at most one request.
pub proof fn lemma_denotes_req_unique(s: Seq<char>, q1: VersionReq, q2: VersionReq)
    requires
        denotes_req(s, q1),
        denotes_req(s, q2),
    ensures
        q1 == q2,
{
    reveal_strlit("latest");
    lemma_req_head(s, q1);
    lemma_req_head(s, q2);
    match (q1, q2) {
        (VersionReq::Exact(v1), VersionReq::Exact(v2)) => {
            let (i1, j1) = choose|i: int, j: int|
                version_parts(s, i, j) && v1 == parts_version(s, i, j);
            let (i2, j2) = choose|i: int, j: int|
                version_parts(s, i, j) && v2 == parts_version(s, i, j);
            lemma_version_parts_unique(s, i1, j1, i2, j2);
        },
        (VersionReq::Caret(v1), VersionReq::Caret(v2)) => {
            let (i1, j1) = choose|i: int, j: int|
                version_parts(s.skip(1), i, j) && v1 == parts_version(s.skip(1), i, j);
            let (i2, j2) = choose|i: int, j: int|
                version_parts(s.skip(1), i, j) && v2 == parts_version(s.skip(1), i, j);
            lemma_version_parts_unique(s.skip(1), i1, j1, i2, j2);
        },
        (VersionReq::Tilde(v1), VersionReq::Tilde(v2)) => {
            let (i1, j1) = choose|i: int, j: int|
                version_parts(s.skip(1), i, j) && v1 == parts_version(s.skip(1), i, j);
            let (i2, j2) = choose|i: int, j: int|
                version_parts(s.skip(1), i, j) && v2 == parts_version(s.skip(1), i, j);
            lemma_version_parts_unique(s.skip(1), i1, j1, i2, j2);
        },
        _ => {},
    }
}

/// The head character of a request string decides which kind of request it
/// denotes: `latest` starts with a letter, a version with a digit, a range
/// with its marker.
proof fn lemma_req_head(s: Seq<char>, q: VersionReq)
    requires
        denotes_req(s, q),
    ensures
        s.len() > 0,
        q is Latest <==> s[0] == 'l',
        q is Exact <==> is_digit(s[0]),
        q is Caret <==> s[0] == '^',
        q is Tilde <==> s[0] == '~',
{
    reveal_strlit("latest");
    match q {
        VersionReq::Latest => {
            assert(s[0] == 'l');
        },
        VersionReq::Exact(v) => {
            let (i, j) = choose|i: int, j: int|
                version_parts(s, i, j) && v == parts_version(s, i, j);
            if i == 0 {
                assert(s[0] == '.');
            } else {
                assert(is_digit(s.subrange(0, i)[0]));
            }
            assert(is_digit(s[0]));
        },
        VersionReq::Caret(v) => {
            assert(s[0] == '^');
        },
        VersionReq::Tilde(v) => {
            assert(s[0] == '~');
        },
    }
}

/// Parses a version request string.
pub fn parse_version_req(s: &str) -> (r: Option<VersionReq>)
    ensures
        match r {
            Some(q) => denotes_req(s@, q),
            None => !is_req_str(s@),
        },
{
    if str_eq_str(s, "latest") {
        return Some(VersionReq::Latest);
    }
    let len = s.unicode_len();
    if len > 0 {
        let c0 = s.get_char(0);
        if c0 == '^' || c0 == '~' {
            let rest = s.substring_char(1, len);
            proof {
                assert(rest@ =~= s@.skip(1));
            }
            let r = match parse_version(rest) {
                Some(v) => Some(
                    if c0 == '^' {
                        VersionReq::Caret(v)
                    } else {
                        VersionReq::Tilde(v)
                    },
                ),
                None => {
                    proof {
                        lemma_not_req(s@);
                    }
                    None
                },
            };
            return r;
        }
    }
    match parse_version(s) {
        Some(v) => Some(VersionReq::Exact(v)),
        None => {
            proof {
                lemma_not_req(s@);
            }
            None
        },
    }
}

/// If `s` is not `latest`, does not denote a version, and its tail after a
/// leading marker denotes none either, then `s` denotes no request.
proof fn lemma_not_req(s: Seq<char>)
    requires
        s != "latest"@,
        s.len() > 0 && (s[0] == '^' || s[0] == '~') ==> !is_version_str(s.skip(1)),
        !(s.len() > 0 && (s[0] == '^' || s[0] == '~')) ==> !is_version_str(s),
    ensures
        !is_req_str(s),
{
    assert forall|q: VersionReq| !denotes_req(s, q) by {
        if denotes_req(s, q) {
            match q {
                VersionReq::Latest => {},
                VersionReq::Exact(v) => {
                    if s.len() > 0 && (s[0] == '^' || s[0] == '~') {
                        let (i, j) = choose|i: int, j: int|
                            version_parts(s, i, j) && v == parts_version(s, i, j);
                        if i == 0 {
                            assert(s[0] == '.');
                        } else {
                            assert(is_digit(s.subrange(0, i)[0]));
                        }
                    }
                },
                VersionReq::Caret(v) => {},
                VersionReq::Tilde(v) => {},
            }
        }
    }
}

} // verus!
