//! Small helpers around package names.

use vstd::prelude::*;

verus! {

/// `s` with every slash replaced by the escape `%2f`.
pub open spec fn slashes_escaped(s: Seq<char>) -> Seq<char>
    decreases s.len(),
{
    if s.len() == 0 {
        Seq::empty()
    } else {
        slashes_escaped(s.drop_last()) + (if s.last() == '/' {
            seq!['%', '2', 'f']
        } else {
            seq![s.last()]
        })
    }
}

/// The normalized form of a package name: a scoped name has its slashes
/// escaped as `%2f`, any other name is unchanged.
pub open spec fn normalized_name(name: Seq<char>) -> Seq<char> {
    if name.len() > 0 && name[0] == '@' {
        slashes_escaped(name)
    } else {
        name
    }
}

/// Normalizes a package name for use as a single path or URL segment.
pub fn normalize_package_name(name: &str) -> (r: String)
    ensures
        r@ == normalized_name(name@),
{
    let len = name.unicode_len();
    if len == 0 || name.get_char(0) != '@' {
        return name.to_owned();
    }
    let mut out = String::new();
    let mut i: usize = 0;
    proof {
        assert(name@.take(0) =~= Seq::<char>::empty());
        assert(slashes_escaped(Seq::<char>::empty()) =~= Seq::<char>::empty());
    }
    while i < len
        invariant
            i <= len,
            len == name@.len(),
            out@ == slashes_escaped(name@.take(i as int)),
        decreases len - i,
    {
        proof {
            assert(name@.take(i as int + 1).last() == name@[i as int]);
            assert(name@.take(i as int + 1).drop_last() =~= name@.take(i as int));
        }
        if name.get_char(i) == '/' {
            out.append("%2f");
            proof {
                assert("%2f"@ =~= seq!['%', '2', 'f']) by {
                    reveal_strlit("%2f");
                }
            }
        } else {
            let piece = name.substring_char(i, i + 1);
            proof {
                assert(piece@ =~= seq![name@[i as int]]);
            }
            out.append(piece);
        }
        i += 1;
    }
    proof {
        assert(name@.take(len as int) =~= name@);
    }
    out
}

} // verus!
