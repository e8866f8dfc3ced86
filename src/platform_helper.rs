use vstd::prelude::*;
use vstd::string::StrSliceExecFns;
use vstd::string::StringExecFns;

use crate::build_system::starts_with;
use crate::text::{chars_of, doc_of, slice_eq, split_lines, split_lines_of};

verus! {

/// `s` without every copy of `p` at its front.
pub open spec fn strip_prefixes(s: Seq<char>, p: Seq<char>) -> Seq<char>
    decreases s.len(),
{
    if p.len() > 0 && starts_with(s, p) {
        strip_prefixes(s.subrange(p.len() as int, s.len() as int), p)
    } else {
        s
    }
}

/// Index of the first line at or after `i` that opens with `host: `, or the number of lines.
pub open spec fn host_line_from(ls: Seq<Seq<char>>, i: int) -> int
    decreases ls.len() - i,
{
    if i >= ls.len() {
        ls.len() as int
    } else if starts_with(ls[i], "host: "@) {
        i
    } else {
        host_line_from(ls, i + 1)
    }
}

/// The host platform that `rustc -vV` reports: the first line that opens
/// with `host: `, without that prefix.
pub open spec fn host_of(output: Seq<char>) -> Option<Seq<char>> {
    let ls = split_lines(output);
    let i = host_line_from(ls, 0);
    if 0 <= i < ls.len() {
        Some(strip_prefixes(ls[i], "host: "@))
    } else {
        None
    }
}

/// The host platform in the output of `rustc -vV`.
pub fn get_default_target(rustc_output: &str) -> (r: Result<String, String>)
    ensures
        r is Ok <==> host_of(rustc_output@) is Some,
        r matches Ok(t) ==> host_of(rustc_output@) == Some(t@),
        r matches Err(e) ==> e@ == "Unable to determine default target platform"@,
{
    let lines = split_lines_of(rustc_output);
    let ghost ls = split_lines(rustc_output@);
    let prefix = chars_of("host: ");
    proof {
        reveal_strlit("host: ");
    }
    let mut i: usize = 0;
    while i < lines.len()
        invariant
            ls == split_lines(rustc_output@),
            ls == doc_of(lines@),
            prefix@ == "host: "@,
            prefix@.len() == 6,
            i <= lines@.len(),
            host_line_from(ls, 0) == host_line_from(ls, i as int),
        decreases lines@.len() - i,
    {
        let line = lines[i].as_str();
        let cs = chars_of(line);
        assert(ls[i as int] == cs@);
        if cs.len() >= prefix.len() && slice_eq(&cs, 0, prefix.len(), &prefix) {
            let mut lo: usize = 0;
            assert(cs@.subrange(0, cs@.len() as int) =~= cs@);
            while cs.len() - lo >= prefix.len() && slice_eq(&cs, lo, lo + prefix.len(), &prefix)
                invariant
                    prefix@ == "host: "@,
                    prefix@.len() == 6,
                    lo <= cs@.len(),
                    strip_prefixes(cs@, prefix@) == strip_prefixes(cs@.subrange(lo as int, cs@.len() as int), prefix@),
                decreases cs@.len() - lo,
            {
                let ghost t = cs@.subrange(lo as int, cs@.len() as int);
                assert(t.subrange(0, 6) =~= cs@.subrange(lo as int, lo + 6));
                assert(t.subrange(6, t.len() as int) =~= cs@.subrange(lo + 6, cs@.len() as int));
                lo = lo + prefix.len();
            }
            proof {
                let t = cs@.subrange(lo as int, cs@.len() as int);
                if t.len() >= 6 {
                    assert(t.subrange(0, 6) =~= cs@.subrange(lo as int, lo + 6));
                }
                assert(cs@.subrange(0, 0) =~= Seq::<char>::empty());
                assert(cs@.subrange(0, cs@.len() as int) =~= cs@);
                lemma_host_line_at(ls, i as int);
            }
            return Ok(String::from_str(line.substring_char(lo, cs.len())));
        }
        assert(!starts_with(ls[i as int], "host: "@)) by {
            if cs@.len() >= 6 {
                assert(cs@.subrange(0, 6) == cs@.subrange(0, prefix@.len() as int));
            }
        }
        i = i + 1;
    }
    Err(String::from_str("Unable to determine default target platform"))
}

proof fn lemma_host_line_at(ls: Seq<Seq<char>>, i: int)
    requires
        0 <= i < ls.len(),
        starts_with(ls[i], "host: "@),
        host_line_from(ls, 0) == host_line_from(ls, i),
    ensures
        host_line_from(ls, 0) == i,
{
}

} // verus!
