use vstd::prelude::*;
use vstd::string::StrSliceExecFns;
use vstd::string::StringExecFns;

verus! {

/// Whether a character beyond ASCII has the Unicode White_Space property.
pub uninterp spec fn wide_white_space(c: char) -> bool;

/// Whether `c` has the Unicode White_Space property: in ASCII these are tab,
/// line feed, vertical tab, form feed, carriage return and space.
pub open spec fn white_space(c: char) -> bool {
    if (c as u32) < 128 {
        (9 <= (c as u32) && (c as u32) <= 13) || c == ' '
    } else {
        wide_white_space(c)
    }
}

/// Relies on `char::is_whitespace`: true exactly for characters with the
/// Unicode White_Space property.
#[verifier::external_body]
pub(crate) fn is_white_space(c: char) -> (r: bool)
    ensures
        r == white_space(c),
        (c as u32) >= 128 ==> r == wide_white_space(c),
{
    c.is_whitespace()
}

/// `s` without its leading white space.
pub open spec fn trim_start(s: Seq<char>) -> Seq<char>
    decreases s.len(),
{
    if s.len() > 0 && white_space(s[0]) {
        trim_start(s.drop_first())
    } else {
        s
    }
}

/// `s` without its trailing white space.
pub open spec fn trim_end(s: Seq<char>) -> Seq<char>
    decreases s.len(),
{
    if s.len() > 0 && white_space(s.last()) {
        trim_end(s.drop_last())
    } else {
        s
    }
}

/// `s` without leading and trailing white space.
pub open spec fn trimmed(s: Seq<char>) -> Seq<char> {
    trim_end(trim_start(s))
}

/// Index of the first `c` in `s`, or the length of `s` when there is none.
pub open spec fn first_of(s: Seq<char>, c: char) -> int
    decreases s.len(),
{
    if s.len() == 0 {
        0
    } else if s[0] == c {
        0
    } else {
        1 + first_of(s.drop_first(), c)
    }
}

pub proof fn lemma_first_of(s: Seq<char>, c: char, j: int)
    requires
        0 <= j <= s.len(),
        forall|k: int| 0 <= k < j ==> s[k] != c,
        j == s.len() || s[j] == c,
    ensures
        first_of(s, c) == j,
    decreases j,
{
    if j > 0 {
        lemma_first_of(s.drop_first(), c, j - 1);
    }
}

pub proof fn lemma_first_of_props(s: Seq<char>, c: char)
    ensures
        0 <= first_of(s, c) <= s.len(),
        forall|k: int| 0 <= k < first_of(s, c) ==> s[k] != c,
        first_of(s, c) < s.len() ==> s[first_of(s, c)] == c,
    decreases s.len(),
{
    if s.len() > 0 && s[0] != c {
        lemma_first_of_props(s.drop_first(), c);
        assert forall|k: int| 0 <= k < first_of(s, c) implies s[k] != c by {
            if k > 0 {
                assert(s[k] == s.drop_first()[k - 1]);
            }
        }
    }
}

pub proof fn lemma_trim_start(s: Seq<char>, lo: int)
    requires
        0 <= lo <= s.len(),
        forall|k: int| 0 <= k < lo ==> white_space(#[trigger] s[k]),
        lo == s.len() || !white_space(s[lo]),
    ensures
        trim_start(s) == s.subrange(lo, s.len() as int),
    decreases lo,
{
    if lo == 0 {
        assert(s.subrange(0, s.len() as int) =~= s);
    } else {
        assert(white_space(s[0]));
        let t = s.drop_first();
        assert forall|k: int| 0 <= k < lo - 1 implies white_space(#[trigger] t[k]) by {
            assert(t[k] == s[k + 1]);
        }
        lemma_trim_start(t, lo - 1);
        assert(t.subrange(lo - 1, t.len() as int) =~= s.subrange(lo, s.len() as int));
    }
}

pub proof fn lemma_trim_end(s: Seq<char>, hi: int)
    requires
        0 <= hi <= s.len(),
        forall|k: int| hi <= k < s.len() ==> white_space(#[trigger] s[k]),
        hi == 0 || !white_space(s[hi - 1]),
    ensures
        trim_end(s) == s.subrange(0, hi),
    decreases s.len() - hi,
{
    if hi == s.len() {
        assert(s.subrange(0, hi) =~= s);
    } else {
        assert(white_space(s.last()));
        let t = s.drop_last();
        assert forall|k: int| hi <= k < t.len() implies white_space(#[trigger] t[k]) by {
            assert(t[k] == s[k]);
        }
        lemma_trim_end(t, hi);
        assert(t.subrange(0, hi) =~= s.subrange(0, hi));
    }
}

/// The characters of `s`, one by one.
pub fn chars_of(s: &str) -> (r: Vec<char>)
    ensures
        r@ == s@,
{
    let n = s.unicode_len();
    let mut r: Vec<char> = Vec::new();
    let mut i: usize = 0;
    while i < n
        invariant
            n == s@.len(),
            i <= n,
            r@ == s@.subrange(0, i as int),
        decreases n - i,
    {
        r.push(s.get_char(i));
        i = i + 1;
        assert(r@ =~= s@.subrange(0, i as int));
    }
    assert(s@.subrange(0, n as int) =~= s@);
    r
}

/// Whether `a[from..to]` equals `b`.
pub fn slice_eq(a: &Vec<char>, from: usize, to: usize, b: &Vec<char>) -> (r: bool)
    requires
        from <= to <= a@.len(),
    ensures
        r == (a@.subrange(from as int, to as int) == b@),
{
    if to - from != b.len() {
        return false;
    }
    let mut i: usize = 0;
    while i < b.len()
        invariant
            from <= to <= a@.len(),
            to - from == b@.len(),
            i <= b@.len(),
            forall|k: int| 0 <= k < i ==> a@[from + k] == b@[k],
        decreases b@.len() - i,
    {
        if a[from + i] != b[i] {
            assert(a@.subrange(from as int, to as int)[i as int] != b@[i as int]);
            return false;
        }
        i = i + 1;
    }
    assert(a@.subrange(from as int, to as int) =~= b@);
    true
}

/// Bounds of `cs[from..to]` once white space is trimmed from both ends.
pub fn trim_bounds(cs: &Vec<char>, from: usize, to: usize) -> (r: (usize, usize))
    requires
        from <= to <= cs@.len(),
    ensures
        from <= r.0 <= r.1 <= to,
        cs@.subrange(r.0 as int, r.1 as int) == trimmed(cs@.subrange(from as int, to as int)),
{
    let ghost s = cs@.subrange(from as int, to as int);
    let mut lo: usize = from;
    while lo < to && is_white_space(cs[lo])
        invariant
            from <= lo <= to <= cs@.len(),
            s == cs@.subrange(from as int, to as int),
            forall|k: int| 0 <= k < lo - from ==> white_space(#[trigger] s[k]),
        decreases to - lo,
    {
        lo = lo + 1;
    }
    proof {
        lemma_trim_start(s, lo - from);
    }
    let ghost t = s.subrange(lo - from, s.len() as int);
    assert(t =~= cs@.subrange(lo as int, to as int));
    let mut hi: usize = to;
    while hi > lo && is_white_space(cs[hi - 1])
        invariant
            from <= lo <= hi <= to <= cs@.len(),
            t == cs@.subrange(lo as int, to as int),
            forall|k: int| hi - lo <= k < t.len() ==> white_space(#[trigger] t[k]),
        decreases hi - lo,
    {
        hi = hi - 1;
    }
    proof {
        lemma_trim_end(t, hi - lo);
        assert(t.subrange(0, hi - lo) =~= cs@.subrange(lo as int, hi as int));
    }
    (lo, hi)
}

/// Index of the first `c` in `cs`, or its length when there is none.
pub fn find_char(cs: &Vec<char>, c: char) -> (r: usize)
    ensures
        r == first_of(cs@, c),
        r <= cs@.len(),
{
    let mut i: usize = 0;
    while i < cs.len() && cs[i] != c
        invariant
            i <= cs@.len(),
            forall|k: int| 0 <= k < i ==> cs@[k] != c,
        decreases cs@.len() - i,
    {
        i = i + 1;
    }
    proof {
        lemma_first_of(cs@, c, i as int);
    }
    i
}


/// `s` without one trailing carriage return.
pub open spec fn strip_cr(s: Seq<char>) -> Seq<char> {
    if s.len() > 0 && s.last() == '\r' {
        s.drop_last()
    } else {
        s
    }
}

/// The lines of a text: it is cut at each line feed, a carriage return just
/// before the line feed is dropped, and a final line feed opens no empty line.
pub open spec fn split_lines(s: Seq<char>) -> Seq<Seq<char>>
    decreases s.len(),
{
    if s.len() == 0 {
        seq![]
    } else {
        let j = first_of(s, '\n');
        if 0 <= j < s.len() {
            seq![strip_cr(s.subrange(0, j))] + split_lines(s.subrange(j + 1, s.len() as int))
        } else {
            seq![s]
        }
    }
}

/// Lines put together with a line feed between each two.
pub open spec fn join_lines(ls: Seq<Seq<char>>) -> Seq<char>
    decreases ls.len(),
{
    if ls.len() == 0 {
        seq![]
    } else if ls.len() == 1 {
        ls[0]
    } else {
        join_lines(ls.drop_last()) + seq!['\n'] + ls.last()
    }
}

/// The text of each line of a document.
pub open spec fn doc_of(v: Seq<String>) -> Seq<Seq<char>> {
    v.map_values(|l: String| l@)
}

/// Cuts `content` into its lines.
pub fn split_lines_of(content: &str) -> (r: Vec<String>)
    ensures
        doc_of(r@) == split_lines(content@),
{
    let cs = chars_of(content);
    let n = cs.len();
    let ghost s = content@;
    let mut out: Vec<String> = Vec::new();
    let mut start: usize = 0;
    let mut i: usize = 0;
    assert(s.subrange(0, n as int) =~= s);
    assert(doc_of(out@) =~= Seq::<Seq<char>>::empty());
    assert(doc_of(out@) + split_lines(s) =~= split_lines(s));
    while i < n
        invariant
            cs@ == s,
            s == content@,
            n == s.len(),
            start <= i <= n,
            forall|k: int| start <= k < i ==> s[k] != '\n',
            split_lines(s) == doc_of(out@) + split_lines(s.subrange(start as int, n as int)),
        decreases n - i,
    {
        if cs[i] == '\n' {
            let ghost t = s.subrange(start as int, n as int);
            proof {
                lemma_first_of(t, '\n', i - start);
                assert(t.subrange(0, i - start) =~= s.subrange(start as int, i as int));
                assert(t.subrange(i - start + 1, t.len() as int) =~= s.subrange(i + 1, n as int));
            }
            let end: usize = if i > start && cs[i - 1] == '\r' {
                i - 1
            } else {
                i
            };
            let line = String::from_str(content.substring_char(start, end));
            proof {
                assert(line@ == strip_cr(s.subrange(start as int, i as int)));
            }
            let ghost before = out@;
            out.push(line);
            assert(doc_of(out@) =~= doc_of(before).push(line@));
            assert(split_lines(s.subrange(start as int, n as int)) == seq![line@] + split_lines(s.subrange(i + 1, n as int)));
            assert(doc_of(out@) + split_lines(s.subrange(i + 1, n as int)) =~= doc_of(before) + split_lines(s.subrange(start as int, n as int)));
            start = i + 1;
        }
        i = i + 1;
    }
    if start < n {
        let ghost t = s.subrange(start as int, n as int);
        proof {
            lemma_first_of(t, '\n', t.len() as int);
        }
        let line = String::from_str(content.substring_char(start, n));
        let ghost before = out@;
        out.push(line);
        assert(doc_of(out@) =~= doc_of(before).push(line@));
    }
    proof {
        assert(doc_of(out@) =~= split_lines(s));
    }
    out
}

/// Puts `lines` together with a line feed between each two.
pub fn join_lines_of(lines: &Vec<String>) -> (r: String)
    ensures
        r@ == join_lines(doc_of(lines@)),
{
    let mut r = String::new();
    let mut i: usize = 0;
    proof {
        reveal_strlit("\n");
    }
    while i < lines.len()
        invariant
            i <= lines@.len(),
            r@ == join_lines(doc_of(lines@).subrange(0, i as int)),
        decreases lines@.len() - i,
    {
        let ghost d = doc_of(lines@).subrange(0, i as int + 1);
        assert(d.drop_last() =~= doc_of(lines@).subrange(0, i as int));
        assert(d.last() == lines@[i as int]@);
        if i > 0 {
            proof {
                reveal_strlit("\n");
            }
            r.append("\n");
        } else {
            assert(r@ =~= Seq::<char>::empty());
        }
        r.append(lines[i].as_str());
        i = i + 1;
        assert(r@ =~= join_lines(d));
    }
    assert(doc_of(lines@).subrange(0, i as int) =~= doc_of(lines@));
    r
}

} // verus!
