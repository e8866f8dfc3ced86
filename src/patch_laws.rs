use vstd::prelude::*;

use crate::cargo_config::{
    add_settings, ensured, opened, ManifestState, body_end, body_keys, ends_body, has_header, header_from,
    is_header_line, key_of, patched, section_start, setting_line, with_header,
};
use crate::text::{join_lines, lemma_first_of, lemma_trim_end, lemma_trim_start, trim_end, trimmed, white_space};

verus! {

/// A printable ASCII character other than space.
pub open spec fn printable(c: char) -> bool {
    33 <= (c as u32) && (c as u32) <= 126
}

/// A section header that opens with `[` and ends with a printable character.
pub open spec fn section_token(h: Seq<char>) -> bool {
    &&& h.len() > 0
    &&& h[0] == '['
    &&& printable(h.last())
}

/// A key without `=` that, unless empty, opens with a printable character
/// other than `[` and ends with a printable character.
pub open spec fn plain_key(k: Seq<char>) -> bool {
    &&& forall|i: int| 0 <= i < k.len() ==> #[trigger] k[i] != '='
    &&& k.len() > 0 ==> printable(k[0]) && k[0] != '[' && printable(k.last())
}

/// Settings whose keys are all plain.
pub open spec fn plain_settings(st: Seq<(Seq<char>, Seq<char>)>) -> bool {
    forall|i: int| 0 <= i < st.len() ==> plain_key(#[trigger] st[i].0)
}

/// The lines of the settings whose keys are not among `keys`, in their order.
pub open spec fn missing_lines(keys: Seq<Seq<char>>, st: Seq<(Seq<char>, Seq<char>)>) -> Seq<Seq<char>>
    decreases st.len(),
{
    if st.len() == 0 {
        seq![]
    } else {
        let m = missing_lines(keys, st.drop_last());
        if keys.contains(st.last().0) {
            m
        } else {
            m.push(setting_line(st.last().0, st.last().1))
        }
    }
}

/// The line of each setting, in order.
pub open spec fn all_lines(st: Seq<(Seq<char>, Seq<char>)>) -> Seq<Seq<char>> {
    st.map_values(|kv: (Seq<char>, Seq<char>)| setting_line(kv.0, kv.1))
}

proof fn lemma_printable_not_white(c: char)
    requires
        printable(c),
    ensures
        !white_space(c),
{
}

proof fn lemma_trim_end_keeps_front(t: Seq<char>, p: int)
    requires
        0 <= p < t.len(),
        !white_space(t[p]),
    ensures
        trim_end(t).len() > p,
        trim_end(t)[0] == t[0],
    decreases t.len(),
{
    if white_space(t.last()) {
        lemma_trim_end_keeps_front(t.drop_last(), p);
    }
}

proof fn lemma_plain_trimmed(s: Seq<char>)
    requires
        s.len() > 0,
        printable(s[0]),
        printable(s.last()),
    ensures
        trimmed(s) == s,
{
    lemma_printable_not_white(s[0]);
    lemma_printable_not_white(s.last());
    lemma_trim_start(s, 0);
    assert(s.subrange(0, s.len() as int) =~= s);
    lemma_trim_end(s, s.len() as int);
}

proof fn lemma_setting_line(k: Seq<char>, v: Seq<char>)
    requires
        plain_key(k),
    ensures
        key_of(setting_line(k, v)) == k,
        !ends_body(setting_line(k, v)),
        trimmed(setting_line(k, v)).len() > 0,
        trimmed(setting_line(k, v))[0] != '[',
{
    let l = setting_line(k, v);
    let n = k.len() as int;
    assert(l[n] == ' ');
    assert(l[n + 1] == '=');
    assert forall|j: int| 0 <= j < n + 1 implies l[j] != '=' by {
        if j < n {
            assert(l[j] == k[j]);
        }
    }
    lemma_first_of(l, '=', n + 1);
    let pre = l.subrange(0, n + 1);
    assert(pre =~= k.push(' '));
    if n > 0 {
        lemma_printable_not_white(k[0]);
        lemma_printable_not_white(k[n - 1]);
        lemma_trim_start(pre, 0);
        assert(pre.subrange(0, pre.len() as int) =~= pre);
        lemma_trim_end(pre, n);
        assert(pre.subrange(0, n) =~= k);
        lemma_trim_start(l, 0);
        assert(l.subrange(0, l.len() as int) =~= l);
        lemma_trim_end_keeps_front(l, 0);
        assert(l[0] == k[0]);
    } else {
        lemma_trim_start(pre, 1);
        assert(pre.subrange(1, 1) =~= Seq::<char>::empty());
        assert(trim_end(Seq::<char>::empty()) == Seq::<char>::empty());
        assert(pre.subrange(1, 1) =~= k);
        lemma_trim_start(l, 1);
        let t = l.subrange(1, l.len() as int);
        assert(t[0] == '=');
        lemma_trim_end_keeps_front(t, 0);
    }
}

proof fn lemma_body_end_props(d: Seq<Seq<char>>, j: int)
    requires
        0 <= j <= d.len(),
    ensures
        j <= body_end(d, j) <= d.len(),
        forall|k: int| j <= k < body_end(d, j) ==> !ends_body(#[trigger] d[k]),
        body_end(d, j) < d.len() ==> ends_body(d[body_end(d, j)]),
    decreases d.len() - j,
{
    if j < d.len() && !ends_body(d[j]) {
        lemma_body_end_props(d, j + 1);
    }
}

proof fn lemma_body_end_at(d: Seq<Seq<char>>, j: int, e: int)
    requires
        0 <= j <= e <= d.len(),
        forall|k: int| j <= k < e ==> !ends_body(#[trigger] d[k]),
        e == d.len() || ends_body(d[e]),
    ensures
        body_end(d, j) == e,
    decreases e - j,
{
    if j < e {
        lemma_body_end_at(d, j + 1, e);
    }
}

proof fn lemma_header_from_props(d: Seq<Seq<char>>, h: Seq<char>, i: int)
    requires
        0 <= i <= d.len(),
    ensures
        i <= header_from(d, h, i) <= d.len(),
        forall|k: int| i <= k < header_from(d, h, i) ==> !is_header_line(#[trigger] d[k], h),
        header_from(d, h, i) < d.len() ==> is_header_line(d[header_from(d, h, i)], h),
    decreases d.len() - i,
{
    if i < d.len() && !is_header_line(d[i], h) {
        lemma_header_from_props(d, h, i + 1);
    }
}

proof fn lemma_header_from_at(d: Seq<Seq<char>>, h: Seq<char>, i: int, s: int)
    requires
        0 <= i <= s <= d.len(),
        forall|k: int| i <= k < s ==> !is_header_line(#[trigger] d[k], h),
        s == d.len() || is_header_line(d[s], h),
    ensures
        header_from(d, h, i) == s,
    decreases s - i,
{
    if i < s {
        lemma_header_from_at(d, h, i + 1, s);
    }
}

proof fn lemma_missing_lines(keys: Seq<Seq<char>>, st: Seq<(Seq<char>, Seq<char>)>, h: Seq<char>)
    requires
        plain_settings(st),
        h.len() > 0 && h[0] == '[',
    ensures
        forall|j: int| 0 <= j < missing_lines(keys, st).len() ==> !ends_body(#[trigger] missing_lines(keys, st)[j])
            && !is_header_line(missing_lines(keys, st)[j], h),
        forall|i: int| 0 <= i < st.len() ==> keys.contains(#[trigger] st[i].0)
            || missing_lines(keys, st).map_values(|l: Seq<char>| key_of(l)).contains(st[i].0),
        keys.len() == 0 ==> missing_lines(keys, st) == all_lines(st),
    decreases st.len(),
{
    if st.len() > 0 {
        let sd = st.drop_last();
        assert forall|i: int| 0 <= i < sd.len() implies plain_key(#[trigger] sd[i].0) by {
            assert(sd[i] == st[i]);
        }
        lemma_missing_lines(keys, sd, h);
        let m = missing_lines(keys, sd);
        let kv = st.last();
        assert(plain_key(st[st.len() - 1].0));
        lemma_setting_line(kv.0, kv.1);
        let mm = missing_lines(keys, st);
        assert forall|i: int| 0 <= i < st.len() implies keys.contains(#[trigger] st[i].0)
            || mm.map_values(|l: Seq<char>| key_of(l)).contains(st[i].0) by {
            if i < sd.len() {
                assert(sd[i] == st[i]);
                if !keys.contains(st[i].0) {
                    let mk = m.map_values(|l: Seq<char>| key_of(l));
                    let w = choose|w: int| 0 <= w < mk.len() && mk[w] == st[i].0;
                    assert(mm.map_values(|l: Seq<char>| key_of(l))[w] == st[i].0);
                }
            } else if !keys.contains(st[i].0) {
                assert(mm.map_values(|l: Seq<char>| key_of(l))[m.len() as int] == st[i].0);
            }
        }
        if keys.len() == 0 {
            assert(!keys.contains(kv.0));
            assert(all_lines(st) =~= all_lines(sd).push(setting_line(kv.0, kv.1)));
        }
    } else {
        assert(all_lines(st) =~= Seq::<Seq<char>>::empty());
    }
}

proof fn lemma_shape(d: Seq<Seq<char>>, s: int, keys: Seq<Seq<char>>, st: Seq<(Seq<char>, Seq<char>)>)
    requires
        0 <= s < d.len(),
        plain_settings(st),
    ensures
        add_settings(d, s, keys, st) == d.subrange(0, body_end(d, s + 1)) + missing_lines(keys, st)
            + d.subrange(body_end(d, s + 1), d.len() as int),
        body_end(add_settings(d, s, keys, st), s + 1) == body_end(d, s + 1) + missing_lines(keys, st).len(),
    decreases st.len(),
{
    let e = body_end(d, s + 1);
    lemma_body_end_props(d, s + 1);
    lemma_missing_lines(keys, st, seq!['[']);
    if st.len() == 0 {
        assert(d.subrange(0, e) + Seq::<Seq<char>>::empty() + d.subrange(e, d.len() as int) =~= d);
    } else {
        let sd = st.drop_last();
        assert forall|i: int| 0 <= i < sd.len() implies plain_key(#[trigger] sd[i].0) by {
            assert(sd[i] == st[i]);
        }
        lemma_shape(d, s, keys, sd);
        let m = missing_lines(keys, sd);
        let dd = add_settings(d, s, keys, sd);
        let kv = st.last();
        if !keys.contains(kv.0) {
            let l = setting_line(kv.0, kv.1);
            let m2 = m.push(l);
            let nd = dd.insert(e + m.len(), l);
            assert(nd =~= d.subrange(0, e) + m2 + d.subrange(e, d.len() as int));
            assert(m2 == missing_lines(keys, st));
            assert forall|k: int| s + 1 <= k < e + m2.len() implies !ends_body(#[trigger] nd[k]) by {
                if k < e {
                    assert(nd[k] == d[k]);
                } else {
                    assert(nd[k] == m2[k - e]);
                }
            }
            if e < d.len() {
                assert(nd[e + m2.len()] == d[e]);
            }
            lemma_body_end_at(nd, s + 1, e + m2.len());
        }
    }
}

proof fn lemma_all_present(d: Seq<Seq<char>>, s: int, keys: Seq<Seq<char>>, st: Seq<(Seq<char>, Seq<char>)>)
    requires
        forall|i: int| 0 <= i < st.len() ==> keys.contains(#[trigger] st[i].0),
    ensures
        add_settings(d, s, keys, st) == d,
    decreases st.len(),
{
    if st.len() > 0 {
        let sd = st.drop_last();
        assert forall|i: int| 0 <= i < sd.len() implies keys.contains(#[trigger] sd[i].0) by {
            assert(sd[i] == st[i]);
        }
        lemma_all_present(d, s, keys, sd);
        assert(keys.contains(st[st.len() - 1].0));
    }
}

/// Facts on the document once the header is in place: the section starts at
/// the first header line.
proof fn lemma_header_placed(d: Seq<Seq<char>>, h: Seq<char>)
    requires
        section_token(h),
    ensures
        has_header(with_header(d, h), h),
        section_start(with_header(d, h), h) == header_from(with_header(d, h), h, 0),
        with_header(d, h).len() > 0,
{
    lemma_header_from_props(d, h, 0);
    if !has_header(d, h) {
        let d1 = d.push(h);
        lemma_plain_trimmed(h);
        assert forall|k: int| 0 <= k < d.len() implies !is_header_line(#[trigger] d1[k], h) by {
            assert(d1[k] == d[k]);
        }
        lemma_header_from_at(d1, h, 0, d.len() as int);
    }
}


proof fn lemma_keeps(d: Seq<Seq<char>>, s: int, keys: Seq<Seq<char>>, st: Seq<(Seq<char>, Seq<char>)>, x: Seq<char>)
    requires
        0 <= s < d.len(),
        d.contains(x),
    ensures
        add_settings(d, s, keys, st).contains(x),
        add_settings(d, s, keys, st).len() >= d.len(),
    decreases st.len(),
{
    if st.len() > 0 {
        lemma_keeps(d, s, keys, st.drop_last(), x);
        let dd = add_settings(d, s, keys, st.drop_last());
        let kv = st.last();
        if !keys.contains(kv.0) {
            lemma_body_end_props(dd, s + 1);
            let p = body_end(dd, s + 1);
            let nd = dd.insert(p, setting_line(kv.0, kv.1));
            let w = choose|w: int| 0 <= w < dd.len() && dd[w] == x;
            if w < p {
                assert(nd[w] == x);
            } else {
                assert(nd[w + 1] == x);
            }
        }
    }
}

/// The document once the header is in place.
pub open spec fn patch_base(d: Seq<Seq<char>>, h: Seq<char>) -> Seq<Seq<char>> {
    with_header(d, h)
}

/// Index of the section's header line once the header is in place.
pub open spec fn patch_start(d: Seq<Seq<char>>, h: Seq<char>) -> int {
    section_start(with_header(d, h), h)
}

/// Index at which the section's body ends once the header is in place.
pub open spec fn patch_end(d: Seq<Seq<char>>, h: Seq<char>) -> int {
    body_end(with_header(d, h), patch_start(d, h) + 1)
}

/// The lines that the patch adds.
pub open spec fn patch_inserted(
    d: Seq<Seq<char>>,
    h: Seq<char>,
    st: Seq<(Seq<char>, Seq<char>)>,
) -> Seq<Seq<char>> {
    missing_lines(body_keys(with_header(d, h), patch_start(d, h)), st)
}

proof fn lemma_start_in_range(d: Seq<Seq<char>>, h: Seq<char>)
    ensures
        0 <= patch_start(d, h) < with_header(d, h).len(),
{
    lemma_header_from_props(d, h, 0);
    lemma_header_from_props(with_header(d, h), h, 0);
}

/// Every line of the document is still there after the patch: the patch
/// only inserts lines.
pub proof fn law_lines_kept(d: Seq<Seq<char>>, h: Seq<char>, st: Seq<(Seq<char>, Seq<char>)>)
    ensures
        forall|i: int| 0 <= i < d.len() ==> patched(d, h, st).contains(#[trigger] d[i]),
{
    lemma_start_in_range(d, h);
    let d1 = with_header(d, h);
    assert forall|i: int| 0 <= i < d.len() implies patched(d, h, st).contains(#[trigger] d[i]) by {
        assert(d1[i] == d[i]);
        lemma_keeps(d1, patch_start(d, h), body_keys(d1, patch_start(d, h)), st, d[i]);
    }
}

/// The patch inserts one block of lines, at the end of the section's body:
/// before any later blank line or section header, after the lines already
/// in the body, which stay as they were. The block holds the line of each
/// setting whose key the body lacked, in the settings' order.
pub proof fn law_inserted_at_body_end(d: Seq<Seq<char>>, h: Seq<char>, st: Seq<(Seq<char>, Seq<char>)>)
    requires
        plain_settings(st),
    ensures
        0 <= patch_start(d, h) < patch_end(d, h) <= patch_base(d, h).len(),
        forall|j: int| patch_start(d, h) < j < patch_end(d, h) ==> !ends_body(#[trigger] patch_base(d, h)[j]),
        patched(d, h, st) == patch_base(d, h).subrange(0, patch_end(d, h)) + patch_inserted(d, h, st)
            + patch_base(d, h).subrange(patch_end(d, h), patch_base(d, h).len() as int),
{
    lemma_start_in_range(d, h);
    let d1 = with_header(d, h);
    let s = patch_start(d, h);
    lemma_body_end_props(d1, s + 1);
    lemma_shape(d1, s, body_keys(d1, s), st);
}

/// Patching twice with the same settings gives the same lines, hence the
/// same text, as patching once.
pub proof fn law_idempotent(d: Seq<Seq<char>>, h: Seq<char>, st: Seq<(Seq<char>, Seq<char>)>)
    requires
        section_token(h),
        plain_settings(st),
    ensures
        patched(patched(d, h, st), h, st) == patched(d, h, st),
        join_lines(patched(patched(d, h, st), h, st)) == join_lines(patched(d, h, st)),
{
    lemma_header_placed(d, h);
    let d1 = with_header(d, h);
    let s = section_start(d1, h);
    let keys = body_keys(d1, s);
    lemma_header_from_props(d1, h, 0);
    lemma_body_end_props(d1, s + 1);
    lemma_shape(d1, s, keys, st);
    lemma_missing_lines(keys, st, h);
    let p = patched(d, h, st);
    let e = body_end(d1, s + 1);
    let m = missing_lines(keys, st);
    assert(p == add_settings(d1, s, keys, st));
    assert forall|k: int| 0 <= k < s implies !is_header_line(#[trigger] p[k], h) by {
        assert(p[k] == d1[k]);
    }
    assert(p[s] == d1[s]);
    lemma_header_from_at(p, h, 0, s);
    assert(with_header(p, h) == p);
    assert(section_start(p, h) == s);
    let keys2 = body_keys(p, s);
    let mk = m.map_values(|l: Seq<char>| key_of(l));
    assert(keys2 =~= keys + mk) by {
        assert(p.subrange(s + 1, e + m.len()) =~= d1.subrange(s + 1, e) + m);
    }
    assert forall|i: int| 0 <= i < st.len() implies keys2.contains(#[trigger] st[i].0) by {
        if keys.contains(st[i].0) {
            let w = choose|w: int| 0 <= w < keys.len() && keys[w] == st[i].0;
            assert(keys2[w] == st[i].0);
        } else {
            let w = choose|w: int| 0 <= w < mk.len() && mk[w] == st[i].0;
            assert(keys2[keys.len() + w] == st[i].0);
        }
    }
    lemma_all_present(p, s, keys2, st);
}

/// On a document with no header line `h`, the patch appends the header and
/// then the line of every setting, in order; the header stands once.
pub proof fn law_section_created(d: Seq<Seq<char>>, h: Seq<char>, st: Seq<(Seq<char>, Seq<char>)>)
    requires
        section_token(h),
        plain_settings(st),
        !has_header(d, h),
    ensures
        patched(d, h, st) == d.push(h) + all_lines(st),
        forall|i: int| 0 <= i < patched(d, h, st).len() ==> (is_header_line(#[trigger] patched(d, h, st)[i], h)
            <==> i == d.len()),
{
    lemma_header_placed(d, h);
    lemma_header_from_props(d, h, 0);
    let d1 = d.push(h);
    lemma_plain_trimmed(h);
    assert forall|k: int| 0 <= k < d.len() implies !is_header_line(#[trigger] d1[k], h) by {
        assert(d1[k] == d[k]);
    }
    lemma_header_from_at(d1, h, 0, d.len() as int);
    let s = d.len() as int;
    assert(section_start(d1, h) == s);
    assert(body_end(d1, s + 1) == d1.len());
    let keys = body_keys(d1, s);
    assert(keys =~= Seq::<Seq<char>>::empty());
    lemma_missing_lines(keys, st, h);
    lemma_shape(d1, s, keys, st);
    let p = patched(d, h, st);
    assert(p =~= d.push(h) + all_lines(st)) by {
        assert(d1.subrange(0, d1.len() as int) =~= d1);
        assert(d1.subrange(d1.len() as int, d1.len() as int) =~= Seq::<Seq<char>>::empty());
    }
    assert forall|i: int| 0 <= i < p.len() implies (is_header_line(#[trigger] p[i], h) <==> i == d.len()) by {
        if i < d.len() {
            assert(p[i] == d[i]);
            assert(d1[i] == d[i]);
        } else if i > d.len() {
            assert(p[i] == missing_lines(keys, st)[i - d.len() - 1]);
        }
    }
}

/// The state after each step, a section header and its settings, in turn.
pub open spec fn after_steps(
    st: ManifestState,
    steps: Seq<(Seq<char>, Seq<(Seq<char>, Seq<char>)>)>,
) -> ManifestState
    decreases steps.len(),
{
    if steps.len() == 0 {
        st
    } else {
        ensured(after_steps(st, steps.drop_last()), steps.last().0, steps.last().1)
    }
}

/// However many patches follow the opening, the text kept for restoring is
/// the text as it was opened, at the same place.
pub proof fn law_restore_exact(
    path: Seq<char>,
    content: Seq<char>,
    steps: Seq<(Seq<char>, Seq<(Seq<char>, Seq<char>)>)>,
)
    ensures
        after_steps(opened(path, content), steps).original == content,
        after_steps(opened(path, content), steps).path == path,
    decreases steps.len(),
{
    if steps.len() > 0 {
        law_restore_exact(path, content, steps.drop_last());
    }
}

} // verus!
