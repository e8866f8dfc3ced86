use vstd::prelude::*;
use vstd::string::StrSliceExecFns;
use vstd::string::StringExecFns;

use crate::text::{
    chars_of, doc_of, find_char, first_of, join_lines, join_lines_of, slice_eq, split_lines,
    split_lines_of, trim_bounds, trimmed,
};

verus! {

/// A line whose trimmed text is the section header `h`.
pub open spec fn is_header_line(l: Seq<char>, h: Seq<char>) -> bool {
    trimmed(l) == h
}

/// A line that ends a section body: blank, or the start of a section.
pub open spec fn ends_body(l: Seq<char>) -> bool {
    trimmed(l).len() == 0 || trimmed(l)[0] == '['
}

/// The key of a `key = value` line: the trimmed text before the first `=`.
pub open spec fn key_of(l: Seq<char>) -> Seq<char> {
    trimmed(l.subrange(0, first_of(l, '=')))
}

/// The line `key = value`.
pub open spec fn setting_line(k: Seq<char>, v: Seq<char>) -> Seq<char> {
    k + seq![' ', '=', ' '] + v
}

/// Index of the first header line `h` at or after `i`, or the document length.
pub open spec fn header_from(d: Seq<Seq<char>>, h: Seq<char>, i: int) -> int
    decreases d.len() - i,
{
    if i >= d.len() {
        d.len() as int
    } else if is_header_line(d[i], h) {
        i
    } else {
        header_from(d, h, i + 1)
    }
}

/// Whether some line of `d` is the header `h`.
pub open spec fn has_header(d: Seq<Seq<char>>, h: Seq<char>) -> bool {
    header_from(d, h, 0) < d.len()
}

/// `d` with the header `h` appended when no line is that header.
pub open spec fn with_header(d: Seq<Seq<char>>, h: Seq<char>) -> Seq<Seq<char>> {
    if has_header(d, h) {
        d
    } else {
        d.push(h)
    }
}

/// Index of the section's header line: the first header line `h`, else the last line.
pub open spec fn section_start(d: Seq<Seq<char>>, h: Seq<char>) -> int {
    if has_header(d, h) {
        header_from(d, h, 0)
    } else {
        d.len() - 1
    }
}

/// Index of the first line at or after `j` that ends a section body, or the document length.
pub open spec fn body_end(d: Seq<Seq<char>>, j: int) -> int
    decreases d.len() - j,
{
    if j >= d.len() {
        d.len() as int
    } else if ends_body(d[j]) {
        j
    } else {
        body_end(d, j + 1)
    }
}

/// The keys of the body of the section whose header line is at `s`.
pub open spec fn body_keys(d: Seq<Seq<char>>, s: int) -> Seq<Seq<char>> {
    d.subrange(s + 1, body_end(d, s + 1)).map_values(|l: Seq<char>| key_of(l))
}

/// One required setting: its line goes at the end of the body unless its key is among `keys`.
pub open spec fn add_setting(
    d: Seq<Seq<char>>,
    s: int,
    keys: Seq<Seq<char>>,
    kv: (Seq<char>, Seq<char>),
) -> Seq<Seq<char>> {
    if keys.contains(kv.0) {
        d
    } else {
        d.insert(body_end(d, s + 1), setting_line(kv.0, kv.1))
    }
}

/// The required settings, one after the other, in their order.
pub open spec fn add_settings(
    d: Seq<Seq<char>>,
    s: int,
    keys: Seq<Seq<char>>,
    settings: Seq<(Seq<char>, Seq<char>)>,
) -> Seq<Seq<char>>
    decreases settings.len(),
{
    if settings.len() == 0 {
        d
    } else {
        add_setting(add_settings(d, s, keys, settings.drop_last()), s, keys, settings.last())
    }
}

/// The settings of the section with header `h` in `d` after the patch.
pub open spec fn patched(
    d: Seq<Seq<char>>,
    h: Seq<char>,
    settings: Seq<(Seq<char>, Seq<char>)>,
) -> Seq<Seq<char>> {
    let d1 = with_header(d, h);
    let s = section_start(d1, h);
    add_settings(d1, s, body_keys(d1, s), settings)
}

/// The text of each required setting.
pub open spec fn settings_of(v: Seq<(String, String)>) -> Seq<(Seq<char>, Seq<char>)> {
    v.map_values(|p: (String, String)| (p.0@, p.1@))
}

/// The settings that make a small release build.
pub open spec fn release_profile_settings() -> Seq<(Seq<char>, Seq<char>)> {
    seq![
        ("opt-level"@, "'z'"@),
        ("lto"@, "true"@),
        ("codegen-units"@, "1"@),
        ("panic"@, "'abort'"@),
        ("strip"@, "true"@),
    ]
}

/// What a manifest under patch is: where it lives, its text when it was
/// opened, and its lines as they stand now.
pub struct ManifestState {
    pub path: Seq<char>,
    pub original: Seq<char>,
    pub doc: Seq<Seq<char>>,
}

/// The state right after the manifest at `path` with text `content` is opened.
pub open spec fn opened(path: Seq<char>, content: Seq<char>) -> ManifestState {
    ManifestState { path, original: content, doc: split_lines(content) }
}

/// The state after the section `h` is made to hold `settings`.
pub open spec fn ensured(
    st: ManifestState,
    h: Seq<char>,
    settings: Seq<(Seq<char>, Seq<char>)>,
) -> ManifestState {
    ManifestState { doc: patched(st.doc, h, settings), ..st }
}

/// The text written back for the current lines.
pub open spec fn rendered(st: ManifestState) -> Seq<char> {
    join_lines(st.doc)
}

/// A build manifest opened for patching, with the text it had when opened.
pub struct CargoConfigManager {
    cargo_toml: String,
    original_content: String,
    lines: Vec<String>,
}

impl View for CargoConfigManager {
    type V = ManifestState;

    closed spec fn view(&self) -> ManifestState {
        ManifestState {
            path: self.cargo_toml@,
            original: self.original_content@,
            doc: doc_of(self.lines@),
        }
    }
}

impl CargoConfigManager {
    /// Opens the manifest at `cargo_toml`, whose text is `content`.
    pub fn new(cargo_toml: &str, content: String) -> (r: Self)
        ensures
            r@ == opened(cargo_toml@, content@),
    {
        let lines = split_lines_of(content.as_str());
        CargoConfigManager { cargo_toml: String::from_str(cargo_toml), original_content: content, lines }
    }

    /// Where the manifest lives.
    pub fn path(&self) -> (r: &str)
        ensures
            r@ == self@.path,
    {
        self.cargo_toml.as_str()
    }

    /// The text to write back for the current lines.
    pub fn write_file(&self) -> (r: String)
        ensures
            r@ == rendered(self@),
    {
        join_lines_of(&self.lines)
    }

    /// The text to write back to undo every patch: the text as it was opened.
    pub fn restore(&self) -> (r: String)
        ensures
            r@ == self@.original,
    {
        self.original_content.clone()
    }

    /// Index of the first line that is the header `h`, or the number of lines.
    fn header_position(lines: &Vec<String>, h: &Vec<char>) -> (r: usize)
        ensures
            r == header_from(doc_of(lines@), h@, 0),
    {
        let ghost d = doc_of(lines@);
        let mut i: usize = 0;
        while i < lines.len()
            invariant
                d == doc_of(lines@),
                i <= lines@.len(),
                header_from(d, h@, 0) == header_from(d, h@, i as int),
            decreases lines@.len() - i,
        {
            let cs = chars_of(lines[i].as_str());
            let (lo, hi) = trim_bounds(&cs, 0, cs.len());
            assert(cs@.subrange(0, cs@.len() as int) =~= cs@);
            if slice_eq(&cs, lo, hi, h) {
                return i;
            }
            i = i + 1;
        }
        i
    }

    /// Appends the header `h` when no line is that header.
    pub fn add_missing_section(lines: &mut Vec<String>, h: &str)
        ensures
            doc_of(final(lines)@) == with_header(doc_of(old(lines)@), h@),
    {
        let hc = chars_of(h);
        let p = Self::header_position(lines, &hc);
        if p >= lines.len() {
            let ghost before = lines@;
            lines.push(String::from_str(h));
            assert(doc_of(lines@) =~= doc_of(before).push(h@));
        }
    }

    /// Index of the section's header line in a document that has at least one line.
    pub fn find_section_index(lines: &Vec<String>, h: &str) -> (r: usize)
        requires
            lines@.len() > 0,
        ensures
            r == section_start(doc_of(lines@), h@),
            r < lines@.len(),
    {
        let hc = chars_of(h);
        let p = Self::header_position(lines, &hc);
        if p < lines.len() {
            p
        } else {
            lines.len() - 1
        }
    }

    /// The keys of the body of the section whose header line is at `start`.
    pub fn parse_existing_settings(lines: &Vec<String>, start: usize) -> (r: Vec<String>)
        requires
            start < lines@.len(),
        ensures
            doc_of(r@) == body_keys(doc_of(lines@), start as int),
    {
        let ghost d = doc_of(lines@);
        let mut r: Vec<String> = Vec::new();
        let n = lines.len();
        let mut i: usize = start + 1;
        while i < lines.len()
            invariant
                d == doc_of(lines@),
                start < i <= lines@.len(),
                body_end(d, start + 1) == body_end(d, i as int),
                doc_of(r@) == d.subrange(start + 1, i as int).map_values(|l: Seq<char>| key_of(l)),
            decreases lines@.len() - i,
        {
            let line = lines[i].as_str();
            let cs = chars_of(line);
            let (lo, hi) = trim_bounds(&cs, 0, cs.len());
            assert(cs@.subrange(0, cs@.len() as int) =~= cs@);
            if lo == hi || cs[lo] == '[' {
                assert(d.subrange(start + 1, i as int) =~= d.subrange(start + 1, body_end(d, start + 1)));
                return r;
            }
            let eq = find_char(&cs, '=');
            let (klo, khi) = trim_bounds(&cs, 0, eq);
            let key = String::from_str(line.substring_char(klo, khi));
            let ghost before = r@;
            r.push(key);
            assert(doc_of(r@) =~= doc_of(before).push(key@));
            assert(d.subrange(start + 1, i + 1).map_values(|l: Seq<char>| key_of(l)) =~= d.subrange(
                start + 1,
                i as int,
            ).map_values(|l: Seq<char>| key_of(l)).push(key_of(d[i as int])));
            i = i + 1;
        }
        assert(d.subrange(start + 1, i as int) =~= d.subrange(start + 1, body_end(d, start + 1)));
        r
    }

    /// Index at which the body of the section whose header line is at `start` ends.
    pub fn find_insert_position(lines: &Vec<String>, start: usize) -> (r: usize)
        requires
            start < lines@.len(),
        ensures
            r == body_end(doc_of(lines@), start + 1),
            start < r <= lines@.len(),
    {
        let ghost d = doc_of(lines@);
        let n = lines.len();
        let mut i: usize = start + 1;
        while i < lines.len()
            invariant
                d == doc_of(lines@),
                start < i <= lines@.len(),
                body_end(d, start + 1) == body_end(d, i as int),
            decreases lines@.len() - i,
        {
            let cs = chars_of(lines[i].as_str());
            let (lo, hi) = trim_bounds(&cs, 0, cs.len());
            assert(cs@.subrange(0, cs@.len() as int) =~= cs@);
            if lo == hi || cs[lo] == '[' {
                return i;
            }
            i = i + 1;
        }
        i
    }
    /// Whether `k` is among `keys`.
    fn contains_key(keys: &Vec<String>, k: &str) -> (r: bool)
        ensures
            r == doc_of(keys@).contains(k@),
    {
        let kc = chars_of(k);
        let mut i: usize = 0;
        while i < keys.len()
            invariant
                kc@ == k@,
                i <= keys@.len(),
                forall|j: int| 0 <= j < i ==> doc_of(keys@)[j] != k@,
            decreases keys@.len() - i,
        {
            let cs = chars_of(keys[i].as_str());
            if slice_eq(&cs, 0, cs.len(), &kc) {
                assert(cs@.subrange(0, cs@.len() as int) =~= cs@);
                assert(doc_of(keys@)[i as int] == k@);
                return true;
            }
            assert(cs@.subrange(0, cs@.len() as int) =~= cs@);
            i = i + 1;
        }
        false
    }

    /// The line `key = value`.
    fn make_setting_line(k: &str, v: &str) -> (r: String)
        ensures
            r@ == setting_line(k@, v@),
    {
        let mut l = String::from_str(k);
        proof {
            reveal_strlit(" = ");
        }
        l.append(" = ");
        l.append(v);
        assert(l@ =~= setting_line(k@, v@));
        l
    }

    /// Adds to the section `h`, at the end of its body and in their order, the
    /// settings whose keys its body does not hold yet.
    pub fn update_profile_settings(lines: &mut Vec<String>, h: &str, settings: &Vec<(String, String)>)
        requires
            old(lines)@.len() > 0,
        ensures
            doc_of(final(lines)@) == add_settings(
                doc_of(old(lines)@),
                section_start(doc_of(old(lines)@), h@),
                body_keys(doc_of(old(lines)@), section_start(doc_of(old(lines)@), h@)),
                settings_of(settings@),
            ),
    {
        let ghost d = doc_of(lines@);
        let start = Self::find_section_index(lines, h);
        let keys = Self::parse_existing_settings(lines, start);
        let ghost kk = doc_of(keys@);
        let ghost ss = settings_of(settings@);
        let mut i: usize = 0;
        assert(ss.subrange(0, 0) =~= Seq::<(Seq<char>, Seq<char>)>::empty());
        while i < settings.len()
            invariant
                i <= settings@.len(),
                ss == settings_of(settings@),
                kk == doc_of(keys@),
                start < lines@.len(),
                doc_of(lines@) == add_settings(d, start as int, kk, ss.subrange(0, i as int)),
            decreases settings@.len() - i,
        {
            let ghost cur = doc_of(lines@);
            assert(ss.subrange(0, i + 1).drop_last() =~= ss.subrange(0, i as int));
            assert(ss.subrange(0, i + 1).last() == ss[i as int]);
            let k = settings[i].0.as_str();
            let v = settings[i].1.as_str();
            if !Self::contains_key(&keys, k) {
                let pos = Self::find_insert_position(lines, start);
                let line = Self::make_setting_line(k, v);
                let ghost before = lines@;
                lines.insert(pos, line);
                assert(doc_of(lines@) =~= cur.insert(pos as int, line@));
            }
            i = i + 1;
        }
        assert(ss.subrange(0, i as int) =~= ss);
    }

    /// Makes the section with header `h` hold each of `settings`: the header is
    /// appended when missing, and the settings whose keys the section's body
    /// lacks are added at the end of the body, in their order. Returns the text
    /// to write back.
    pub fn ensure_section_with_settings(&mut self, h: &str, settings: &Vec<(String, String)>) -> (r: String)
        ensures
            final(self)@ == ensured(old(self)@, h@, settings_of(settings@)),
            r@ == rendered(final(self)@),
    {
        Self::add_missing_section(&mut self.lines, h);
        Self::update_profile_settings(&mut self.lines, h, settings);
        join_lines_of(&self.lines)
    }

    /// The settings that make a small release build.
    pub fn release_settings() -> (r: Vec<(String, String)>)
        ensures
            settings_of(r@) == release_profile_settings(),
    {
        let r = vec![
            (String::from_str("opt-level"), String::from_str("'z'")),
            (String::from_str("lto"), String::from_str("true")),
            (String::from_str("codegen-units"), String::from_str("1")),
            (String::from_str("panic"), String::from_str("'abort'")),
            (String::from_str("strip"), String::from_str("true")),
        ];
        assert(settings_of(r@) =~= release_profile_settings());
        r
    }

    /// Makes the `[profile.release]` section hold the small release build
    /// settings. Returns the text to write back.
    pub fn ensure_release_profile(&mut self) -> (r: String)
        ensures
            final(self)@ == ensured(old(self)@, "[profile.release]"@, release_profile_settings()),
            r@ == rendered(final(self)@),
    {
        let settings = Self::release_settings();
        self.ensure_section_with_settings("[profile.release]", &settings)
    }
}

} // verus!
