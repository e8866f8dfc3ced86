use vstd::prelude::*;
use vstd::string::StrSliceExecFns;
use vstd::string::StringExecFns;

use crate::build_system::starts_with;
use crate::text::{chars_of, doc_of, first_of, slice_eq, split_lines, split_lines_of, trim_bounds, trimmed};

verus! {

/// Why checking or removing dependencies failed.
#[derive(Debug)]
pub enum DepCheckError {
    ToolMissing(String),
    CargoTomlNotFound,
    TomlParseError(String),
    DependencyNotFound(String),
    CommandFailed(String),
}

/// The text that describes an error.
pub open spec fn error_text(e: DepCheckError) -> Seq<char> {
    match e {
        DepCheckError::ToolMissing(m) => "Tool missing: "@ + m@,
        DepCheckError::CargoTomlNotFound => "Cargo.toml file not found"@,
        DepCheckError::TomlParseError(m) => "TOML parse error: "@ + m@,
        DepCheckError::DependencyNotFound(d) => "Dependency not found: "@ + d@,
        DepCheckError::CommandFailed(m) => "Command execution failed: "@ + m@,
    }
}

/// `a` followed by `b`.
fn joined(a: &str, b: &str) -> (r: String)
    ensures
        r@ == a@ + b@,
{
    let mut r = String::from_str(a);
    r.append(b);
    r
}

impl DepCheckError {
    /// The text that describes the error.
    pub fn message(&self) -> (r: String)
        ensures
            r@ == error_text(*self),
    {
        match self {
            DepCheckError::ToolMissing(m) => joined("Tool missing: ", m.as_str()),
            DepCheckError::CargoTomlNotFound => String::from_str("Cargo.toml file not found"),
            DepCheckError::TomlParseError(m) => joined("TOML parse error: ", m.as_str()),
            DepCheckError::DependencyNotFound(d) => joined("Dependency not found: ", d.as_str()),
            DepCheckError::CommandFailed(m) => joined("Command execution failed: ", m.as_str()),
        }
    }
}

/// The manifest table that lists a dependency, and the flag that `cargo remove` needs for it.
pub struct DependencyLocation {
    pub section: String,
    pub flag: Option<String>,
}

/// How removing one dependency went.
pub struct RemovalResult {
    pub success: bool,
    pub message: String,
}

/// The text between the first two quotes that enclose at least one other
/// character, as the pattern `"([^"]+)"` captures it.
pub open spec fn first_quoted(s: Seq<char>) -> Option<Seq<char>>
    decreases s.len(),
{
    let p = first_of(s, '"');
    if p < 0 || p >= s.len() {
        None
    } else {
        let rest = s.subrange(p + 1, s.len() as int);
        let q = first_of(rest, '"');
        if q < 0 || q >= rest.len() {
            None
        } else if q == 0 {
            first_quoted(rest)
        } else {
            Some(rest.subrange(0, q))
        }
    }
}

/// Relies on `regex::Regex::captures` with the pattern `"([^"]+)"`: the
/// leftmost match, whose first group is the text between two quotes.
#[verifier::external_body]
fn quoted_name(line: &str) -> (r: Option<String>)
    ensures
        match r {
            Some(x) => first_quoted(line@) == Some(x@),
            None => first_quoted(line@) is None,
        },
{
    let pattern = regex::Regex::new(r#""([^"]+)""#).unwrap();
    pattern.captures(line).map(|c| c[1].to_string())
}

/// Lexicographic order of texts by character.
pub open spec fn text_le(a: Seq<char>, b: Seq<char>) -> bool
    decreases a.len(),
{
    if a.len() == 0 {
        true
    } else if b.len() == 0 {
        false
    } else if a[0] != b[0] {
        (a[0] as u32) < (b[0] as u32)
    } else {
        text_le(a.drop_first(), b.drop_first())
    }
}

/// Relies on `slice::sort` for `String`: the same strings, ordered by their
/// bytes, which for UTF-8 is the order of their characters.
#[verifier::external_body]
fn sort_strings(v: &mut Vec<String>)
    ensures
        doc_of(final(v)@).to_multiset() == doc_of(old(v)@).to_multiset(),
        forall|i: int, j: int| 0 <= i < j < final(v)@.len() ==> text_le(#[trigger] final(v)@[i]@, #[trigger] final(v)@[j]@),
{
    v.sort();
}

/// Names found while reading report lines, and whether a list of unused
/// dependencies is being read.
pub open spec fn scan_report(ls: Seq<Seq<char>>) -> (Seq<Seq<char>>, bool)
    decreases ls.len(),
{
    if ls.len() == 0 {
        (seq![], false)
    } else {
        let (found, capturing) = scan_report(ls.drop_last());
        let t = trimmed(ls.last());
        if t.len() == 0 {
            (found, false)
        } else if starts_with(t, "unused dependencies:"@) {
            (found, true)
        } else if capturing {
            match first_quoted(t) {
                Some(x) => (found.push(x), true),
                None => (found, true),
            }
        } else {
            (found, false)
        }
    }
}

/// The dependencies that a report of unused dependencies names, in order.
pub fn parse_udeps_output(output: &str) -> (r: Vec<String>)
    ensures
        doc_of(r@).to_multiset() == scan_report(split_lines(output@)).0.to_multiset(),
        forall|i: int, j: int| 0 <= i < j < r@.len() ==> text_le(#[trigger] r@[i]@, #[trigger] r@[j]@),
{
    let lines = split_lines_of(output);
    let ghost ls = split_lines(output@);
    let header = chars_of("unused dependencies:");
    let mut deps: Vec<String> = Vec::new();
    let mut capturing = false;
    let mut i: usize = 0;
    assert(ls.subrange(0, 0) =~= Seq::<Seq<char>>::empty());
    assert(doc_of(deps@) =~= Seq::<Seq<char>>::empty());
    while i < lines.len()
        invariant
            ls == split_lines(output@),
            ls == doc_of(lines@),
            header@ == "unused dependencies:"@,
            i <= lines@.len(),
            scan_report(ls.subrange(0, i as int)) == (doc_of(deps@), capturing),
        decreases lines@.len() - i,
    {
        let line = lines[i].as_str();
        let cs = chars_of(line);
        let (lo, hi) = trim_bounds(&cs, 0, cs.len());
        assert(cs@.subrange(0, cs@.len() as int) =~= cs@);
        let ghost t = trimmed(ls[i as int]);
        assert(ls.subrange(0, i + 1).drop_last() =~= ls.subrange(0, i as int));
        if lo == hi {
            capturing = false;
        } else if hi - lo >= header.len() && slice_eq(&cs, lo, lo + header.len(), &header) {
            assert(t.subrange(0, header@.len() as int) =~= cs@.subrange(lo as int, lo + header@.len()));
            capturing = true;
        } else {
            assert(!starts_with(t, "unused dependencies:"@)) by {
                if hi - lo >= header@.len() {
                    assert(t.subrange(0, header@.len() as int) =~= cs@.subrange(lo as int, lo + header@.len()));
                }
            }
            if capturing {
                let tl = line.substring_char(lo, hi);
                match quoted_name(tl) {
                    Some(x) => {
                        let ghost before = deps@;
                        deps.push(x);
                        assert(doc_of(deps@) =~= doc_of(before).push(x@));
                    },
                    None => {},
                }
            }
        }
        i = i + 1;
    }
    assert(ls.subrange(0, i as int) =~= ls);
    sort_strings(&mut deps);
    deps
}

/// The keys of each dependency table of a manifest; `None` where the manifest has no such table.
pub struct DependencyTables {
    pub dependencies: Option<Vec<String>>,
    pub dev_dependencies: Option<Vec<String>>,
    pub build_dependencies: Option<Vec<String>>,
}

/// Whether a table is there and lists `dep`.
pub open spec fn table_lists(t: Option<Vec<String>>, dep: Seq<char>) -> bool {
    match t {
        Some(keys) => doc_of(keys@).contains(dep),
        None => false,
    }
}

/// Whether the table is there and lists `dep`.
fn lists(t: &Option<Vec<String>>, dep: &str) -> (r: bool)
    ensures
        r == table_lists(*t, dep@),
{
    if t.is_none() {
        return false;
    }
    let keys = t.as_ref().unwrap();
    let dc = chars_of(dep);
    let mut i: usize = 0;
    while i < keys.len()
        invariant
            table_lists(*t, dep@) == doc_of(keys@).contains(dep@),
            dc@ == dep@,
            i <= keys@.len(),
            forall|j: int| 0 <= j < i ==> doc_of(keys@)[j] != dep@,
        decreases keys@.len() - i,
    {
        let kc = chars_of(keys[i].as_str());
        assert(kc@.subrange(0, kc@.len() as int) =~= kc@);
        if slice_eq(&kc, 0, kc.len(), &dc) {
            assert(doc_of(keys@)[i as int] == dep@);
            assert(doc_of(keys@).contains(dep@));
            assert(table_lists(*t, dep@));
            return true;
        }
        i = i + 1;
    }
    false
}

/// The text of an optional flag.
pub open spec fn flag_text(f: Option<String>) -> Option<Seq<char>> {
    match f {
        Some(x) => Some(x@),
        None => None,
    }
}

/// The table that lists `dep` first, of `dependencies`, `dev-dependencies`
/// and `build-dependencies` in that order, with the flag that removing from
/// it takes.
pub open spec fn location_of(tables: DependencyTables, dep: Seq<char>) -> Option<(Seq<char>, Option<Seq<char>>)> {
    if table_lists(tables.dependencies, dep) {
        Some(("dependencies"@, None))
    } else if table_lists(tables.dev_dependencies, dep) {
        Some(("dev-dependencies"@, Some("--dev"@)))
    } else if table_lists(tables.build_dependencies, dep) {
        Some(("build-dependencies"@, Some("--build"@)))
    } else {
        None
    }
}

/// Finds the table that lists `dep`.
pub fn locate_dependency(dep: &str, tables: &DependencyTables) -> (r: Result<DependencyLocation, DepCheckError>)
    ensures
        r is Ok <==> location_of(*tables, dep@) is Some,
        r matches Ok(l) ==> location_of(*tables, dep@) == Some((l.section@, flag_text(l.flag))),
        r matches Err(e) ==> (e matches DepCheckError::DependencyNotFound(d) && d@ == dep@),
{
    if lists(&tables.dependencies, dep) {
        Ok(DependencyLocation { section: String::from_str("dependencies"), flag: None })
    } else if lists(&tables.dev_dependencies, dep) {
        Ok(DependencyLocation { section: String::from_str("dev-dependencies"), flag: Some(String::from_str("--dev")) })
    } else if lists(&tables.build_dependencies, dep) {
        Ok(DependencyLocation { section: String::from_str("build-dependencies"), flag: Some(String::from_str("--build")) })
    } else {
        Err(DepCheckError::DependencyNotFound(String::from_str(dep)))
    }
}


/// How removing `dep` from the table `section` went, given what `cargo remove` reported.
pub open spec fn removal_outcome(dep: Seq<char>, section: Seq<char>, outcome: Result<(), Seq<char>>) -> (bool, Seq<char>) {
    match outcome {
        Ok(_) => (true, "Removed "@ + dep + " ("@ + section + ")"@),
        Err(e) => (false, "Failed to remove "@ + dep + ": "@ + e),
    }
}

/// The result for `dep`, listed in `location`, once `cargo remove` reported `outcome`.
pub fn remove_dependency(dep: &str, location: &DependencyLocation, outcome: &Result<(), String>) -> (r: RemovalResult)
    ensures
        (r.success, r.message@) == removal_outcome(
            dep@,
            location.section@,
            match outcome {
                Ok(_) => Ok(()),
                Err(e) => Err(e@),
            },
        ),
{
    match outcome {
        Ok(_) => {
            let mut m = joined("Removed ", dep);
            m.append(" (");
            m.append(location.section.as_str());
            m.append(")");
            RemovalResult { success: true, message: m }
        },
        Err(e) => {
            let mut m = joined("Failed to remove ", dep);
            m.append(": ");
            m.append(e.as_str());
            RemovalResult { success: false, message: m }
        },
    }
}

/// The result for `dep` when the manifest's tables are `tables` and `cargo
/// remove`, where it ran, reported `outcome`.
pub open spec fn dep_result(dep: Seq<char>, tables: DependencyTables, outcome: Result<(), Seq<char>>) -> (bool, Seq<char>) {
    match location_of(tables, dep) {
        Some((section, _)) => removal_outcome(dep, section, outcome),
        None => (false, "Failed to locate dependency: "@ + "Dependency not found: "@ + dep),
    }
}

/// The text of an outcome.
pub open spec fn outcome_text(o: Result<(), String>) -> Result<(), Seq<char>> {
    match o {
        Ok(_) => Ok(()),
        Err(e) => Err(e@),
    }
}

/// The results of removing `deps`, one for each: `tables` is what reading
/// the manifest gave, and `outcomes[i]` what `cargo remove` reported for
/// `deps[i]` where it ran. When the manifest could not be read there is one
/// failed result that says why.
pub fn process_removals(
    deps: &Vec<String>,
    tables: &Result<DependencyTables, DepCheckError>,
    outcomes: &Vec<Result<(), String>>,
) -> (r: Vec<RemovalResult>)
    requires
        outcomes@.len() == deps@.len(),
    ensures
        *tables matches Err(e) ==> r@.len() == 1 && !r@[0].success && r@[0].message@ == (if e is CargoTomlNotFound {
            "Failed to load Cargo.toml: "@
        } else {
            "Failed to parse Cargo.toml: "@
        }) + error_text(e),
        *tables matches Ok(t) ==> r@.len() == deps@.len() && forall|i: int| 0 <= i < deps@.len() ==> (#[trigger] r@[i].success, r@[i].message@)
            == dep_result(deps@[i]@, t, outcome_text(outcomes@[i])),
{
    match tables {
        Err(e) => {
            let prefix = match e {
                DepCheckError::CargoTomlNotFound => "Failed to load Cargo.toml: ",
                _ => "Failed to parse Cargo.toml: ",
            };
            let em = e.message();
            let m = joined(prefix, em.as_str());
            let mut r: Vec<RemovalResult> = Vec::new();
            r.push(RemovalResult { success: false, message: m });
            r
        },
        Ok(t) => {
            let mut r: Vec<RemovalResult> = Vec::new();
            let mut i: usize = 0;
            while i < deps.len()
                invariant
                    *tables == Ok::<DependencyTables, DepCheckError>(*t),
                    outcomes@.len() == deps@.len(),
                    i <= deps@.len(),
                    r@.len() == i,
                    forall|k: int| 0 <= k < i ==> (#[trigger] r@[k].success, r@[k].message@) == dep_result(
                        deps@[k]@,
                        *t,
                        outcome_text(outcomes@[k]),
                    ),
                decreases deps@.len() - i,
            {
                let dep = deps[i].as_str();
                let res = match locate_dependency(dep, t) {
                    Ok(location) => remove_dependency(dep, &location, &outcomes[i]),
                    Err(e) => {
                        let em = e.message();
                        RemovalResult { success: false, message: joined("Failed to locate dependency: ", em.as_str()) }
                    },
                };
                r.push(res);
                i = i + 1;
            }
            r
        },
    }
}


#[verifier::external_type_specification]
#[verifier::external_body]
pub struct ExTomlValue(toml::Value);

/// Relies on toml's `FromStr` for `toml::Value`: reads a TOML document, or
/// gives the parser's message.
#[verifier::external_body]
fn toml_from_str(content: &str) -> (r: Result<toml::Value, String>) {
    content.parse::<toml::Value>().map_err(|e| e.to_string())
}

/// Relies on `toml::Value::get` and `toml::Value::as_table`: the keys of the
/// table `section` of `doc`, if it has such a table.
#[verifier::external_body]
fn table_keys(doc: &toml::Value, section: &str) -> (r: Option<Vec<String>>) {
    match doc.get(section) {
        None => None,
        Some(t) => match t.as_table() {
            None => None,
            Some(table) => Some(table.keys().cloned().collect()),
        },
    }
}

/// Reads the manifest text as a TOML document.
pub fn parse_cargo_toml(content: &str) -> (r: Result<toml::Value, DepCheckError>)
    ensures
        r matches Err(e) ==> e is TomlParseError,
{
    match toml_from_str(content) {
        Ok(v) => Ok(v),
        Err(m) => Err(DepCheckError::TomlParseError(m)),
    }
}

/// The keys of the dependency tables of a manifest.
pub fn dependency_tables(doc: &toml::Value) -> (r: DependencyTables) {
    DependencyTables {
        dependencies: table_keys(doc, "dependencies"),
        dev_dependencies: table_keys(doc, "dev-dependencies"),
        build_dependencies: table_keys(doc, "build-dependencies"),
    }
}

} // verus!
