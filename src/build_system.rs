use vstd::prelude::*;
use vstd::string::StrSliceExecFns;
use vstd::string::StringExecFns;

use crate::text::{
    chars_of, find_char, first_of, lemma_first_of, lemma_first_of_props, slice_eq, split_lines, split_lines_of, trim_bounds,
    trimmed,
};

verus! {

/// One step of a release build.
#[derive(Debug, Clone, Copy, PartialEq, Eq, Structural)]
pub enum Step {
    /// Read the manifest.
    Open,
    /// Write the manifest with the release profile.
    Patch,
    /// Remove earlier build output.
    Clean,
    /// Build the executable.
    Build,
    /// Shrink the executable.
    Compress,
    /// Report the executable's size.
    ShowResult,
    /// Write the manifest back as it was read.
    Restore,
}

/// The steps of a release build, in order.
pub open spec fn plan_of(clean: bool, use_upx: bool) -> Seq<Step> {
    seq![Step::Open, Step::Patch] + (if clean { seq![Step::Clean] } else { seq![] }) + seq![Step::Build]
        + (if use_upx { seq![Step::Compress] } else { seq![] }) + seq![Step::ShowResult, Step::Restore]
}

/// Where a release build stands.
pub struct WorkflowState {
    pub plan: Seq<Step>,
    pub pos: int,
    pub failure: Option<Seq<char>>,
    pub finished: bool,
}

/// A well formed state: the plan opens the manifest first and restores it
/// last, and the position lies in the plan.
pub open spec fn workflow_wf(w: WorkflowState) -> bool {
    &&& w.plan.len() >= 2
    &&& w.plan[0] == Step::Open
    &&& w.plan.last() == Step::Restore
    &&& forall|i: int| 0 < i < w.plan.len() - 1 ==> #[trigger] w.plan[i] != Step::Restore && w.plan[i] != Step::Open
    &&& 0 <= w.pos < w.plan.len()
}

/// The step to run next, if any.
pub open spec fn current_step(w: WorkflowState) -> Option<Step> {
    if w.finished {
        None
    } else {
        Some(w.plan[w.pos])
    }
}

/// The state after the current step ended with `outcome`.
///
/// A failed opening ends the build: nothing was changed. Any other failure
/// goes straight to restoring the manifest and is kept; the build then ends
/// with the first failure, or with the restoring's own failure if there was
/// none before.
pub open spec fn advanced(w: WorkflowState, outcome: Result<(), Seq<char>>) -> WorkflowState {
    let step = w.plan[w.pos];
    if w.finished {
        w
    } else if step == Step::Restore {
        WorkflowState {
            finished: true,
            failure: if w.failure is Some {
                w.failure
            } else {
                match outcome {
                    Ok(_) => None,
                    Err(e) => Some(e),
                }
            },
            ..w
        }
    } else {
        match outcome {
            Ok(_) => WorkflowState { pos: w.pos + 1, ..w },
            Err(e) => if step == Step::Open {
                WorkflowState { finished: true, failure: Some(e), ..w }
            } else {
                WorkflowState { pos: w.plan.len() - 1, failure: Some(e), ..w }
            },
        }
    }
}

/// The steps of a release build and how far it has gone.
pub struct Workflow {
    plan: Vec<Step>,
    pos: usize,
    failure: Option<String>,
    finished: bool,
}

impl View for Workflow {
    type V = WorkflowState;

    closed spec fn view(&self) -> WorkflowState {
        WorkflowState {
            plan: self.plan@,
            pos: self.pos as int,
            failure: match self.failure {
                Some(s) => Some(s@),
                None => None,
            },
            finished: self.finished,
        }
    }
}

impl Workflow {
    /// A build that has not started, with the steps that `clean` and `use_upx` ask for.
    pub fn new(clean: bool, use_upx: bool) -> (r: Self)
        ensures
            r@.plan == plan_of(clean, use_upx),
            r@.pos == 0,
            r@.failure is None,
            !r@.finished,
            workflow_wf(r@),
    {
        let mut plan: Vec<Step> = Vec::new();
        plan.push(Step::Open);
        plan.push(Step::Patch);
        if clean {
            plan.push(Step::Clean);
        }
        plan.push(Step::Build);
        if use_upx {
            plan.push(Step::Compress);
        }
        plan.push(Step::ShowResult);
        plan.push(Step::Restore);
        assert(plan@ =~= plan_of(clean, use_upx));
        Workflow { plan, pos: 0, failure: None, finished: false }
    }

    /// The step to run next; `None` once the build has ended.
    pub fn current(&self) -> (r: Option<Step>)
        requires
            workflow_wf(self@),
        ensures
            r == current_step(self@),
    {
        if self.finished {
            None
        } else {
            Some(self.plan[self.pos])
        }
    }

    /// The failure that the build ends with, if any.
    pub fn failure(&self) -> (r: Option<String>)
        ensures
            r is Some <==> self@.failure is Some,
            r is Some ==> self@.failure == Some(r->0@),
    {
        self.failure.clone()
    }

    /// Whether the build has ended.
    pub fn is_finished(&self) -> (r: bool)
        ensures
            r == self@.finished,
    {
        self.finished
    }

    /// Records how the current step ended and moves on.
    pub fn advance(&mut self, outcome: Result<(), String>)
        requires
            workflow_wf(old(self)@),
        ensures
            workflow_wf(final(self)@),
            final(self)@ == advanced(
                old(self)@,
                match outcome {
                    Ok(_) => Ok(()),
                    Err(e) => Err(e@),
                },
            ),
    {
        if self.finished {
            return;
        }
        let n = self.plan.len();
        let step = self.plan[self.pos];
        if step == Step::Restore {
            self.finished = true;
            if self.failure.is_none() {
                match outcome {
                    Ok(_) => {},
                    Err(e) => {
                        self.failure = Some(e);
                    },
                }
            }
        } else {
            match outcome {
                Ok(_) => {
                    self.pos = self.pos + 1;
                },
                Err(e) => {
                    self.failure = Some(e);
                    if step == Step::Open {
                        self.finished = true;
                    } else {
                        self.pos = self.plan.len() - 1;
                    }
                },
            }
        }
    }
}

/// A failure once the manifest is open is never the last word: restoring
/// comes next, and the failure is kept to the end.
pub proof fn law_restore_after_failure(w: WorkflowState, e: Seq<char>)
    requires
        workflow_wf(w),
        !w.finished,
        w.plan[w.pos] != Step::Open,
        w.plan[w.pos] != Step::Restore,
    ensures
        current_step(advanced(w, Err(e))) == Some(Step::Restore),
        advanced(w, Err(e)).failure == Some(e),
        advanced(advanced(w, Err(e)), Ok(())).finished,
        advanced(advanced(w, Err(e)), Ok(())).failure == Some(e),
{
}

/// The build ends only when restoring has been run, or when opening the
/// manifest failed and there is nothing to restore.
pub proof fn law_ends_only_after_restore(w: WorkflowState, outcome: Result<(), Seq<char>>)
    requires
        workflow_wf(w),
        !w.finished,
    ensures
        advanced(w, outcome).finished ==> w.plan[w.pos] == Step::Restore || (w.plan[w.pos] == Step::Open
            && outcome is Err),
{
}


/// Whether `s` opens with `p`.
pub open spec fn starts_with(s: Seq<char>, p: Seq<char>) -> bool {
    p.len() <= s.len() && s.subrange(0, p.len() as int) == p
}

/// Whether `p` stands somewhere in `s`.
pub open spec fn contains_seq(s: Seq<char>, p: Seq<char>) -> bool {
    exists|i: int| 0 <= i && i + p.len() <= s.len() && #[trigger] s.subrange(i, i + p.len()) == p
}

/// A line that names the project: its trimmed text opens with `name = `.
pub open spec fn is_name_line(l: Seq<char>) -> bool {
    starts_with(trimmed(l), "name = "@)
}

/// Index of the first line at or after `i` that names the project, or the number of lines.
pub open spec fn name_line_from(ls: Seq<Seq<char>>, i: int) -> int
    decreases ls.len() - i,
{
    if i >= ls.len() {
        ls.len() as int
    } else if is_name_line(ls[i]) {
        i
    } else {
        name_line_from(ls, i + 1)
    }
}

/// The text between the first and the second `=` of `l` (or its end).
pub open spec fn value_part(l: Seq<char>) -> Seq<char> {
    let rest = l.subrange(first_of(l, '=') + 1, l.len() as int);
    rest.subrange(0, first_of(rest, '='))
}

/// `s` without its leading quotes.
pub open spec fn unquote_start(s: Seq<char>) -> Seq<char>
    decreases s.len(),
{
    if s.len() > 0 && s[0] == '"' {
        unquote_start(s.drop_first())
    } else {
        s
    }
}

/// `s` without its trailing quotes.
pub open spec fn unquote_end(s: Seq<char>) -> Seq<char>
    decreases s.len(),
{
    if s.len() > 0 && s.last() == '"' {
        unquote_end(s.drop_last())
    } else {
        s
    }
}

/// The project's name in a manifest: from the first line that names the
/// project, the trimmed text after its `=`, without the quotes around it.
pub open spec fn project_name_of(manifest: Seq<char>) -> Option<Seq<char>> {
    let ls = split_lines(manifest);
    let i = name_line_from(ls, 0);
    if 0 <= i < ls.len() {
        Some(unquote_end(unquote_start(trimmed(value_part(ls[i])))))
    } else {
        None
    }
}

proof fn lemma_unquote_start(s: Seq<char>, lo: int)
    requires
        0 <= lo <= s.len(),
        forall|k: int| 0 <= k < lo ==> #[trigger] s[k] == '"',
        lo == s.len() || s[lo] != '"',
    ensures
        unquote_start(s) == s.subrange(lo, s.len() as int),
    decreases lo,
{
    if lo == 0 {
        assert(s.subrange(0, s.len() as int) =~= s);
    } else {
        let t = s.drop_first();
        assert forall|k: int| 0 <= k < lo - 1 implies #[trigger] t[k] == '"' by {
            assert(t[k] == s[k + 1]);
        }
        lemma_unquote_start(t, lo - 1);
        assert(t.subrange(lo - 1, t.len() as int) =~= s.subrange(lo, s.len() as int));
    }
}

proof fn lemma_unquote_end(s: Seq<char>, hi: int)
    requires
        0 <= hi <= s.len(),
        forall|k: int| hi <= k < s.len() ==> #[trigger] s[k] == '"',
        hi == 0 || s[hi - 1] != '"',
    ensures
        unquote_end(s) == s.subrange(0, hi),
    decreases s.len() - hi,
{
    if hi == s.len() {
        assert(s.subrange(0, hi) =~= s);
    } else {
        let t = s.drop_last();
        assert forall|k: int| hi <= k < t.len() implies #[trigger] t[k] == '"' by {
            assert(t[k] == s[k]);
        }
        lemma_unquote_end(t, hi);
        assert(t.subrange(0, hi) =~= s.subrange(0, hi));
    }
}

/// Index of the first `c` in `cs[from..]`, counted from the start of `cs`.
fn find_char_from(cs: &Vec<char>, from: usize, c: char) -> (r: usize)
    requires
        from <= cs@.len(),
    ensures
        r == from + first_of(cs@.subrange(from as int, cs@.len() as int), c),
        from <= r <= cs@.len(),
{
    let ghost t = cs@.subrange(from as int, cs@.len() as int);
    let mut i: usize = from;
    while i < cs.len() && cs[i] != c
        invariant
            from <= i <= cs@.len(),
            t == cs@.subrange(from as int, cs@.len() as int),
            forall|k: int| from <= k < i ==> cs@[k] != c,
        decreases cs@.len() - i,
    {
        i = i + 1;
    }
    proof {
        assert forall|k: int| 0 <= k < i - from implies t[k] != c by {
            assert(t[k] == cs@[from + k]);
        }
        lemma_first_of(t, c, i - from);
    }
    i
}

/// The project's name in the manifest text, if a line names it.
pub fn parse_project_name(manifest: &str) -> (r: Option<String>)
    ensures
        match r {
            Some(n) => project_name_of(manifest@) == Some(n@),
            None => project_name_of(manifest@) is None,
        },
{
    let lines = split_lines_of(manifest);
    let ghost ls = split_lines(manifest@);
    let prefix = chars_of("name = ");
    let mut i: usize = 0;
    while i < lines.len()
        invariant
            ls == split_lines(manifest@),
            ls == lines@.map_values(|l: String| l@),
            prefix@ == "name = "@,
            i <= lines@.len(),
            name_line_from(ls, 0) == name_line_from(ls, i as int),
        decreases lines@.len() - i,
    {
        let line = lines[i].as_str();
        let cs = chars_of(line);
        assert(ls[i as int] == cs@);
        let (lo, hi) = trim_bounds(&cs, 0, cs.len());
        assert(cs@.subrange(0, cs@.len() as int) =~= cs@);
        let ghost tl = trimmed(cs@);
        if hi - lo >= prefix.len() && slice_eq(&cs, lo, lo + prefix.len(), &prefix) {
            assert(tl.subrange(0, prefix@.len() as int) =~= cs@.subrange(lo as int, lo + prefix@.len()));
            assert(is_name_line(cs@));
            let eq = find_char(&cs, '=');
            proof {
                reveal_strlit("name = ");
                assert(prefix@[5] == '=');
                assert(tl.subrange(0, prefix@.len() as int)[5] == tl[5]);
                assert(cs@[lo + 5] == '=');
                lemma_first_of_props(cs@, '=');
            }
            let ghost rest = cs@.subrange(eq + 1, cs@.len() as int);
            let end = find_char_from(&cs, eq + 1, '=');
            assert(rest.subrange(0, end - eq - 1) =~= cs@.subrange(eq + 1, end as int));
            let (vlo, vhi) = trim_bounds(&cs, eq + 1, end);
            let ghost v = cs@.subrange(vlo as int, vhi as int);
            let mut qlo: usize = vlo;
            while qlo < vhi && cs[qlo] == '"'
                invariant
                    vlo <= qlo <= vhi <= cs@.len(),
                    v == cs@.subrange(vlo as int, vhi as int),
                    forall|k: int| 0 <= k < qlo - vlo ==> #[trigger] v[k] == '"',
                decreases vhi - qlo,
            {
                qlo = qlo + 1;
            }
            proof {
                lemma_unquote_start(v, qlo - vlo);
            }
            let ghost u = v.subrange(qlo - vlo, v.len() as int);
            assert(u =~= cs@.subrange(qlo as int, vhi as int));
            let mut qhi: usize = vhi;
            while qhi > qlo && cs[qhi - 1] == '"'
                invariant
                    qlo <= qhi <= vhi <= cs@.len(),
                    u == cs@.subrange(qlo as int, vhi as int),
                    forall|k: int| qhi - qlo <= k < u.len() ==> #[trigger] u[k] == '"',
                decreases qhi - qlo,
            {
                qhi = qhi - 1;
            }
            proof {
                lemma_unquote_end(u, qhi - qlo);
                assert(u.subrange(0, qhi - qlo) =~= cs@.subrange(qlo as int, qhi as int));
                lemma_name_line_at(ls, i as int);
            }
            let name = String::from_str(line.substring_char(qlo, qhi));
            return Some(name);
        }
        assert(!is_name_line(ls[i as int])) by {
            if hi - lo >= prefix@.len() {
                assert(tl.subrange(0, prefix@.len() as int) =~= cs@.subrange(lo as int, lo + prefix@.len()));
            }
        }
        i = i + 1;
    }
    None
}

proof fn lemma_name_line_at(ls: Seq<Seq<char>>, i: int)
    requires
        0 <= i < ls.len(),
        is_name_line(ls[i]),
        name_line_from(ls, 0) == name_line_from(ls, i),
    ensures
        name_line_from(ls, 0) == i,
{
}

/// Whether `p` stands somewhere in `s`.
pub fn contains_text(s: &str, p: &str) -> (r: bool)
    ensures
        r == contains_seq(s@, p@),
{
    let sc = chars_of(s);
    let pc = chars_of(p);
    if pc.len() > sc.len() {
        return false;
    }
    let n = sc.len();
    let last = n - pc.len();
    let mut i: usize = 0;
    loop
        invariant
            n == sc@.len(),
            pc@.len() <= n,
            sc@ == s@,
            pc@ == p@,
            last == sc@.len() - pc@.len(),
            i <= last,
            forall|k: int| 0 <= k < i ==> #[trigger] sc@.subrange(k, k + pc@.len()) != pc@,
        decreases last - i,
    {
        if slice_eq(&sc, i, i + pc.len(), &pc) {
            assert(sc@.subrange(i as int, i + pc@.len()) == pc@);
            return true;
        }
        if i == last {
            assert forall|k: int| 0 <= k && k + p@.len() <= s@.len() implies #[trigger] s@.subrange(k, k + p@.len()) != p@ by {
                assert(k <= last);
            }
            return false;
        }
        i = i + 1;
    }
}

/// The file name of the built executable: the project's name, then `.efi`
/// for a UEFI target, else the platform's executable suffix.
pub fn get_executable_path(project_name: &str, target: &str, exe_suffix: &str) -> (r: String)
    ensures
        r@ == project_name@ + (if contains_seq(target@, "uefi"@) {
            ".efi"@
        } else {
            exe_suffix@
        }),
{
    let mut r = String::from_str(project_name);
    if contains_text(target, "uefi") {
        r.append(".efi");
    } else {
        r.append(exe_suffix);
    }
    r
}


/// What a release build is asked to do.
pub struct BuildSettings {
    pub target: Seq<char>,
    pub use_upx: bool,
    pub clean: bool,
    pub executable: Seq<char>,
}

/// A release build of one project for one target.
pub struct BuildSystem {
    target: String,
    use_upx: bool,
    clean: bool,
    executable: String,
}

impl View for BuildSystem {
    type V = BuildSettings;

    closed spec fn view(&self) -> BuildSettings {
        BuildSettings {
            target: self.target@,
            use_upx: self.use_upx,
            clean: self.clean,
            executable: self.executable@,
        }
    }
}

impl BuildSystem {
    /// A build for `target` of the project whose manifest text is `manifest`;
    /// fails when no line of the manifest names the project.
    pub fn new(target: &str, use_upx: bool, clean: bool, manifest: &str, exe_suffix: &str) -> (r: Result<
        Self,
        String,
    >)
        ensures
            r is Ok <==> project_name_of(manifest@) is Some,
            r is Ok ==> r->Ok_0@ == (BuildSettings {
                target: target@,
                use_upx,
                clean,
                executable: project_name_of(manifest@)->0 + (if contains_seq(target@, "uefi"@) {
                    ".efi"@
                } else {
                    exe_suffix@
                }),
            }),
            r is Err ==> r->Err_0@ == "Failed to find project name in Cargo.toml"@,
    {
        match parse_project_name(manifest) {
            Some(name) => {
                let executable = get_executable_path(name.as_str(), target, exe_suffix);
                Ok(BuildSystem { target: String::from_str(target), use_upx, clean, executable })
            },
            None => Err(String::from_str("Failed to find project name in Cargo.toml")),
        }
    }

    /// The steps of this build, from opening the manifest to restoring it.
    pub fn run(&self) -> (r: Workflow)
        ensures
            r@.plan == plan_of(self@.clean, self@.use_upx),
            r@.pos == 0,
            r@.failure is None,
            !r@.finished,
            workflow_wf(r@),
    {
        Workflow::new(self.clean, self.use_upx)
    }

    /// The target platform.
    pub fn target(&self) -> (r: &str)
        ensures
            r@ == self@.target,
    {
        self.target.as_str()
    }

    /// The file name of the executable that the build makes.
    pub fn executable(&self) -> (r: &str)
        ensures
            r@ == self@.executable,
    {
        self.executable.as_str()
    }

    /// Whether the executable is shrunk after the build.
    pub fn use_upx(&self) -> (r: bool)
        ensures
            r == self@.use_upx,
    {
        self.use_upx
    }

    /// Whether earlier build output is removed first.
    pub fn clean(&self) -> (r: bool)
        ensures
            r == self@.clean,
    {
        self.clean
    }
}


#[verifier::external_type_specification]
#[verifier::external_body]
pub struct ExJsonValue(serde_json::Value);

#[verifier::external_type_specification]
#[verifier::external_body]
pub struct ExJsonError(serde_json::Error);

/// Relies on `serde_json::from_slice`: reads one JSON document from bytes,
/// or says why they hold none.
#[verifier::external_body]
fn json_from_slice(bytes: &[u8]) -> (r: Result<serde_json::Value, serde_json::Error>) {
    serde_json::from_slice(bytes)
}

/// Relies on `serde_json::Value::pointer`: the value at a JSON pointer; the
/// empty pointer names the whole value.
pub assume_specification<'a>[ serde_json::Value::pointer ](v: &'a serde_json::Value, pointer: &str) -> (r: Option<
    &'a serde_json::Value,
>)
    ensures
        pointer@.len() == 0 ==> r == Some(v),
;

/// Relies on `serde_json::Value::as_str`: the text of a JSON string.
pub assume_specification[ serde_json::Value::as_str ](v: &serde_json::Value) -> (r: Option<&str>);

/// Why the build output directory is not known.
pub enum TargetDirError {
    /// The metadata are not JSON.
    Json(serde_json::Error),
    /// The metadata hold no `target_directory` text.
    Missing,
}

/// The build output directory that `cargo metadata` reports in `metadata`.
pub fn get_target_directory(metadata: &[u8]) -> (r: Result<String, TargetDirError>) {
    match json_from_slice(metadata) {
        Err(e) => Err(TargetDirError::Json(e)),
        Ok(v) => match v.pointer("/target_directory") {
            None => Err(TargetDirError::Missing),
            Some(field) => match field.as_str() {
                None => Err(TargetDirError::Missing),
                Some(dir) => Ok(String::from_str(dir)),
            },
        },
    }
}

} // verus!
