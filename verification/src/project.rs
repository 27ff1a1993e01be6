//! Compilation of a project: which file is parsed or compiled next.
//!
//! A file is compiled after the files that it imports, and once, also where
//! imports form a cycle. The walk decides what to do; reading files, finding
//! where imports point and generating code is up to the caller, who reports
//! back.

use vstd::prelude::*;

use crate::engine::{BlincDsl, CompiledModuleV};
use crate::queries::{module_names, recorded_module_is_found, without_module};
use crate::text::{names_view, opt_text, same};

verus! {

/// A file that is being visited.
#[derive(Debug, PartialEq, Eq)]
pub struct Visit {
    pub path: String,
    /// The files that its imports point to, in order, once it is parsed. An
    /// import that points to no file has none.
    pub targets: Option<Vec<Option<String>>>,
    /// How many of them were looked at.
    pub next: usize,
}

/// View of [`Visit`].
pub struct VisitV {
    pub path: Seq<char>,
    pub targets: Option<Seq<Option<Seq<char>>>>,
    pub next: usize,
}

/// The paths of optional files.
pub open spec fn targets_view(s: Seq<Option<String>>) -> Seq<Option<Seq<char>>> {
    Seq::new(s.len(), |i: int| opt_text(s[i]))
}

impl View for Visit {
    type V = VisitV;

    open spec fn view(&self) -> VisitV {
        VisitV {
            path: self.path@,
            targets: match self.targets {
                Some(v) => Some(targets_view(v@)),
                None => None,
            },
            next: self.next,
        }
    }
}

/// A walk through the files of a project.
#[derive(Debug, PartialEq, Eq)]
pub struct ProjectWalk {
    /// The files that are being visited. Each but the last waits for the next.
    pub visits: Vec<Visit>,
    /// The functions that the files were compiled to, in order.
    pub names: Vec<String>,
}

/// View of [`ProjectWalk`].
pub struct ProjectWalkV {
    pub visits: Seq<VisitV>,
    pub names: Seq<Seq<char>>,
}

pub open spec fn visits_view(s: Seq<Visit>) -> Seq<VisitV> {
    Seq::new(s.len(), |i: int| s[i]@)
}

impl View for ProjectWalk {
    type V = ProjectWalkV;

    open spec fn view(&self) -> ProjectWalkV {
        ProjectWalkV { visits: visits_view(self.visits@), names: names_view(self.names@) }
    }
}

/// What is to be done next.
#[derive(Debug, PartialEq, Eq)]
pub enum ProjectStep {
    /// Parse this file and report where its imports point.
    Parse(String),
    /// Compile this file and report its functions.
    Compile(String),
    /// Nothing: the project is compiled.
    Finished,
}

/// View of [`ProjectStep`].
pub enum ProjectStepV {
    Parse(Seq<char>),
    Compile(Seq<char>),
    Finished,
}

impl View for ProjectStep {
    type V = ProjectStepV;

    open spec fn view(&self) -> ProjectStepV {
        match *self {
            ProjectStep::Parse(path) => ProjectStepV::Parse(path@),
            ProjectStep::Compile(path) => ProjectStepV::Compile(path@),
            ProjectStep::Finished => ProjectStepV::Finished,
        }
    }
}

/// Whether a file is compiled.
pub open spec fn is_compiled(modules: Seq<CompiledModuleV>, path: Seq<char>) -> bool {
    module_names(modules, path) is Some
}

/// Whether a file is being visited.
pub open spec fn is_visited(visits: Seq<VisitV>, path: Seq<char>) -> bool {
    exists|k: int| 0 <= k < visits.len() && (#[trigger] visits[k]).path == path
}

/// Whether an import points to a file that is yet to be visited: it is not
/// compiled and not being visited. A file that is being visited is imported in
/// a cycle and is compiled later.
pub open spec fn is_open(
    modules: Seq<CompiledModuleV>,
    visits: Seq<VisitV>,
    target: Option<Seq<char>>,
) -> bool {
    target is Some && !is_compiled(modules, target->0) && !is_visited(visits, target->0)
}

/// The first import from `from` on that is open.
pub open spec fn first_open(
    modules: Seq<CompiledModuleV>,
    visits: Seq<VisitV>,
    targets: Seq<Option<Seq<char>>>,
    from: int,
) -> Option<int>
    decreases targets.len() - from,
{
    if from < 0 || from >= targets.len() {
        None
    } else if is_open(modules, visits, targets[from]) {
        Some(from)
    } else {
        first_open(modules, visits, targets, from + 1)
    }
}

/// A file that was not parsed yet.
pub open spec fn unvisited(path: Seq<char>) -> VisitV {
    VisitV { path, targets: None, next: 0 }
}

/// A walk that starts at a file.
pub open spec fn walk_from(path: Seq<char>) -> ProjectWalkV {
    ProjectWalkV { visits: seq![unvisited(path)], names: seq![] }
}

/// A walk after the last visit was replaced.
pub open spec fn with_last(w: ProjectWalkV, v: VisitV) -> ProjectWalkV {
    ProjectWalkV { visits: w.visits.drop_last().push(v), ..w }
}

/// What is to be done next, and the walk after that was decided.
pub open spec fn stepped(modules: Seq<CompiledModuleV>, w: ProjectWalkV) -> (
    ProjectWalkV,
    ProjectStepV,
) {
    if w.visits.len() == 0 {
        (w, ProjectStepV::Finished)
    } else {
        let v = w.visits.last();
        match v.targets {
            None => (w, ProjectStepV::Parse(v.path)),
            Some(targets) => match first_open(modules, w.visits, targets, v.next as int) {
                Some(i) => {
                    let waiting = with_last(w, VisitV { next: (i + 1) as usize, ..v });
                    (
                        ProjectWalkV {
                            visits: waiting.visits.push(unvisited(targets[i]->0)),
                            ..waiting
                        },
                        ProjectStepV::Parse(targets[i]->0),
                    )
                },
                None => (
                    with_last(w, VisitV { next: targets.len() as usize, ..v }),
                    ProjectStepV::Compile(v.path),
                ),
            },
        }
    }
}

/// The walk after the last file was parsed.
pub open spec fn after_parse(w: ProjectWalkV, targets: Seq<Option<Seq<char>>>) -> ProjectWalkV {
    with_last(w, VisitV { targets: Some(targets), next: 0, ..w.visits.last() })
}

/// The walk after the last file was compiled.
pub open spec fn after_compile(w: ProjectWalkV, names: Seq<Seq<char>>) -> ProjectWalkV {
    ProjectWalkV { visits: w.visits.drop_last(), names: w.names + names }
}

impl ProjectWalk {
    /// Start at a file.
    pub fn new(entry: &String) -> (w: ProjectWalk)
        ensures
            w@ == walk_from(entry@),
    {
        let mut visits: Vec<Visit> = Vec::new();
        visits.push(Visit { path: entry.clone(), targets: None, next: 0 });
        let w = ProjectWalk { visits, names: Vec::new() };
        assert(w@.visits =~= walk_from(entry@).visits);
        assert(w@.names =~= walk_from(entry@).names);
        w
    }

    /// Report where the imports of the file point that was to be parsed.
    pub fn parsed(&mut self, targets: Vec<Option<String>>)
        requires
            old(self)@.visits.len() > 0,
        ensures
            final(self)@ == after_parse(old(self)@, targets_view(targets@)),
    {
        let ghost before = self@;
        match self.visits.pop() {
            Some(v) => {
                let Visit { path, targets: _, next: _ } = v;
                self.visits.push(Visit { path, targets: Some(targets), next: 0 });
            },
            None => {},
        }
        assert(self@.visits =~= after_parse(before, targets_view(targets@)).visits);
    }

    /// Report the functions of the file that was to be compiled.
    pub fn compiled(&mut self, names: Vec<String>)
        requires
            old(self)@.visits.len() > 0,
        ensures
            final(self)@ == after_compile(old(self)@, names_view(names@)),
    {
        let ghost before = self@;
        let ghost added = names_view(names@);
        let _visit = self.visits.pop();
        let mut names = names;
        self.names.append(&mut names);
        assert(self@.visits =~= before.visits.drop_last());
        assert(self@.names =~= before.names + added);
    }
}

impl BlincDsl {
    /// Whether a file was compiled.
    pub fn has_module(&self, path: &String) -> (r: bool)
        ensures
            r == is_compiled(self@.compiled_modules, path@),
    {
        self.compiled_function_names(path).is_some()
    }

    fn find_open(&self, visits: &Vec<Visit>, targets: &Vec<Option<String>>, from: usize) -> (r:
        Option<usize>)
        ensures
            match r {
                Some(i) => i < targets@.len() && first_open(
                    self@.compiled_modules,
                    visits_view(visits@),
                    targets_view(targets@),
                    from as int,
                ) == Some(i as int),
                None => first_open(
                    self@.compiled_modules,
                    visits_view(visits@),
                    targets_view(targets@),
                    from as int,
                ) is None,
            },
    {
        let ghost all = targets_view(targets@);
        let ghost modules = self@.compiled_modules;
        let ghost visited = visits_view(visits@);
        let mut i: usize = from;
        while i < targets.len()
            invariant
                from <= i,
                i <= targets@.len() || i == from,
                all == targets_view(targets@),
                modules == self@.compiled_modules,
                visited == visits_view(visits@),
                first_open(modules, visited, all, from as int) == first_open(
                    modules,
                    visited,
                    all,
                    i as int,
                ),
            decreases targets@.len() - i,
        {
            assert(all[i as int] == opt_text(targets@[i as int]));
            match &targets[i] {
                Some(path) => {
                    if !self.has_module(path) && !visits_path(visits, path) {
                        return Some(i);
                    }
                },
                None => {},
            }
            i = i + 1;
        }
        None
    }

    /// Decide what is to be done next for a project.
    pub fn next_project_step(&self, walk: &mut ProjectWalk) -> (step: ProjectStep)
        ensures
            (final(walk)@, step@) == stepped(self@.compiled_modules, old(walk)@),
    {
        let ghost before = walk@;
        let depth: usize = walk.visits.len();
        if depth == 0 {
            return ProjectStep::Finished;
        }
        assert(before.visits.last() == walk.visits@[depth - 1]@);
        let next: usize = walk.visits[depth - 1].next;
        let (open, looked_at): (Option<String>, usize) = match &walk.visits[depth - 1].targets {
            None => {
                return ProjectStep::Parse(walk.visits[depth - 1].path.clone());
            },
            Some(targets) => {
                proof {
                    first_open_is_open(
                        self@.compiled_modules,
                        before.visits,
                        targets_view(targets@),
                        next as int,
                    );
                }
                let total: usize = targets.len();
                match self.find_open(&walk.visits, targets, next) {
                    Some(i) => match &targets[i] {
                        Some(target) => (Some(target.clone()), i + 1),
                        None => (None, total),
                    },
                    None => (None, total),
                }
            },
        };
        let ghost w = stepped(self@.compiled_modules, before).0;
        match walk.visits.pop() {
            Some(v) => {
                let Visit { path, targets, next: _ } = v;
                match open {
                    Some(target) => {
                        walk.visits.push(Visit { path, targets, next: looked_at });
                        walk.visits.push(Visit { path: target.clone(), targets: None, next: 0 });
                        assert(walk@.visits =~= w.visits);
                        ProjectStep::Parse(target)
                    },
                    None => {
                        walk.visits.push(Visit { path: path.clone(), targets, next: looked_at });
                        assert(walk@.visits =~= w.visits);
                        ProjectStep::Compile(path)
                    },
                }
            },
            None => ProjectStep::Finished,
        }
    }
}

fn visits_path(visits: &Vec<Visit>, path: &String) -> (r: bool)
    ensures
        r == is_visited(visits_view(visits@), path@),
{
    let ghost all = visits_view(visits@);
    for i in 0..visits.len()
        invariant
            all == visits_view(visits@),
            forall|k: int| 0 <= k < i ==> (#[trigger] all[k]).path != path@,
    {
        assert(all[i as int] == visits@[i as int]@);
        if same(&visits[i].path, path.as_str()) {
            return true;
        }
    }
    false
}

// ---------------------------------------------------------------------------
// Laws
// ---------------------------------------------------------------------------

/// The first open import is open, and those before it are not.
pub proof fn first_open_is_open(
    modules: Seq<CompiledModuleV>,
    visits: Seq<VisitV>,
    targets: Seq<Option<Seq<char>>>,
    from: int,
)
    requires
        from >= 0,
    ensures
        match first_open(modules, visits, targets, from) {
            Some(i) => from <= i < targets.len() && is_open(modules, visits, targets[i])
                && forall|j: int|
                from <= j < i ==> !is_open(modules, visits, #[trigger] targets[j]),
            None => forall|j: int|
                from <= j < targets.len() ==> !is_open(modules, visits, #[trigger] targets[j]),
        },
    decreases targets.len() - from,
{
    if from < targets.len() && !is_open(modules, visits, targets[from]) {
        first_open_is_open(modules, visits, targets, from + 1);
    }
}

/// Whether the imports that the last of some visits has looked at are compiled
/// or being visited, but for the one, if any, that it waits for.
pub open spec fn settled(
    modules: Seq<CompiledModuleV>,
    visits: Seq<VisitV>,
    waits_for: Option<Seq<char>>,
) -> bool {
    let v = visits.last();
    match v.targets {
        None => waits_for is None,
        Some(targets) => {
            &&& v.next <= targets.len()
            &&& waits_for is Some ==> v.next > 0 && targets[v.next - 1] == waits_for
            &&& forall|j: int|
                0 <= j < v.next && !(waits_for is Some && j == v.next - 1) ==> !is_open(
                    modules,
                    visits,
                    #[trigger] targets[j],
                )
        },
    }
}

/// The file that a visit waits for: the one that is visited after it.
pub open spec fn awaited(visits: Seq<VisitV>, k: int) -> Option<Seq<char>> {
    if k + 1 < visits.len() {
        Some(visits[k + 1].path)
    } else {
        None
    }
}

/// Whether a walk is in order: every visit has settled the imports that it has
/// looked at, but for the file that is visited after it.
pub open spec fn in_order(modules: Seq<CompiledModuleV>, w: ProjectWalkV) -> bool {
    forall|k: int|
        0 <= k < w.visits.len() ==> settled(
            modules,
            #[trigger] w.visits.take(k + 1),
            awaited(w.visits, k),
        )
}

/// A walk starts in order.
pub proof fn walk_starts_in_order(modules: Seq<CompiledModuleV>, path: Seq<char>)
    ensures
        in_order(modules, walk_from(path)),
{
    let visits = walk_from(path).visits;
    assert forall|k: int| 0 <= k < visits.len() implies settled(
        modules,
        #[trigger] visits.take(k + 1),
        awaited(visits, k),
    ) by {
        assert(visits.take(k + 1).last() == visits[0]);
    }
}

/// What is visited does not depend on how far the visits are.
proof fn same_paths_same_visited(a: Seq<VisitV>, b: Seq<VisitV>, path: Seq<char>)
    requires
        a.len() == b.len(),
        forall|k: int| 0 <= k < a.len() ==> (#[trigger] a[k]).path == b[k].path,
    ensures
        is_visited(a, path) == is_visited(b, path),
{
    if is_visited(a, path) {
        let k = choose|k: int| 0 <= k < a.len() && (#[trigger] a[k]).path == path;
        assert(b[k].path == path);
    }
    if is_visited(b, path) {
        let k = choose|k: int| 0 <= k < b.len() && (#[trigger] b[k]).path == path;
        assert(a[k].path == path);
    }
}

/// Deciding what to do next keeps a walk in order. A file has no more imports
/// than a machine word can count.
pub proof fn stepping_keeps_order(modules: Seq<CompiledModuleV>, w: ProjectWalkV)
    requires
        in_order(modules, w),
        w.visits.len() > 0 && w.visits.last().targets is Some ==> w.visits.last().targets->0.len()
            <= usize::MAX,
    ensures
        in_order(modules, stepped(modules, w).0),
{
    if w.visits.len() > 0 && w.visits.last().targets is Some {
        let n = w.visits.len() as int;
        let v = w.visits[n - 1];
        let targets = v.targets->0;
        assert(w.visits.take(n) =~= w.visits);
        assert(settled(modules, w.visits.take(n - 1 + 1), awaited(w.visits, n - 1)));
        first_open_is_open(modules, w.visits, targets, v.next as int);
        let out = stepped(modules, w).0.visits;
        assert forall|k: int| 0 <= k < out.len() implies settled(
            modules,
            #[trigger] out.take(k + 1),
            awaited(out, k),
        ) by {
            if k < n - 1 {
                assert(out.take(k + 1) =~= w.visits.take(k + 1));
                assert(out[k + 1].path == w.visits[k + 1].path);
            } else if k == n - 1 {
                let now = out.take(n);
                assert(now.last() == out[n - 1]);
                assert forall|j: int| 0 <= j < targets.len() implies is_open(
                    modules,
                    now,
                    #[trigger] targets[j],
                ) == is_open(modules, w.visits, targets[j]) by {
                    if targets[j] is Some {
                        same_paths_same_visited(now, w.visits, targets[j]->0);
                    }
                }
            } else {
                assert(out.take(k + 1).last() == out[n]);
            }
        }
    }
}

/// Parsing the last file keeps a walk in order.
pub proof fn parsing_keeps_order(
    modules: Seq<CompiledModuleV>,
    w: ProjectWalkV,
    targets: Seq<Option<Seq<char>>>,
)
    requires
        in_order(modules, w),
        w.visits.len() > 0,
    ensures
        in_order(modules, after_parse(w, targets)),
{
    let out = after_parse(w, targets).visits;
    assert forall|k: int| 0 <= k < out.len() implies settled(
        modules,
        #[trigger] out.take(k + 1),
        awaited(out, k),
    ) by {
        if k + 1 < out.len() {
            assert(out.take(k + 1) =~= w.visits.take(k + 1));
            assert(out[k + 1].path == w.visits[k + 1].path);
        } else {
            assert(out.take(k + 1).last() == out[k]);
        }
    }
}

/// The compiled files after one was compiled.
pub open spec fn with_module(modules: Seq<CompiledModuleV>, m: CompiledModuleV) -> Seq<
    CompiledModuleV,
> {
    without_module(modules, m.path).push(m)
}

/// A file that is compiled stays compiled when another is.
pub proof fn compiled_stays(modules: Seq<CompiledModuleV>, m: CompiledModuleV, path: Seq<char>)
    ensures
        is_compiled(with_module(modules, m), path) == (is_compiled(modules, path) || path
            == m.path),
{
    if path == m.path {
        let kept = without_module(modules, m.path);
        assert(kept.push(m).drop_last() =~= kept);
    } else {
        recorded_module_is_found(modules, m, path);
    }
}

/// Compiling the last file, and noting it, keeps a walk in order.
pub proof fn compiling_keeps_order(
    modules: Seq<CompiledModuleV>,
    w: ProjectWalkV,
    names: Seq<Seq<char>>,
)
    requires
        in_order(modules, w),
        w.visits.len() > 0,
    ensures
        in_order(
            with_module(modules, CompiledModuleV { path: w.visits.last().path, names }),
            after_compile(w, names),
        ),
{
    let m = CompiledModuleV { path: w.visits.last().path, names };
    let out = after_compile(w, names).visits;
    assert forall|k: int| 0 <= k < out.len() implies settled(
        with_module(modules, m),
        #[trigger] out.take(k + 1),
        awaited(out, k),
    ) by {
        let visits = w.visits.take(k + 1);
        let v = visits.last();
        assert(out.take(k + 1) =~= visits);
        assert(settled(modules, visits, awaited(w.visits, k)));
        let targets = v.targets->0;
        assert forall|j: int| 0 <= j < v.next && (k + 1 == out.len() || j != v.next
            - 1) implies !is_open(with_module(modules, m), visits, #[trigger] targets[j]) by {
            if targets[j] is Some {
                compiled_stays(modules, m, targets[j]->0);
            }
        }
    }
}

/// A file is compiled after the files that it imports: when a walk in order
/// decides to compile a file, every import of the file that points to a file
/// is compiled, but for those that are being visited themselves, as in a
/// cycle.
pub proof fn imports_come_first(modules: Seq<CompiledModuleV>, w: ProjectWalkV, i: int)
    requires
        in_order(modules, w),
        stepped(modules, w).1 is Compile,
        0 <= i < w.visits.last().targets->0.len(),
        w.visits.last().targets->0[i] is Some,
    ensures
        ({
            let imported = w.visits.last().targets->0[i]->0;
            is_compiled(modules, imported) || is_visited(w.visits, imported)
        }),
        stepped(modules, w).1 == ProjectStepV::Compile(w.visits.last().path),
{
    let n = w.visits.len() as int;
    let v = w.visits[n - 1];
    assert(w.visits.take(n) =~= w.visits);
    assert(settled(modules, w.visits.take(n - 1 + 1), awaited(w.visits, n - 1)));
    first_open_is_open(modules, w.visits, v.targets->0, v.next as int);
    assert(!is_open(modules, w.visits, v.targets->0[i]));
}

} // verus!
