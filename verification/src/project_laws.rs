//! What holds of whole walks through a project, whatever the caller reports.

use vstd::prelude::*;

use crate::engine::CompiledModuleV;
use crate::project::{
    after_compile, after_parse, compiled_stays, compiling_keeps_order, first_open_is_open,
    imports_come_first, in_order, is_compiled, is_open, is_visited, parsing_keeps_order, stepped,
    stepping_keeps_order, walk_from, walk_starts_in_order, with_module, ProjectStepV, ProjectWalkV,
    VisitV,
};

verus! {

// ---------------------------------------------------------------------------
// Runs
// ---------------------------------------------------------------------------

/// What a caller reports after a decision.
pub enum ReportV {
    /// Where the imports of the parsed file point.
    Parsed(Seq<Option<Seq<char>>>),
    /// The functions of the compiled file.
    Compiled(Seq<Seq<char>>),
}

/// A walk and the files that are compiled.
pub struct ProjectV {
    pub modules: Seq<CompiledModuleV>,
    pub walk: ProjectWalkV,
}

/// What is to be done next.
pub open spec fn next_step(p: ProjectV) -> ProjectStepV {
    stepped(p.modules, p.walk).1
}

/// Whether a report tells of what was to be done.
pub open spec fn answers(report: ReportV, step: ProjectStepV) -> bool {
    match report {
        ReportV::Parsed(_) => step is Parse,
        ReportV::Compiled(_) => step is Compile,
    }
}

/// A project after a decision and the report on it. A compiled file is noted.
pub open spec fn reported(p: ProjectV, report: ReportV) -> ProjectV {
    let w = stepped(p.modules, p.walk).0;
    match report {
        ReportV::Parsed(targets) => ProjectV { walk: after_parse(w, targets), ..p },
        ReportV::Compiled(names) => ProjectV {
            modules: with_module(
                p.modules,
                CompiledModuleV { path: w.visits.last().path, names },
            ),
            walk: after_compile(w, names),
        },
    }
}

/// A project after some reports.
pub open spec fn run(p: ProjectV, s: Seq<ReportV>) -> ProjectV
    decreases s.len(),
{
    if s.len() == 0 {
        p
    } else {
        reported(run(p, s.drop_last()), s.last())
    }
}

/// Whether every report tells of what was to be done then.
pub open spec fn is_run(p: ProjectV, s: Seq<ReportV>) -> bool
    decreases s.len(),
{
    s.len() > 0 ==> is_run(p, s.drop_last()) && answers(
        s.last(),
        next_step(run(p, s.drop_last())),
    )
}

/// The files that were compiled in a run, in order.
pub open spec fn compiled_files(p: ProjectV, s: Seq<ReportV>) -> Seq<Seq<char>>
    decreases s.len(),
{
    if s.len() == 0 {
        seq![]
    } else {
        let front = compiled_files(p, s.drop_last());
        match next_step(run(p, s.drop_last())) {
            ProjectStepV::Compile(path) => front.push(path),
            _ => front,
        }
    }
}

/// A walk that starts at a file.
pub open spec fn project_from(modules: Seq<CompiledModuleV>, entry: Seq<char>) -> ProjectV {
    ProjectV { modules, walk: walk_from(entry) }
}

/// What a report changes about the visits: the last file is parsed, an import
/// of it is visited and parsed, or it is compiled and left.
proof fn report_effect(p: ProjectV, report: ReportV)
    requires
        answers(report, next_step(p)),
    ensures
        ({
            let visits = p.walk.visits;
            let n = visits.len() as int;
            let out = reported(p, report);
            &&& n > 0
            &&& forall|k: int|
                0 <= k < n && k < out.walk.visits.len() ==> (#[trigger] out.walk.visits[k]).path
                    == visits[k].path
            &&& match report {
                ReportV::Parsed(targets) => {
                    &&& out.modules == p.modules
                    &&& out.walk.visits.last().targets == Some(targets)
                    &&& if visits.last().targets is None {
                        out.walk.visits.len() == n
                    } else {
                        &&& out.walk.visits.len() == n + 1
                        &&& is_open(p.modules, visits, Some(out.walk.visits[n].path))
                        &&& exists|i: int|
                            0 <= i < visits.last().targets->0.len()
                                && #[trigger] visits.last().targets->0[i] == Some(
                                out.walk.visits[n].path,
                            )
                    }
                    &&& forall|k: int|
                        0 <= k < out.walk.visits.len() - 1 ==> (
                        #[trigger] out.walk.visits[k]).targets == visits[k].targets
                },
                ReportV::Compiled(names) => {
                    &&& next_step(p) == ProjectStepV::Compile(visits.last().path)
                    &&& visits.last().targets is Some
                    &&& out.walk.visits.len() == n - 1
                    &&& forall|k: int|
                        0 <= k < n - 1 ==> #[trigger] out.walk.visits[k] == visits[k]
                    &&& out.modules == with_module(
                        p.modules,
                        CompiledModuleV { path: visits.last().path, names },
                    )
                },
            }
        }),
{
    let visits = p.walk.visits;
    if visits.len() > 0 && visits.last().targets is Some {
        let targets = visits.last().targets->0;
        first_open_is_open(p.modules, visits, targets, visits.last().next as int);
        match stepped(p.modules, p.walk).1 {
            ProjectStepV::Parse(path) => {
                let out = reported(p, report);
                assert(out.walk.visits[visits.len() as int].path == path);
            },
            _ => {},
        }
    }
}

// ---------------------------------------------------------------------------
// No file is visited or compiled twice
// ---------------------------------------------------------------------------

/// Whether no file is visited twice at the same time.
pub open spec fn distinct_visits(visits: Seq<VisitV>) -> bool {
    forall|i: int, j: int|
        0 <= i < j < visits.len() ==> (#[trigger] visits[i]).path != (#[trigger] visits[j]).path
}

/// A report keeps the visits distinct.
pub proof fn reporting_keeps_visits_distinct(p: ProjectV, report: ReportV)
    requires
        answers(report, next_step(p)),
        distinct_visits(p.walk.visits),
    ensures
        distinct_visits(reported(p, report).walk.visits),
{
    report_effect(p, report);
    let n = p.walk.visits.len() as int;
    let out = reported(p, report).walk.visits;
    assert forall|i: int, j: int| 0 <= i < j < out.len() implies (#[trigger] out[i]).path != (
    #[trigger] out[j]).path by {
        assert(out[i].path == p.walk.visits[i].path);
        if j < n {
            assert(out[j].path == p.walk.visits[j].path);
        } else {
            assert(!is_visited(p.walk.visits, out[j].path));
        }
    }
}

/// At no time in a walk is a file visited twice.
pub proof fn no_file_is_visited_twice(
    modules: Seq<CompiledModuleV>,
    entry: Seq<char>,
    s: Seq<ReportV>,
)
    requires
        is_run(project_from(modules, entry), s),
    ensures
        distinct_visits(run(project_from(modules, entry), s).walk.visits),
    decreases s.len(),
{
    if s.len() > 0 {
        no_file_is_visited_twice(modules, entry, s.drop_last());
        reporting_keeps_visits_distinct(run(project_from(modules, entry), s.drop_last()), s.last());
    }
}

/// The files that were compiled before a walk and in it are those that are
/// compiled after it.
pub proof fn compiled_files_are_noted(p: ProjectV, s: Seq<ReportV>, path: Seq<char>)
    requires
        is_run(p, s),
    ensures
        is_compiled(run(p, s).modules, path) == (is_compiled(p.modules, path) || compiled_files(
            p,
            s,
        ).contains(path)),
    decreases s.len(),
{
    if s.len() > 0 {
        compiled_files_are_noted(p, s.drop_last(), path);
        let before = run(p, s.drop_last());
        report_effect(before, s.last());
        let front = compiled_files(p, s.drop_last());
        let all = compiled_files(p, s);
        match s.last() {
            ReportV::Parsed(_) => {},
            ReportV::Compiled(names) => {
                let m = CompiledModuleV { path: before.walk.visits.last().path, names };
                compiled_stays(before.modules, m, path);
                assert(all == front.push(m.path));
                if front.contains(path) {
                    let k = front.index_of(path);
                    assert(all[k] == path);
                }
                if path == m.path {
                    assert(all[front.len() as int] == path);
                }
                if all.contains(path) && path != m.path {
                    let k = choose|k: int| 0 <= k < all.len() && all[k] == path;
                    assert(front[k] == path);
                }
            },
        }
    }
}

/// What holds in the course of a walk: it is at its entry until the end, which
/// is then yet to be compiled in it, and visits no other file that is compiled.
spec fn under_way(p: ProjectV, entry: Seq<char>, done: Seq<Seq<char>>) -> bool {
    &&& done.no_duplicates()
    &&& p.walk.visits.len() > 0 ==> p.walk.visits[0].path == entry && !done.contains(entry)
    &&& p.walk.visits.len() == 0 ==> done.contains(entry)
    &&& forall|k: int|
        0 < k < p.walk.visits.len() ==> !is_compiled(
            p.modules,
            (#[trigger] p.walk.visits[k]).path,
        )
}

proof fn walk_is_under_way(modules: Seq<CompiledModuleV>, entry: Seq<char>, s: Seq<ReportV>)
    requires
        is_run(project_from(modules, entry), s),
    ensures
        under_way(
            run(project_from(modules, entry), s),
            entry,
            compiled_files(project_from(modules, entry), s),
        ),
    decreases s.len(),
{
    let p = project_from(modules, entry);
    if s.len() > 0 {
        let before = run(p, s.drop_last());
        let after = run(p, s);
        let front = compiled_files(p, s.drop_last());
        walk_is_under_way(modules, entry, s.drop_last());
        no_file_is_visited_twice(modules, entry, s.drop_last());
        report_effect(before, s.last());
        let n = before.walk.visits.len() as int;
        match s.last() {
            ReportV::Parsed(_) => {
                assert forall|k: int| 0 < k < after.walk.visits.len() implies !is_compiled(
                    after.modules,
                    (#[trigger] after.walk.visits[k]).path,
                ) by {
                    if k < n {
                        assert(after.walk.visits[k].path == before.walk.visits[k].path);
                    }
                }
                assert(after.walk.visits[0].path == before.walk.visits[0].path);
            },
            ReportV::Compiled(names) => {
                let m = CompiledModuleV { path: before.walk.visits.last().path, names };
                let all = front.push(m.path);
                assert(compiled_files(p, s) == all);
                compiled_files_are_noted(p, s.drop_last(), m.path);
                assert(before.walk.visits[n - 1].path == m.path);
                assert(!front.contains(m.path));
                assert forall|i: int, j: int|
                    0 <= i < all.len() && 0 <= j < all.len() && i != j implies all[i] != all[j] by {
                    if i < front.len() && j < front.len() {
                        assert(front[i] != front[j]);
                    } else if i < front.len() {
                        assert(front.contains(front[i]));
                    } else {
                        assert(front.contains(front[j]));
                    }
                }
                assert(all[front.len() as int] == m.path);
                if n > 1 {
                    assert(before.walk.visits[0].path != before.walk.visits[n - 1].path);
                    assert(after.walk.visits[0] == before.walk.visits[0]);
                    if all.contains(entry) {
                        let k = choose|k: int| 0 <= k < all.len() && all[k] == entry;
                        assert(front.contains(front[k]));
                    }
                }
                assert forall|k: int| 0 < k < after.walk.visits.len() implies !is_compiled(
                    after.modules,
                    (#[trigger] after.walk.visits[k]).path,
                ) by {
                    assert(after.walk.visits[k] == before.walk.visits[k]);
                    assert(before.walk.visits[k].path != before.walk.visits[n - 1].path);
                    compiled_stays(before.modules, m, after.walk.visits[k].path);
                }
            },
        }
    }
}

/// No file is compiled twice in a walk.
pub proof fn no_file_is_compiled_twice(
    modules: Seq<CompiledModuleV>,
    entry: Seq<char>,
    s: Seq<ReportV>,
)
    requires
        is_run(project_from(modules, entry), s),
    ensures
        compiled_files(project_from(modules, entry), s).no_duplicates(),
{
    walk_is_under_way(modules, entry, s);
}

// ---------------------------------------------------------------------------
// A walk ends
// ---------------------------------------------------------------------------

/// The files that are neither compiled nor being visited.
pub open spec fn untouched(files: Set<Seq<char>>, p: ProjectV) -> Set<Seq<char>> {
    files.filter(
        |path: Seq<char>| !is_compiled(p.modules, path) && !is_visited(p.walk.visits, path),
    )
}

/// How many reports there can be at most before a walk through some files is
/// finished: two for every file that is untouched, one for every file that is
/// being visited, and one more while the entry is not parsed.
pub open spec fn reports_left(files: Set<Seq<char>>, p: ProjectV) -> nat {
    let visits = p.walk.visits;
    2 * untouched(files, p).len() + visits.len() + if visits.len() > 0 && visits.last().targets
        is None {
        1nat
    } else {
        0nat
    }
}

/// Whether some imports stay within some files.
pub open spec fn stay_within(files: Set<Seq<char>>, targets: Seq<Option<Seq<char>>>) -> bool {
    forall|i: int|
        0 <= i < targets.len() && (#[trigger] targets[i]) is Some ==> files.contains(targets[i]->0)
}

/// Whether the imports of all visited files that are parsed stay within some
/// files.
pub open spec fn visits_stay_within(files: Set<Seq<char>>, visits: Seq<VisitV>) -> bool {
    forall|k: int|
        0 <= k < visits.len() && (#[trigger] visits[k]).targets is Some ==> stay_within(
            files,
            visits[k].targets->0,
        )
}

/// Whether every visited file that waits for another is parsed.
pub open spec fn waiting_are_parsed(visits: Seq<VisitV>) -> bool {
    forall|k: int| 0 <= k < visits.len() - 1 ==> (#[trigger] visits[k]).targets is Some
}

/// Every report brings a walk nearer to its end.
pub proof fn reports_left_falls(files: Set<Seq<char>>, p: ProjectV, report: ReportV)
    requires
        files.finite(),
        answers(report, next_step(p)),
        waiting_are_parsed(p.walk.visits),
        visits_stay_within(files, p.walk.visits),
    ensures
        reports_left(files, reported(p, report)) < reports_left(files, p),
{
    report_effect(p, report);
    let out = reported(p, report);
    let visits = p.walk.visits;
    let n = visits.len() as int;
    let u = untouched(files, p);
    let u1 = untouched(files, out);
    files.lemma_len_filter(
        |path: Seq<char>| !is_compiled(p.modules, path) && !is_visited(visits, path),
    );
    assert forall|path: Seq<char>| #[trigger] u1.contains(path) implies u.contains(path) by {
        if is_visited(visits, path) {
            let k = choose|k: int| 0 <= k < n && (#[trigger] visits[k]).path == path;
            if k < out.walk.visits.len() {
                assert(out.walk.visits[k].path == path);
            } else {
                match report {
                    ReportV::Compiled(names) => {
                        let m = CompiledModuleV { path: visits.last().path, names };
                        compiled_stays(p.modules, m, path);
                    },
                    _ => {},
                }
            }
        }
        match report {
            ReportV::Compiled(names) => {
                let m = CompiledModuleV { path: visits.last().path, names };
                compiled_stays(p.modules, m, path);
            },
            _ => {},
        }
    }
    vstd::set_lib::lemma_len_subset(u1, u);
    match report {
        ReportV::Parsed(_) => {
            if visits.last().targets is Some {
                let path = out.walk.visits[n].path;
                let targets = visits.last().targets->0;
                let i = choose|i: int|
                    0 <= i < targets.len() && #[trigger] targets[i] == Some(path);
                assert(visits[n - 1].targets is Some);
                assert(files.contains(targets[i]->0));
                assert(u.contains(path));
                assert(is_visited(out.walk.visits, path));
                assert forall|q: Seq<char>| #[trigger] u1.contains(q) implies u.remove(path)
                    .contains(q) by {
                    assert(u.contains(q));
                }
                vstd::set_lib::lemma_len_subset(u1, u.remove(path));
            }
        },
        ReportV::Compiled(_) => {
            if n > 1 {
                assert(out.walk.visits[n - 2] == visits[n - 2]);
            }
        },
    }
}

proof fn reporting_stays_within(files: Set<Seq<char>>, p: ProjectV, report: ReportV)
    requires
        answers(report, next_step(p)),
        waiting_are_parsed(p.walk.visits),
        visits_stay_within(files, p.walk.visits),
        report matches ReportV::Parsed(targets) ==> stay_within(files, targets),
    ensures
        waiting_are_parsed(reported(p, report).walk.visits),
        visits_stay_within(files, reported(p, report).walk.visits),
{
    report_effect(p, report);
    let visits = p.walk.visits;
    let out = reported(p, report).walk.visits;
    let n = out.len() as int;
    assert forall|k: int| 0 <= k < n implies (#[trigger] out[k]).targets is Some && stay_within(
        files,
        out[k].targets->0,
    ) by {
        if k < n - 1 || report is Compiled {
            assert(out[k].targets == visits[k].targets);
        }
    }
}

/// Whether all imports that are reported stay within some files.
pub open spec fn reports_stay_within(files: Set<Seq<char>>, s: Seq<ReportV>) -> bool {
    forall|i: int|
        0 <= i < s.len() ==> match #[trigger] s[i] {
            ReportV::Parsed(targets) => stay_within(files, targets),
            ReportV::Compiled(_) => true,
        }
}

proof fn run_is_bounded(
    files: Set<Seq<char>>,
    modules: Seq<CompiledModuleV>,
    entry: Seq<char>,
    s: Seq<ReportV>,
)
    requires
        files.finite(),
        is_run(project_from(modules, entry), s),
        reports_stay_within(files, s),
    ensures
        ({
            let p = project_from(modules, entry);
            &&& waiting_are_parsed(run(p, s).walk.visits)
            &&& visits_stay_within(files, run(p, s).walk.visits)
            &&& s.len() + reports_left(files, run(p, s)) <= reports_left(files, p)
        }),
    decreases s.len(),
{
    let p = project_from(modules, entry);
    if s.len() > 0 {
        let front = s.drop_last();
        assert forall|i: int| 0 <= i < front.len() implies match #[trigger] front[i] {
            ReportV::Parsed(targets) => stay_within(files, targets),
            ReportV::Compiled(_) => true,
        } by {
            assert(front[i] == s[i]);
        }
        run_is_bounded(files, modules, entry, front);
        assert(s.last() == s[s.len() - 1]);
        reports_left_falls(files, run(p, front), s.last());
        reporting_stays_within(files, run(p, front), s.last());
    }
}

/// A walk ends, also where imports form a cycle: as long as the imports that
/// are reported stay within finitely many files, there are no more than two
/// reports for every file and two for the entry.
pub proof fn walk_ends(
    files: Set<Seq<char>>,
    modules: Seq<CompiledModuleV>,
    entry: Seq<char>,
    s: Seq<ReportV>,
)
    requires
        files.finite(),
        is_run(project_from(modules, entry), s),
        reports_stay_within(files, s),
    ensures
        s.len() <= 2 * files.len() + 2,
{
    let p = project_from(modules, entry);
    run_is_bounded(files, modules, entry, s);
    files.lemma_len_filter(
        |path: Seq<char>| !is_compiled(p.modules, path) && !is_visited(p.walk.visits, path),
    );
}

// ---------------------------------------------------------------------------
// A finished walk has compiled everything
// ---------------------------------------------------------------------------

/// Whether an import was reported that points to a file.
pub open spec fn was_reported(s: Seq<ReportV>, path: Seq<char>) -> bool {
    exists|i: int|
        0 <= i < s.len() && match #[trigger] s[i] {
            ReportV::Parsed(targets) => targets.contains(Some(path)),
            ReportV::Compiled(_) => false,
        }
}

/// Whether a visited file that is parsed imports a file.
spec fn is_awaited(visits: Seq<VisitV>, path: Seq<char>) -> bool {
    exists|k: int|
        0 <= k < visits.len() && (#[trigger] visits[k]).targets is Some
            && visits[k].targets->0.contains(Some(path))
}

/// Whether no report has more imports than a machine word can count.
pub open spec fn reports_are_countable(s: Seq<ReportV>) -> bool {
    forall|i: int|
        0 <= i < s.len() ==> match #[trigger] s[i] {
            ReportV::Parsed(targets) => targets.len() <= usize::MAX,
            ReportV::Compiled(_) => true,
        }
}

spec fn visits_are_countable(visits: Seq<VisitV>) -> bool {
    forall|k: int|
        0 <= k < visits.len() && (#[trigger] visits[k]).targets is Some
            ==> visits[k].targets->0.len() <= usize::MAX
}

proof fn walk_stays_in_order(modules: Seq<CompiledModuleV>, entry: Seq<char>, s: Seq<ReportV>)
    requires
        is_run(project_from(modules, entry), s),
        reports_are_countable(s),
    ensures
        ({
            let p = run(project_from(modules, entry), s);
            &&& in_order(p.modules, p.walk)
            &&& visits_are_countable(p.walk.visits)
        }),
    decreases s.len(),
{
    let p = project_from(modules, entry);
    if s.len() == 0 {
        walk_starts_in_order(modules, entry);
    } else {
        let front = s.drop_last();
        assert forall|i: int| 0 <= i < front.len() implies match #[trigger] front[i] {
            ReportV::Parsed(targets) => targets.len() <= usize::MAX,
            ReportV::Compiled(_) => true,
        } by {
            assert(front[i] == s[i]);
        }
        walk_stays_in_order(modules, entry, front);
        let before = run(p, front);
        let visits = before.walk.visits;
        let out = run(p, s).walk.visits;
        report_effect(before, s.last());
        assert(visits[visits.len() - 1] == visits.last());
        stepping_keeps_order(before.modules, before.walk);
        let w = stepped(before.modules, before.walk).0;
        assert(s.last() == s[s.len() - 1]);
        match s.last() {
            ReportV::Parsed(targets) => {
                parsing_keeps_order(before.modules, w, targets);
                assert forall|k: int|
                    0 <= k < out.len() && (#[trigger] out[k]).targets is Some implies (
                out[k].targets->0).len() <= usize::MAX by {
                    if k < out.len() - 1 {
                        assert(out[k].targets == visits[k].targets);
                    }
                }
            },
            ReportV::Compiled(names) => {
                compiling_keeps_order(before.modules, w, names);
                assert forall|k: int|
                    0 <= k < out.len() && (#[trigger] out[k]).targets is Some implies (
                out[k].targets->0).len() <= usize::MAX by {
                    assert(out[k] == visits[k]);
                }
            },
        }
    }
}

/// An import that was reported is compiled, being visited or yet to be looked
/// at.
proof fn reported_is_kept(
    modules: Seq<CompiledModuleV>,
    entry: Seq<char>,
    s: Seq<ReportV>,
    path: Seq<char>,
)
    requires
        is_run(project_from(modules, entry), s),
        reports_are_countable(s),
        was_reported(s, path),
    ensures
        ({
            let p = run(project_from(modules, entry), s);
            is_compiled(p.modules, path) || is_visited(p.walk.visits, path) || is_awaited(
                p.walk.visits,
                path,
            )
        }),
    decreases s.len(),
{
    let p = project_from(modules, entry);
    let front = s.drop_last();
    assert forall|i: int| 0 <= i < front.len() implies match #[trigger] front[i] {
        ReportV::Parsed(targets) => targets.len() <= usize::MAX,
        ReportV::Compiled(_) => true,
    } by {
        assert(front[i] == s[i]);
    }
    let before = run(p, front);
    let after = run(p, s);
    let visits = before.walk.visits;
    let out = after.walk.visits;
    let n = visits.len() as int;
    report_effect(before, s.last());
    walk_stays_in_order(modules, entry, front);
    let i = choose|i: int|
        0 <= i < s.len() && match #[trigger] s[i] {
            ReportV::Parsed(targets) => targets.contains(Some(path)),
            ReportV::Compiled(_) => false,
        };
    if i == s.len() - 1 {
        assert(out[out.len() - 1] == out.last());
        assert(is_awaited(out, path));
    } else {
        assert(front[i] == s[i]);
        assert(was_reported(front, path));
        reported_is_kept(modules, entry, front, path);
        match s.last() {
            ReportV::Parsed(_) => {
                if is_visited(visits, path) {
                    let k = choose|k: int| 0 <= k < n && (#[trigger] visits[k]).path == path;
                    assert(out[k].path == path);
                } else if is_awaited(visits, path) {
                    let k = choose|k: int|
                        0 <= k < n && (#[trigger] visits[k]).targets is Some
                            && visits[k].targets->0.contains(Some(path));
                    assert(out[k].targets == visits[k].targets);
                }
            },
            ReportV::Compiled(names) => {
                let m = CompiledModuleV { path: visits.last().path, names };
                compiled_stays(before.modules, m, path);
                if is_awaited(visits, path) && !is_compiled(before.modules, path) && !is_visited(
                    visits,
                    path,
                ) {
                    let k = choose|k: int|
                        0 <= k < n && (#[trigger] visits[k]).targets is Some
                            && visits[k].targets->0.contains(Some(path));
                    if k < n - 1 {
                        assert(out[k] == visits[k]);
                    } else {
                        let j = visits[k].targets->0.index_of(Some(path));
                        imports_come_first(before.modules, before.walk, j);
                    }
                }
                if is_visited(visits, path) {
                    let k = choose|k: int| 0 <= k < n && (#[trigger] visits[k]).path == path;
                    if k < n - 1 {
                        assert(out[k] == visits[k]);
                    }
                }
            },
        }
    }
}

/// A finished walk has compiled its entry and every file that an import points
/// to, each exactly once, but for the imported files that were compiled before.
/// A file has no more imports than a machine word can count.
pub proof fn finished_walk_compiled_all(
    modules: Seq<CompiledModuleV>,
    entry: Seq<char>,
    s: Seq<ReportV>,
    path: Seq<char>,
)
    requires
        is_run(project_from(modules, entry), s),
        reports_are_countable(s),
        next_step(run(project_from(modules, entry), s)) is Finished,
    ensures
        ({
            let compiled = compiled_files(project_from(modules, entry), s);
            &&& compiled.no_duplicates()
            &&& compiled.contains(entry)
            &&& was_reported(s, path) ==> is_compiled(modules, path) || compiled.contains(path)
        }),
{
    let p = project_from(modules, entry);
    let end = run(p, s);
    walk_is_under_way(modules, entry, s);
    assert(end.walk.visits.len() == 0);
    if was_reported(s, path) {
        reported_is_kept(modules, entry, s, path);
        compiled_files_are_noted(p, s, path);
    }
}

} // verus!
