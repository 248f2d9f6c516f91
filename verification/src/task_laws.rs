//! What holds of whole runs of the operations that touch the disk.
use crate::disk::{AnswerView, RequestView};
use crate::ensure::{after_selection, before_removal, ensure_next, ensure_request, EnsureView};
use crate::evict::{evicted, EvictPolicy};
use crate::evict_laws::{only_found_files_are_evicted, time_matters_only_for_age};
use crate::layout_laws::{evictions_stay_in_group, thread_entries_lie_under_process};
use crate::machine::Machine;
use crate::path::{components, is_absolute, join, needs_current_dir, parent, resolved};
use crate::path_laws::{
    current_dir_keeps_under, is_under, resolved_path_is_absolute, under_absolute_is_absolute,
};
use crate::process::{scope_next, scope_request, thread_group_path, ScopeView};
use crate::report::{
    after_select, report_next, report_request, report_start, resolved_paths, some_need_current_dir,
    ReportView,
};
use crate::scan::{scan_next, scan_request, scan_start, ScanView};
use crate::scan_laws::{
    answers_for, are_listed_under, files_in, found_files_lie_under_directory,
    scan_finds_every_file, scan_machine, Node,
};
use crate::select::{
    after_scan, evicted_paths, select_next, select_request, select_start, SelectView,
};
use crate::touch::{located, touch_next, touch_request, touch_start, TouchView};
use vstd::prelude::*;

verus! {

/// The state machine of a report.
pub open spec fn report_machine<E>() -> Machine<ReportView<E>, E> {
    Machine {
        next: |s: ReportView<E>, answer: AnswerView<E>| report_next(s, answer),
        request: |s: ReportView<E>| report_request(s),
    }
}

/// The state machine of creating a directory and evicting from it.
pub open spec fn ensure_machine<E>() -> Machine<EnsureView<E>, E> {
    Machine {
        next: |s: EnsureView<E>, answer: AnswerView<E>| ensure_next(s, answer),
        request: |s: EnsureView<E>| ensure_request(s),
    }
}

/// The state machine of creating an entry.
pub open spec fn touch_machine<E>() -> Machine<TouchView<E>, E> {
    Machine {
        next: |s: TouchView<E>, answer: AnswerView<E>| touch_next(s, answer),
        request: |s: TouchView<E>| touch_request(s),
    }
}

/// The state machine of making the group of a process.
pub open spec fn scope_machine<E>() -> Machine<ScopeView<E>, E> {
    Machine {
        next: |s: ScopeView<E>, answer: AnswerView<E>| scope_next(s, answer),
        request: |s: ScopeView<E>| scope_request(s),
    }
}

/// The state machine of a selection.
pub open spec fn select_machine<E>() -> Machine<SelectView<E>, E> {
    Machine {
        next: |s: SelectView<E>, answer: AnswerView<E>| select_next(s, answer),
        request: |s: SelectView<E>| select_request(s),
    }
}

/// The answers of the operating system while the files of a directory that holds
/// `nodes` are selected at `now`, where nothing fails.
pub open spec fn select_answers<E>(nodes: Seq<Node>, now: int, policy: EvictPolicy) -> Seq<
    AnswerView<E>,
> {
    let collected = seq![AnswerView::Done] + answers_for::<E>(nodes);
    if policy.max_age is Some {
        collected + seq![AnswerView::Now(now)]
    } else {
        collected
    }
}

/// The answers of the operating system to a report on a directory that holds
/// `nodes`, at `now` and with `cwd` as the current directory, where nothing
/// fails. The current directory is asked for only where a selected path needs
/// it.
pub open spec fn report_answers<E>(
    cwd: Seq<u8>,
    nodes: Seq<Node>,
    now: int,
    policy: EvictPolicy,
) -> Seq<AnswerView<E>> {
    let selected = select_answers::<E>(nodes, now, policy);
    if some_need_current_dir(evicted_paths(files_in(nodes), now, policy)) {
        selected + seq![AnswerView::Path(cwd)]
    } else {
        selected
    }
}

/// Whether each of the answers says that something was done or failed.
pub open spec fn are_verdicts<E>(answers: Seq<AnswerView<E>>) -> bool {
    forall|i: int|
        0 <= i < answers.len() ==> (#[trigger] answers[i] is Done || answers[i] is Failed)
}

/// The requests to remove `files`, one by one.
pub open spec fn removals(files: Seq<Seq<u8>>) -> Seq<RequestView> {
    Seq::new(files.len(), |i: int| RequestView::RemoveFile(files[i]))
}

/// The answers of the operating system while the entry at `path`, which need not
/// be looked for, is touched at `now`, where nothing fails.
pub open spec fn opening_answers<E>(path: Seq<u8>, now: int) -> Seq<AnswerView<E>> {
    let created = match parent(path) {
        Some(_) => seq![AnswerView::Done],
        None => seq![],
    };
    created + seq![AnswerView::Done, AnswerView::Now(now), AnswerView::Done]
}

/// What touching the entry at `path`, which need not be looked for, asks for at
/// `now`: the creation of the directory that holds the entry, where there is
/// one; the opening of the entry; and that it counts as modified at `now`.
pub open spec fn opening_requests(path: Seq<u8>, now: int) -> Seq<RequestView> {
    let created = match parent(path) {
        Some(dir) => seq![RequestView::CreateDirAll(dir)],
        None => seq![],
    };
    created + seq![
        RequestView::OpenAppend(path),
        RequestView::ReadClock,
        RequestView::SetModified(path, now),
    ]
}

/// The answers of the operating system while `entry` is touched at `now` with
/// `cwd` as the current directory, where nothing fails.
pub open spec fn touch_answers<E>(entry: Seq<u8>, cwd: Seq<u8>, now: int) -> Seq<AnswerView<E>> {
    let opened = opening_answers::<E>(resolved(cwd, entry), now);
    if needs_current_dir(entry) {
        seq![AnswerView::Path(cwd)] + opened
    } else {
        opened
    }
}

/// What touching `entry` at `now` asks for: the current directory, where the
/// entry is named by a relative path, and then what touching it there asks for.
pub open spec fn touch_requests(entry: Seq<u8>, cwd: Seq<u8>, now: int) -> Seq<RequestView> {
    let opened = opening_requests(resolved(cwd, entry), now);
    if needs_current_dir(entry) {
        seq![RequestView::CurrentDir] + opened
    } else {
        opened
    }
}

/// A selection follows its search.
proof fn lemma_select_follows_scan<E>(
    policy: EvictPolicy,
    s: ScanView<E>,
    answers: Seq<AnswerView<E>>,
)
    requires
        scan_machine::<E>().takes_all(s, answers),
    ensures
        select_machine::<E>().run(after_scan(policy, s), answers) == after_scan(
            policy,
            scan_machine::<E>().run(s, answers),
        ),
        select_machine::<E>().takes_all(after_scan(policy, s), answers),
    decreases answers.len(),
{
    if answers.len() > 0 {
        assert(scan_request(s) is Some);
        assert(after_scan(policy, s) == SelectView::Scanning(policy, s));
        lemma_select_follows_scan(policy, scan_next(s, answers[0]), answers.drop_first());
    }
}

/// A selection under a directory, in which nothing fails, selects from exactly
/// the regular files under it.
pub proof fn selection_is_from_every_file<E>(
    root: Seq<u8>,
    nodes: Seq<Node>,
    now: int,
    policy: EvictPolicy,
)
    ensures
        select_machine::<E>().run(
            select_start::<E>(root, policy),
            select_answers::<E>(nodes, now, policy),
        ) == SelectView::<E>::Finished(Ok(evicted_paths(files_in(nodes), now, policy))),
        select_machine::<E>().takes_all(
            select_start::<E>(root, policy),
            select_answers::<E>(nodes, now, policy),
        ),
{
    let m = select_machine::<E>();
    let s = select_start::<E>(root, policy);
    let collected = seq![AnswerView::<E>::Done] + answers_for::<E>(nodes);
    scan_finds_every_file::<E>(root, nodes);
    assert(after_scan(policy, scan_start::<E>(root)) == s);
    lemma_select_follows_scan::<E>(policy, scan_start(root), collected);
    if policy.max_age is Some {
        let t = SelectView::<E>::Timing(policy, files_in(nodes));
        m.lemma_run_one(t, AnswerView::Now(now));
        m.lemma_run_add(s, collected, seq![AnswerView::Now(now)]);
    } else {
        time_matters_only_for_age(files_in(nodes), 0, now, policy);
    }
}

/// A report follows its selection.
proof fn lemma_report_follows_select<E>(s: SelectView<E>, answers: Seq<AnswerView<E>>)
    requires
        select_machine::<E>().takes_all(s, answers),
    ensures
        report_machine::<E>().run(after_select(s), answers) == after_select(
            select_machine::<E>().run(s, answers),
        ),
        report_machine::<E>().takes_all(after_select(s), answers),
    decreases answers.len(),
{
    if answers.len() > 0 {
        assert(select_request(s) is Some);
        assert(after_select(s) == ReportView::Selecting(s));
        lemma_report_follows_select(select_next(s, answers[0]), answers.drop_first());
    }
}

/// A report in which nothing fails names exactly the files that are selected
/// from the regular files under the directory, as they are seen from the current
/// directory.
pub proof fn report_names_the_selected_files<E>(
    root: Seq<u8>,
    cwd: Seq<u8>,
    nodes: Seq<Node>,
    now: int,
    policy: EvictPolicy,
)
    ensures
        report_machine::<E>().run(
            report_start::<E>(root, policy),
            report_answers::<E>(cwd, nodes, now, policy),
        ) == ReportView::<E>::Finished(
            Ok(resolved_paths(cwd, evicted_paths(files_in(nodes), now, policy))),
        ),
        report_machine::<E>().takes_all(
            report_start::<E>(root, policy),
            report_answers::<E>(cwd, nodes, now, policy),
        ),
{
    let m = report_machine::<E>();
    let s = report_start::<E>(root, policy);
    let selected = select_answers::<E>(nodes, now, policy);
    let paths = evicted_paths(files_in(nodes), now, policy);
    selection_is_from_every_file::<E>(root, nodes, now, policy);
    assert(after_select(select_start::<E>(root, policy)) == s);
    lemma_report_follows_select::<E>(select_start(root, policy), selected);
    if some_need_current_dir(paths) {
        m.lemma_run_one(ReportView::Locating(paths), AnswerView::Path(cwd));
        m.lemma_run_add(s, selected, seq![AnswerView::Path(cwd)]);
    } else {
        assert(resolved_paths(cwd, paths) =~= paths);
    }
}

/// Every path that a report names is absolute, where the current directory is
/// absolute and no file was found by an empty path. It lies under the directory,
/// where the operating system names what stands in a directory by paths under
/// it.
pub proof fn reported_paths_are_absolute<E>(
    root: Seq<u8>,
    cwd: Seq<u8>,
    nodes: Seq<Node>,
    now: int,
    policy: EvictPolicy,
)
    requires
        is_absolute(cwd),
        forall|i: int|
            0 <= i < files_in(nodes).len() ==> #[trigger] files_in(nodes)[i].path.len() > 0,
    ensures
        report_machine::<E>().run(
            report_start::<E>(root, policy),
            report_answers::<E>(cwd, nodes, now, policy),
        ) matches ReportView::Finished(Ok(paths)) && forall|i: int|
            0 <= i < paths.len() ==> is_absolute(#[trigger] paths[i]) && (root.len() > 0
                && are_listed_under(root, nodes) ==> is_under(paths[i], resolved(cwd, root))),
{
    let found = files_in(nodes);
    let selected = evicted(found, now, policy);
    let paths = resolved_paths(cwd, evicted_paths(found, now, policy));
    report_names_the_selected_files::<E>(root, cwd, nodes, now, policy);
    assert forall|i: int| 0 <= i < paths.len() implies is_absolute(#[trigger] paths[i]) && (
    root.len() > 0 && are_listed_under(root, nodes) ==> is_under(
        paths[i],
        resolved(cwd, root),
    )) by {
        let path = selected[i].path;
        assert(selected.contains(selected[i]));
        only_found_files_are_evicted(found, now, policy, selected[i]);
        let k = choose|k: int| 0 <= k < found.len() && found[k] == selected[i];
        assert(found[k].path.len() > 0);
        resolved_path_is_absolute(cwd, path);
        if root.len() > 0 && are_listed_under(root, nodes) {
            found_files_lie_under_directory(root, nodes, k);
            if needs_current_dir(root) {
                current_dir_keeps_under(cwd, path, root);
            } else {
                under_absolute_is_absolute(path, root);
            }
        }
    }
}

/// A report only looks: it never asks for anything to be created, opened for
/// writing or removed.
pub proof fn report_changes_nothing<E>(s: ReportView<E>)
    ensures
        report_request(s) matches Some(request) ==> request is CurrentDir || request is OpenDir
            || request is NextEntry || request is ReadClock,
{
}

/// The first failure ends a report, and is what it ends with.
pub proof fn report_ends_at_first_failure<E>(s: ReportView<E>, e: E)
    requires
        report_request(s) matches Some(request) && request !is ReadClock,
    ensures
        report_next(s, AnswerView::Failed(e)) == ReportView::<E>::Finished(Err(e)),
{
}

/// Evicting follows the selection.
proof fn lemma_ensure_follows_select<E>(
    path: Seq<u8>,
    s: SelectView<E>,
    answers: Seq<AnswerView<E>>,
)
    requires
        select_machine::<E>().takes_all(s, answers),
    ensures
        ensure_machine::<E>().run(after_selection(path, s), answers) == after_selection(
            path,
            select_machine::<E>().run(s, answers),
        ),
        ensure_machine::<E>().takes_all(after_selection(path, s), answers),
        ensure_machine::<E>().asks(after_selection(path, s), answers) == select_machine::<E>().asks(
            s,
            answers,
        ),
    decreases answers.len(),
{
    if answers.len() > 0 {
        assert(select_request(s) is Some);
        assert(after_selection(path, s) == EnsureView::Selecting(path, s));
        lemma_ensure_follows_select(path, select_next(s, answers[0]), answers.drop_first());
    }
}

/// Every file is asked to be removed, in order, whether or not the removals
/// before it succeeded.
proof fn lemma_removal<E>(path: Seq<u8>, files: Seq<Seq<u8>>, answers: Seq<AnswerView<E>>)
    requires
        answers.len() == files.len(),
        are_verdicts(answers),
    ensures
        ensure_machine::<E>().run(before_removal(path, files), answers) == EnsureView::<
            E,
        >::Finished(Ok(path)),
        ensure_machine::<E>().takes_all(before_removal(path, files), answers),
        ensure_machine::<E>().asks(before_removal(path, files), answers) == removals(files),
    decreases files.len(),
{
    if files.len() > 0 {
        let rest = answers.drop_first();
        assert(answers[0] is Done || answers[0] is Failed);
        assert forall|i: int| 0 <= i < rest.len() implies (#[trigger] rest[i] is Done
            || rest[i] is Failed) by {
            assert(rest[i] == answers[i + 1]);
        }
        lemma_removal(path, files.drop_first(), rest);
    }
    assert(ensure_machine::<E>().asks(before_removal(path, files), answers) =~= removals(files));
}

/// Without a policy the directory is created, and nothing else is asked for.
pub proof fn ensure_without_policy_only_creates<E>(path: Seq<u8>)
    ensures
        ensure_machine::<E>().run(EnsureView::Creating(path, None), seq![AnswerView::Done])
            == EnsureView::<E>::Finished(Ok(path)),
        ensure_machine::<E>().asks(EnsureView::Creating(path, None), seq![AnswerView::Done])
            == seq![RequestView::CreateDirAll(path)],
{
    let s = EnsureView::<E>::Creating(path, None);
    ensure_machine::<E>().lemma_run_one(s, AnswerView::Done);
}

/// With a policy the directory is created, the files under it are looked at as
/// for a report, and then exactly the files that a report would name are asked to
/// be removed, in its order, by the paths under which they were found. The task
/// succeeds whether or not they could be. The report names them as they are seen
/// from the current directory, which is by the same paths where the directory is
/// named by an absolute one.
pub proof fn ensure_removes_what_the_report_names<E>(
    path: Seq<u8>,
    cwd: Seq<u8>,
    policy: EvictPolicy,
    nodes: Seq<Node>,
    now: int,
    verdicts: Seq<AnswerView<E>>,
)
    requires
        verdicts.len() == evicted_paths(files_in(nodes), now, policy).len(),
        are_verdicts(verdicts),
    ensures
        ({
            let named = evicted_paths(files_in(nodes), now, policy);
            let start = EnsureView::<E>::Creating(path, Some(policy));
            let looked = select_answers::<E>(nodes, now, policy);
            let answers = seq![AnswerView::Done] + looked + verdicts;
            &&& ensure_machine::<E>().run(start, answers) == EnsureView::<E>::Finished(Ok(path))
            &&& ensure_machine::<E>().takes_all(start, answers)
            &&& ensure_machine::<E>().asks(start, answers) == seq![RequestView::CreateDirAll(path)]
                + select_machine::<E>().asks(select_start::<E>(path, policy), looked) + removals(
                named,
            )
            &&& report_machine::<E>().run(
                report_start::<E>(path, policy),
                report_answers::<E>(cwd, nodes, now, policy),
            ) == ReportView::<E>::Finished(Ok(resolved_paths(cwd, named)))
            &&& is_absolute(path) && are_listed_under(path, nodes) ==> resolved_paths(cwd, named)
                == named
        }),
{
    let m = ensure_machine::<E>();
    let found = files_in(nodes);
    let named = evicted_paths(found, now, policy);
    let start = EnsureView::<E>::Creating(path, Some(policy));
    let looked = select_answers::<E>(nodes, now, policy);
    let first = seq![AnswerView::<E>::Done];
    let select = select_start::<E>(path, policy);
    m.lemma_run_one(start, AnswerView::Done);
    m.lemma_run_add(start, first, looked);
    m.lemma_run_add(start, first + looked, verdicts);
    selection_is_from_every_file::<E>(path, nodes, now, policy);
    assert(after_selection(path, select) == EnsureView::Selecting(path, select));
    lemma_ensure_follows_select::<E>(path, select, looked);
    lemma_removal::<E>(path, named, verdicts);
    report_names_the_selected_files::<E>(path, cwd, nodes, now, policy);
    if is_absolute(path) && are_listed_under(path, nodes) {
        assert forall|i: int| 0 <= i < found.len() implies is_under(
            #[trigger] found[i].path,
            path,
        ) by {
            found_files_lie_under_directory(path, nodes, i);
        }
        evictions_stay_in_group(path, found, now, policy);
        assert forall|i: int| 0 <= i < named.len() implies resolved(cwd, #[trigger] named[i])
            == named[i] by {
            under_absolute_is_absolute(named[i], path);
        }
        assert(resolved_paths(cwd, named) =~= named);
    }
}

/// A failure to create the directory or to look at it ends the task, and is what
/// it ends with.
pub proof fn ensure_ends_at_first_failure<E>(s: EnsureView<E>, e: E)
    requires
        ensure_request(s) matches Some(request) && (request is CreateDirAll || request is OpenDir
            || request is NextEntry),
    ensures
        ensure_next(s, AnswerView::Failed(e)) == EnsureView::<E>::Finished(Err(e)),
{
}

/// Nothing else makes the task fail: not a file that cannot be removed, and not
/// the current directory, which is never asked for.
pub proof fn ensure_fails_only_when_creating_or_looking_fails<E>(
    s: EnsureView<E>,
    answer: AnswerView<E>,
    e: E,
)
    requires
        ensure_request(s) is Some,
        ensure_next(s, answer) == EnsureView::<E>::Finished(Err(e)),
    ensures
        answer == AnswerView::Failed(e),
        ensure_request(s) matches Some(request) && (request is CreateDirAll || request is OpenDir
            || request is NextEntry),
{
}

/// Touching an entry that need not be looked for.
proof fn lemma_touch_located<E>(path: Seq<u8>, now: int)
    ensures
        ({
            let start = located::<E>(path);
            let answers = opening_answers::<E>(path, now);
            &&& touch_machine::<E>().run(start, answers) == TouchView::<E>::Finished(Ok(path))
            &&& touch_machine::<E>().takes_all(start, answers)
            &&& touch_machine::<E>().asks(start, answers) == opening_requests(path, now)
        }),
{
    let m = touch_machine::<E>();
    let s = TouchView::<E>::Opening(path);
    let done = AnswerView::<E>::Done;
    let time = AnswerView::<E>::Now(now);
    m.lemma_run_one(s, done);
    m.lemma_run_one(TouchView::Timing(path), time);
    m.lemma_run_one(TouchView::Updating(path, now), done);
    m.lemma_run_add(s, seq![done], seq![time]);
    m.lemma_run_add(s, seq![done] + seq![time], seq![done]);
    assert(seq![done] + seq![time] + seq![done] =~= seq![done, time, done]);
    let last = seq![done, time, done];
    match parent(path) {
        Some(_) => {
            m.lemma_run_one(located::<E>(path), done);
            m.lemma_run_add(located::<E>(path), seq![done], last);
        },
        None => {
            assert(opening_answers::<E>(path, now) =~= last);
        },
    }
    assert(m.asks(located::<E>(path), opening_answers::<E>(path, now)) =~= opening_requests(
        path,
        now,
    ));
}

/// Touching an entry asks for the directory that holds it to be created, then
/// for the entry to be opened, then for its modification time to be set to the
/// time of the clock, and for nothing else; a relative path is first resolved
/// against the current directory. The task ends with the path of the entry,
/// which is absolute where the current directory is.
pub proof fn touch_creates_directories_then_entry<E>(entry: Seq<u8>, cwd: Seq<u8>, now: int)
    ensures
        ({
            let start = touch_start::<E>(entry);
            let answers = touch_answers::<E>(entry, cwd, now);
            &&& touch_machine::<E>().run(start, answers) == TouchView::<E>::Finished(
                Ok(resolved(cwd, entry)),
            )
            &&& touch_machine::<E>().takes_all(start, answers)
            &&& touch_machine::<E>().asks(start, answers) == touch_requests(entry, cwd, now)
        }),
        is_absolute(cwd) && entry.len() > 0 ==> is_absolute(resolved(cwd, entry)),
{
    let m = touch_machine::<E>();
    let start = touch_start::<E>(entry);
    let path = resolved(cwd, entry);
    lemma_touch_located::<E>(path, now);
    if needs_current_dir(entry) {
        m.lemma_run_one(start, AnswerView::Path(cwd));
        m.lemma_run_add(start, seq![AnswerView::Path(cwd)], opening_answers::<E>(path, now));
    }
}

/// Touching an entry in the group of a thread creates the directory of the group
/// and then the entry, and ends with the path that is planned for it, which lies
/// under the group and with it under the directory of the process. Where that
/// directory is named by an absolute path, the entry is touched as any other.
pub proof fn touched_thread_entry_is_as_planned<E>(
    process: Seq<u8>,
    thread_id: int,
    relative_file: Seq<u8>,
    cwd: Seq<u8>,
    now: int,
)
    requires
        thread_id >= 0,
    ensures
        ({
            let group = thread_group_path(process, thread_id);
            let entry = join(group, relative_file);
            let start = TouchView::<E>::Preparing(group, entry);
            let answers = seq![AnswerView::Done] + opening_answers::<E>(entry, now);
            &&& touch_machine::<E>().run(start, answers) == TouchView::<E>::Finished(Ok(entry))
            &&& touch_machine::<E>().takes_all(start, answers)
            &&& touch_machine::<E>().asks(start, answers) == seq![RequestView::CreateDirAll(group)]
                + opening_requests(entry, now)
            &&& !is_absolute(relative_file) ==> is_under(entry, group) && is_under(entry, process)
            &&& is_absolute(process) ==> opening_answers::<E>(entry, now) == touch_answers::<E>(
                entry,
                cwd,
                now,
            )
        }),
{
    let m = touch_machine::<E>();
    let group = thread_group_path(process, thread_id);
    let entry = join(group, relative_file);
    let start = TouchView::<E>::Preparing(group, entry);
    m.lemma_run_one(start, AnswerView::Done);
    m.lemma_run_add(start, seq![AnswerView::Done], opening_answers::<E>(entry, now));
    lemma_touch_located::<E>(entry, now);
    if !is_absolute(relative_file) {
        assert(components(process).take(components(process).len() as int) =~= components(process));
        thread_entries_lie_under_process(process, process, thread_id, relative_file);
    }
}

/// Touching an entry succeeds only when it was asked to set the modification time
/// of the entry, and that was done.
pub proof fn touch_succeeds_only_after_update<E>(
    s: TouchView<E>,
    answer: AnswerView<E>,
    path: Seq<u8>,
)
    requires
        s !is Finished,
        touch_next(s, answer) == TouchView::<E>::Finished(Ok(path)),
    ensures
        touch_request(s) matches Some(RequestView::SetModified(file, _)) && file == path,
        answer is Done,
{
}

/// The first failure ends the touching of an entry, and is what it ends with.
pub proof fn touch_ends_at_first_failure<E>(s: TouchView<E>, e: E)
    requires
        touch_request(s) matches Some(request) && request !is ReadClock,
    ensures
        touch_next(s, AnswerView::Failed(e)) == TouchView::<E>::Finished(Err(e)),
{
}

/// Making the group of a process asks for the base group to be created and then
/// for a fresh directory in it, and ends with the directory that was created.
pub proof fn scope_creates_base_then_directory<E>(base: Seq<u8>, prefix: Seq<u8>, dir: Seq<u8>)
    ensures
        ({
            let start = ScopeView::<E>::Creating(base, prefix);
            let answers = seq![AnswerView::Done, AnswerView::Path(dir)];
            &&& scope_machine::<E>().run(start, answers) == ScopeView::<E>::Finished(Ok(dir))
            &&& scope_machine::<E>().takes_all(start, answers)
            &&& scope_machine::<E>().asks(start, answers) == seq![
                RequestView::CreateDirAll(base),
                RequestView::CreateTempDir(base, prefix),
            ]
        }),
{
    let m = scope_machine::<E>();
    let start = ScopeView::<E>::Creating(base, prefix);
    let one = AnswerView::<E>::Done;
    let two = AnswerView::<E>::Path(dir);
    m.lemma_run_one(start, one);
    m.lemma_run_one(ScopeView::Naming(base, prefix), two);
    m.lemma_run_add(start, seq![one], seq![two]);
    assert(seq![one] + seq![two] =~= seq![one, two]);
}

/// The first failure ends the making of the group of a process, and is what it
/// ends with.
pub proof fn scope_ends_at_first_failure<E>(s: ScopeView<E>, e: E)
    requires
        scope_request(s) is Some,
    ensures
        scope_next(s, AnswerView::Failed(e)) == ScopeView::<E>::Finished(Err(e)),
{
}

}
