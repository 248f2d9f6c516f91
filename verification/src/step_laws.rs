//! What each answer of the operating system does to an operation, and what the
//! operation asks for, in terms of the paths, times and sizes involved.
use crate::disk::{AnswerView, DirEntryView, RequestView};
use crate::ensure::{ensure_next, ensure_request, EnsureView};
use crate::entries::FileRecord;
use crate::evict::{evicted, EvictPolicy};
use crate::evict_laws::time_matters_only_for_age;
use crate::path::{join, needs_current_dir, parent};
use crate::process::{scope_next, scope_request, ScopeView};
use crate::report::{
    report_next, report_request, report_start, some_need_current_dir, ReportView,
};
use crate::scan::{scan_next, scan_request, scan_start, ScanView};
use crate::scan_laws::{files_in, scan_machine, Node};
use crate::select::{select_next, select_request, select_start, SelectView};
use crate::touch::{touch_next, touch_request, touch_start, TouchView};
use vstd::prelude::*;

verus! {

/// A search starts with the directory itself and with nothing found: it asks to
/// open the directory and then reads it, and no other.
pub proof fn search_starts_at_the_directory<E>(root: Seq<u8>)
    ensures
        scan_request(scan_start::<E>(root)) == Some(RequestView::OpenDir(root)),
        scan_next(scan_start::<E>(root), AnswerView::Done) == (ScanView::<E>::Reading {
            open: seq![root],
            found: seq![],
        }),
{
    assert(Seq::<Seq<u8>>::empty().push(root) =~= seq![root]);
}

/// A regular file that is read is found with the path, the size and the
/// modification time that it was told with, the epoch where none was told. What
/// was found before stays, and reading goes on in the same directory.
pub proof fn search_records_a_file_as_it_is_told<E>(
    open: Seq<Seq<u8>>,
    found: Seq<FileRecord>,
    path: Seq<u8>,
    modified: Option<int>,
    len: int,
)
    ensures
        scan_next(
            ScanView::<E>::Reading { open, found },
            AnswerView::Entry(DirEntryView::File(path, modified, len)),
        ) matches ScanView::Reading { open: o, found: f } && {
            &&& o == open
            &&& f.len() == found.len() + 1
            &&& forall|i: int| 0 <= i < found.len() ==> #[trigger] f[i] == found[i]
            &&& f[found.len() as int].path == path
            &&& f[found.len() as int].len == len
            &&& modified matches Some(t) ==> f[found.len() as int].modified == t
            &&& modified is None ==> f[found.len() as int].modified == 0
        },
{
}

/// A directory that is read is opened next, then read, and when it has come to
/// its end the search stands where it stood before: reading an empty directory
/// changes nothing. What was found is kept all along.
pub proof fn search_enters_and_leaves_a_directory<E>(
    open: Seq<Seq<u8>>,
    found: Seq<FileRecord>,
    path: Seq<u8>,
    more: Seq<FileRecord>,
)
    requires
        open.len() > 0,
    ensures
        ({
            let reading = ScanView::<E>::Reading { open, found };
            let entered = scan_next(reading, AnswerView::Entry(DirEntryView::Dir(path)));
            let opened = scan_next(entered, AnswerView::Done);
            &&& scan_request(reading) == Some(RequestView::NextEntry(open[open.len() - 1]))
            &&& scan_request(entered) == Some(RequestView::OpenDir(path))
            &&& scan_request(opened) == Some(RequestView::NextEntry(path))
            &&& opened == (ScanView::<E>::Reading { open: open.push(path), found })
            &&& scan_next(opened, AnswerView::End) == reading
            &&& scan_next(
                ScanView::<E>::Reading { open: open.push(path), found: more },
                AnswerView::End,
            ) == (ScanView::<E>::Reading { open, found: more })
        }),
{
    assert(open.push(path).drop_last() =~= open);
}

/// A search ends at the end of the outermost directory, with all that was found,
/// and at the first failure, with what went wrong. What is neither a file nor a
/// directory is passed over, and an answer that does not fit changes nothing.
pub proof fn search_ends_with_what_was_found<E>(
    dir: Seq<u8>,
    open: Seq<Seq<u8>>,
    found: Seq<FileRecord>,
    e: E,
    answer: AnswerView<E>,
)
    ensures
        scan_next(ScanView::<E>::Reading { open: seq![dir], found }, AnswerView::End)
            == ScanView::<E>::Finished(Ok(found)),
        scan_request(ScanView::<E>::Finished(Ok(found))) is None,
        scan_request(ScanView::<E>::Finished(Err(e))) is None,
        scan_next(ScanView::<E>::Finished(Ok(found)), answer) == ScanView::<E>::Finished(Ok(found)),
        scan_next(ScanView::<E>::Finished(Err(e)), answer) == ScanView::<E>::Finished(Err(e)),
        scan_next(ScanView::<E>::Reading { open, found }, AnswerView::Entry(DirEntryView::Other))
            == (ScanView::<E>::Reading { open, found }),
        scan_next(ScanView::<E>::Reading { open, found }, AnswerView::Failed(e)) == ScanView::<
            E,
        >::Finished(Err(e)),
        scan_next(ScanView::<E>::Opening { dir, open, found }, AnswerView::Failed(e))
            == ScanView::<E>::Finished(Err(e)),
        answer !is Done && answer !is Failed ==> scan_next(
            ScanView::<E>::Opening { dir, open, found },
            answer,
        ) == (ScanView::<E>::Opening { dir, open, found }),
        answer !is Entry && answer !is End && answer !is Failed ==> scan_next(
            ScanView::<E>::Reading { open, found },
            answer,
        ) == (ScanView::<E>::Reading { open, found }),
{
}

/// The answers of a directory that holds these files: a search in it finds each
/// of them, in order, with its path, its time and its size.
pub proof fn search_finds_the_files_of_a_directory<E>(
    root: Seq<u8>,
    paths: Seq<Seq<u8>>,
    times: Seq<int>,
    sizes: Seq<int>,
)
    requires
        paths.len() == times.len() == sizes.len(),
    ensures
        scan_machine::<E>().run(
            scan_start::<E>(root),
            seq![AnswerView::Done] + Seq::new(
                paths.len(),
                |i: int|
                    AnswerView::<E>::Entry(
                        DirEntryView::File(paths[i], Some(times[i]), sizes[i]),
                    ),
            ) + seq![AnswerView::End],
        ) == ScanView::<E>::Finished(
            Ok(
                Seq::new(
                    paths.len(),
                    |i: int| FileRecord { path: paths[i], modified: times[i], len: sizes[i] },
                ),
            ),
        ),
{
    let m = scan_machine::<E>();
    let s = scan_start::<E>(root);
    let told = Seq::new(
        paths.len(),
        |i: int| AnswerView::<E>::Entry(DirEntryView::File(paths[i], Some(times[i]), sizes[i])),
    );
    let files = Seq::new(
        paths.len(),
        |i: int| FileRecord { path: paths[i], modified: times[i], len: sizes[i] },
    );
    let first = seq![AnswerView::<E>::Done];
    let last = seq![AnswerView::<E>::End];
    search_starts_at_the_directory::<E>(root);
    m.lemma_run_one(s, AnswerView::Done);
    m.lemma_run_add(s, first, told);
    m.lemma_run_add(s, first + told, last);
    lemma_files_are_recorded::<E>(seq![root], paths, times, sizes, paths.len());
    assert(told.take(paths.len() as int) =~= told);
    assert(files.take(paths.len() as int) =~= files);
    m.lemma_run_one(ScanView::Reading { open: seq![root], found: files }, AnswerView::End);
}

proof fn lemma_files_are_recorded<E>(
    open: Seq<Seq<u8>>,
    paths: Seq<Seq<u8>>,
    times: Seq<int>,
    sizes: Seq<int>,
    n: nat,
)
    requires
        paths.len() == times.len() == sizes.len(),
        n <= paths.len(),
    ensures
        ({
            let told = Seq::new(
                paths.len(),
                |i: int|
                    AnswerView::<E>::Entry(DirEntryView::File(paths[i], Some(times[i]), sizes[i])),
            );
            let files = Seq::new(
                paths.len(),
                |i: int| FileRecord { path: paths[i], modified: times[i], len: sizes[i] },
            );
            scan_machine::<E>().run(
                ScanView::Reading { open, found: seq![] },
                told.take(n as int),
            ) == (ScanView::<E>::Reading { open, found: files.take(n as int) })
        }),
    decreases n,
{
    let m = scan_machine::<E>();
    let told = Seq::new(
        paths.len(),
        |i: int| AnswerView::<E>::Entry(DirEntryView::File(paths[i], Some(times[i]), sizes[i])),
    );
    let files = Seq::new(
        paths.len(),
        |i: int| FileRecord { path: paths[i], modified: times[i], len: sizes[i] },
    );
    let s = ScanView::<E>::Reading { open, found: seq![] };
    if n > 0 {
        let k = n - 1;
        let before = ScanView::<E>::Reading { open, found: files.take(k) };
        lemma_files_are_recorded::<E>(open, paths, times, sizes, k as nat);
        assert(told.take(n as int) =~= told.take(k) + seq![told[k]]);
        m.lemma_run_add(s, told.take(k), seq![told[k]]);
        m.lemma_run_one(before, told[k]);
        assert(files.take(n as int) =~= files.take(k).push(files[k]));
    } else {
        assert(told.take(0) =~= seq![]);
        assert(files.take(0) =~= seq![]);
    }
}

/// The regular files of a list of nodes are those of its parts, in order: a file
/// with what it is told to be, the files in a directory, and nothing else.
pub proof fn files_are_those_of_the_parts(
    nodes: Seq<Node>,
    path: Seq<u8>,
    modified: int,
    len: int,
    inner: Seq<Node>,
)
    ensures
        files_in(seq![]) == Seq::<FileRecord>::empty(),
        files_in(seq![Node::File(path, Some(modified), len)] + nodes) == seq![
            FileRecord { path, modified, len },
        ] + files_in(nodes),
        files_in(seq![Node::File(path, None, len)] + nodes) == seq![
            FileRecord { path, modified: 0, len },
        ] + files_in(nodes),
        files_in(seq![Node::Dir(path, inner)] + nodes) == files_in(inner) + files_in(nodes),
        files_in(seq![Node::Other] + nodes) == files_in(nodes),
{
    assert((seq![Node::File(path, Some(modified), len)] + nodes).drop_first() =~= nodes);
    assert((seq![Node::File(path, None, len)] + nodes).drop_first() =~= nodes);
    assert((seq![Node::Dir(path, inner)] + nodes).drop_first() =~= nodes);
    assert((seq![Node::Other] + nodes).drop_first() =~= nodes);
}

/// A report on a directory and the eviction from it, under the same policy, start
/// with one and the same selection: under that directory, with nothing found
/// yet, and with every limit of the policy.
pub proof fn report_and_eviction_select_alike<E>(root: Seq<u8>, policy: EvictPolicy)
    ensures
        ({
            let start = SelectView::<E>::Scanning(
                policy,
                ScanView::Opening { dir: root, open: seq![], found: seq![] },
            );
            &&& select_start::<E>(root, policy) == start
            &&& report_start::<E>(root, policy) == ReportView::<E>::Selecting(start)
            &&& ensure_next(
                EnsureView::<E>::Creating(root, Some(policy)),
                AnswerView::Done,
            ) == EnsureView::<E>::Selecting(root, start)
        }),
{
}

/// A selection searches, and it ends with the paths of the files that the policy
/// evicts from those found, in the order of eviction. The clock is read where
/// there is an age limit; where there is none, any time gives the same files.
pub proof fn selection_ends_with_what_the_policy_evicts<E>(
    policy: EvictPolicy,
    scan: ScanView<E>,
    answer: AnswerView<E>,
    found: Seq<FileRecord>,
    now: int,
    i: int,
)
    requires
        scan_next(scan, answer) == ScanView::<E>::Finished(Ok(found)),
    ensures
        ({
            let next = select_next(SelectView::<E>::Scanning(policy, scan), answer);
            let gone = evicted(found, now, policy);
            let end = if policy.max_age is Some {
                select_next(next, AnswerView::Now(now))
            } else {
                next
            };
            &&& policy.max_age is Some ==> select_request(next) == Some(RequestView::ReadClock)
            &&& end matches SelectView::Finished(Ok(paths)) && paths.len() == gone.len() && (0 <= i
                < gone.len() ==> paths[i] == gone[i].path)
        }),
{
    if policy.max_age is None {
        time_matters_only_for_age(found, 0, now, policy);
    }
}

/// While its search goes on, a selection asks for what the search asks for and
/// keeps its policy; where the search fails, it fails alike.
pub proof fn selection_goes_on_with_its_search<E>(
    policy: EvictPolicy,
    scan: ScanView<E>,
    answer: AnswerView<E>,
    found: Seq<FileRecord>,
    e: E,
)
    ensures
        select_request(SelectView::<E>::Scanning(policy, scan)) == scan_request(scan),
        scan_next(scan, answer) !is Finished ==> select_next(
            SelectView::<E>::Scanning(policy, scan),
            answer,
        ) == SelectView::<E>::Scanning(policy, scan_next(scan, answer)),
        scan_next(scan, answer) == ScanView::<E>::Finished(Err(e)) ==> select_next(
            SelectView::<E>::Scanning(policy, scan),
            answer,
        ) == SelectView::<E>::Finished(Err(e)),
        select_request(SelectView::<E>::Timing(policy, found)) == Some(RequestView::ReadClock),
        answer !is Now ==> select_next(SelectView::<E>::Timing(policy, found), answer)
            == SelectView::<E>::Timing(policy, found),
        select_request(SelectView::<E>::Finished(Err(e))) is None,
        select_next(SelectView::<E>::Finished(Err(e)), answer) == SelectView::<E>::Finished(Err(e)),
{
}

/// A selection that has ended stays as it is.
pub proof fn finished_selection_stays<E>(paths: Seq<Seq<u8>>, answer: AnswerView<E>)
    ensures
        select_request(SelectView::<E>::Finished(Ok(paths))) is None,
        select_next(SelectView::<E>::Finished(Ok(paths)), answer) == SelectView::<E>::Finished(
            Ok(paths),
        ),
{
}

/// A report names every file that was selected, in the same order: by its path,
/// where that is absolute, and else by the current directory joined with its
/// path.
pub proof fn report_names_each_selected_file<E>(
    select: SelectView<E>,
    answer: AnswerView<E>,
    paths: Seq<Seq<u8>>,
    cwd: Seq<u8>,
    i: int,
)
    requires
        select_next(select, answer) == SelectView::<E>::Finished(Ok(paths)),
    ensures
        ({
            let next = report_next(ReportView::<E>::Selecting(select), answer);
            let some_relative = exists|k: int|
                0 <= k < paths.len() && (#[trigger] paths[k]).len() > 0 && paths[k][0] != 47u8;
            let end = if some_relative {
                report_next(next, AnswerView::Path(cwd))
            } else {
                next
            };
            &&& some_relative ==> report_request(next) == Some(RequestView::CurrentDir)
            &&& end matches ReportView::Finished(Ok(named)) && named.len() == paths.len() && (0 <= i
                < paths.len() ==> named[i] == (if paths[i].len() > 0 && paths[i][0] != 47u8 {
                join(cwd, paths[i])
            } else {
                paths[i]
            }))
        }),
{
    assert((exists|k: int|
        0 <= k < paths.len() && (#[trigger] paths[k]).len() > 0 && paths[k][0] != 47u8)
        <==> some_need_current_dir(paths)) by {
        if some_need_current_dir(paths) {
            let k = choose|k: int| 0 <= k < paths.len() && needs_current_dir(#[trigger] paths[k]);
            assert(paths[k].len() > 0 && paths[k][0] != 47u8);
        }
    }
}

/// While its selection goes on, a report asks for what the selection asks for;
/// where the selection or the current directory fails, it fails alike, and an
/// answer that does not fit changes nothing.
pub proof fn report_goes_on_with_its_selection<E>(
    select: SelectView<E>,
    answer: AnswerView<E>,
    paths: Seq<Seq<u8>>,
    e: E,
)
    ensures
        report_request(ReportView::<E>::Selecting(select)) == select_request(select),
        select_next(select, answer) !is Finished ==> report_next(
            ReportView::<E>::Selecting(select),
            answer,
        ) == ReportView::<E>::Selecting(select_next(select, answer)),
        select_next(select, answer) == SelectView::<E>::Finished(Err(e)) ==> report_next(
            ReportView::<E>::Selecting(select),
            answer,
        ) == ReportView::<E>::Finished(Err(e)),
        report_request(ReportView::<E>::Locating(paths)) == Some(RequestView::CurrentDir),
        report_next(ReportView::<E>::Locating(paths), AnswerView::Failed(e)) == ReportView::<
            E,
        >::Finished(Err(e)),
        answer !is Path && answer !is Failed ==> report_next(
            ReportView::<E>::Locating(paths),
            answer,
        ) == ReportView::<E>::Locating(paths),
        report_request(ReportView::<E>::Finished(Ok(paths))) is None,
        report_request(ReportView::<E>::Finished(Err(e))) is None,
        report_next(ReportView::<E>::Finished(Ok(paths)), answer) == ReportView::<E>::Finished(
            Ok(paths),
        ),
        report_next(ReportView::<E>::Finished(Err(e)), answer) == ReportView::<E>::Finished(Err(e)),
{
}

/// The directory itself is created first; without a policy that is all, and the
/// task ends with the directory.
pub proof fn directory_is_created_first<E>(
    path: Seq<u8>,
    policy: Option<EvictPolicy>,
    e: E,
    answer: AnswerView<E>,
)
    ensures
        ensure_request(EnsureView::<E>::Creating(path, policy)) == Some(
            RequestView::CreateDirAll(path),
        ),
        ensure_next(EnsureView::<E>::Creating(path, None), AnswerView::Done) == EnsureView::<
            E,
        >::Finished(Ok(path)),
        ensure_next(EnsureView::<E>::Creating(path, policy), AnswerView::Failed(e)) == EnsureView::<
            E,
        >::Finished(Err(e)),
        answer !is Done && answer !is Failed ==> ensure_next(
            EnsureView::<E>::Creating(path, policy),
            answer,
        ) == EnsureView::<E>::Creating(path, policy),
{
}

/// When the files to evict are selected, the first of them is to be removed, and
/// the rest after it; where there are none, the task has ended with the
/// directory. Until then the task asks for what the selection asks for.
pub proof fn eviction_goes_on_with_its_selection<E>(
    path: Seq<u8>,
    select: SelectView<E>,
    answer: AnswerView<E>,
    files: Seq<Seq<u8>>,
    e: E,
)
    ensures
        ({
            let s = EnsureView::<E>::Selecting(path, select);
            let next = select_next(select, answer);
            &&& ensure_request(s) == select_request(select)
            &&& next !is Finished ==> ensure_next(s, answer) == EnsureView::<E>::Selecting(
                path,
                next,
            )
            &&& next == SelectView::<E>::Finished(Err(e)) ==> ensure_next(s, answer)
                == EnsureView::<E>::Finished(Err(e))
            &&& next == SelectView::<E>::Finished(Ok(files)) && files.len() > 0 ==> ensure_next(
                s,
                answer,
            ) == EnsureView::<E>::Removing(path, files)
            &&& next == SelectView::<E>::Finished(Ok(files)) && files.len() == 0 ==> ensure_next(
                s,
                answer,
            ) == EnsureView::<E>::Finished(Ok(path))
        }),
{
}

/// The first of the files that are left is asked to be removed. Whether or not it
/// could be, the others are left after it, in order, and when none is left the
/// task has ended with the directory.
pub proof fn selected_files_are_removed_one_by_one<E>(
    path: Seq<u8>,
    file: Seq<u8>,
    others: Seq<Seq<u8>>,
    answer: AnswerView<E>,
)
    requires
        answer is Done || answer is Failed,
    ensures
        ({
            let s = EnsureView::<E>::Removing(path, seq![file] + others);
            &&& ensure_request(s) == Some(RequestView::RemoveFile(file))
            &&& others.len() > 0 ==> ensure_next(s, answer) == EnsureView::<E>::Removing(
                path,
                others,
            )
            &&& others.len() == 0 ==> ensure_next(s, answer) == EnsureView::<E>::Finished(Ok(path))
        }),
{
    assert((seq![file] + others).drop_first() =~= others);
}

/// An answer that does not fit changes nothing, and a task that has ended stays
/// as it is.
pub proof fn eviction_keeps_its_place<E>(
    path: Seq<u8>,
    files: Seq<Seq<u8>>,
    e: E,
    answer: AnswerView<E>,
)
    ensures
        answer !is Done && answer !is Failed ==> ensure_next(
            EnsureView::<E>::Removing(path, files),
            answer,
        ) == EnsureView::<E>::Removing(path, files),
        ensure_request(EnsureView::<E>::Finished(Ok(path))) is None,
        ensure_request(EnsureView::<E>::Finished(Err(e))) is None,
        ensure_next(EnsureView::<E>::Finished(Ok(path)), answer) == EnsureView::<E>::Finished(
            Ok(path),
        ),
        ensure_next(EnsureView::<E>::Finished(Err(e)), answer) == EnsureView::<E>::Finished(Err(e)),
{
}

/// Touching an entry takes its path where that is empty or absolute, and the
/// current directory joined with it otherwise. It creates the directory that is
/// the parent of that path, opens the path, sets its modification time to the
/// time of the clock, and ends with the path.
pub proof fn touch_opens_and_updates_the_entry<E>(entry: Seq<u8>, cwd: Seq<u8>, now: int)
    ensures
        ({
            let relative = entry.len() > 0 && entry[0] != 47u8;
            let path = if relative {
                join(cwd, entry)
            } else {
                entry
            };
            let start = touch_start::<E>(entry);
            let found = if relative {
                touch_next(start, AnswerView::Path(cwd))
            } else {
                start
            };
            let ready = if parent(path) is Some {
                touch_next(found, AnswerView::Done)
            } else {
                found
            };
            let opened = touch_next(ready, AnswerView::Done);
            let timed = touch_next(opened, AnswerView::Now(now));
            &&& relative ==> touch_request(start) == Some(RequestView::CurrentDir)
            &&& parent(path) matches Some(dir) ==> touch_request(found) == Some(
                RequestView::CreateDirAll(dir),
            )
            &&& touch_request(ready) == Some(RequestView::OpenAppend(path))
            &&& touch_request(opened) == Some(RequestView::ReadClock)
            &&& touch_request(timed) == Some(RequestView::SetModified(path, now))
            &&& touch_next(timed, AnswerView::Done) == TouchView::<E>::Finished(Ok(path))
        }),
{
}

/// Where another directory is to be created first, it is, and then the entry is
/// touched by the path that it has, as one that is not relative.
pub proof fn touch_creates_the_given_directory_first<E>(dir: Seq<u8>, entry: Seq<u8>, now: int)
    ensures
        ({
            let start = TouchView::<E>::Preparing(dir, entry);
            let prepared = touch_next(start, AnswerView::Done);
            let ready = if parent(entry) is Some {
                touch_next(prepared, AnswerView::Done)
            } else {
                prepared
            };
            let opened = touch_next(ready, AnswerView::Done);
            let timed = touch_next(opened, AnswerView::Now(now));
            &&& touch_request(start) == Some(RequestView::CreateDirAll(dir))
            &&& parent(entry) matches Some(above) ==> touch_request(prepared) == Some(
                RequestView::CreateDirAll(above),
            )
            &&& touch_request(ready) == Some(RequestView::OpenAppend(entry))
            &&& touch_request(opened) == Some(RequestView::ReadClock)
            &&& touch_request(timed) == Some(RequestView::SetModified(entry, now))
            &&& touch_next(timed, AnswerView::Done) == TouchView::<E>::Finished(Ok(entry))
        }),
{
}

/// An answer that does not fit changes nothing while an entry is touched, and a
/// task that has ended stays as it is.
pub proof fn touch_keeps_its_place<E>(
    s: TouchView<E>,
    entry: Seq<u8>,
    e: E,
    answer: AnswerView<E>,
)
    ensures
        touch_request(s) matches Some(request) && match request {
            RequestView::CurrentDir => answer !is Path && answer !is Failed,
            RequestView::ReadClock => answer !is Now,
            _ => answer !is Done && answer !is Failed,
        } ==> touch_next(s, answer) == s,
        touch_request(TouchView::<E>::Finished(Ok(entry))) is None,
        touch_request(TouchView::<E>::Finished(Err(e))) is None,
        touch_next(TouchView::<E>::Finished(Ok(entry)), answer) == TouchView::<E>::Finished(
            Ok(entry),
        ),
        touch_next(TouchView::<E>::Finished(Err(e)), answer) == TouchView::<E>::Finished(Err(e)),
{
}

/// The group of a process is made by creating the base group and then a
/// directory in it whose name starts with the prefix; it is the directory that
/// was made. An answer that does not fit changes nothing.
pub proof fn process_group_is_made_in_its_base<E>(
    base: Seq<u8>,
    prefix: Seq<u8>,
    dir: Seq<u8>,
    e: E,
    answer: AnswerView<E>,
)
    ensures
        ({
            let start = ScopeView::<E>::Creating(base, prefix);
            let named = scope_next(start, AnswerView::Done);
            &&& scope_request(start) == Some(RequestView::CreateDirAll(base))
            &&& scope_request(named) == Some(RequestView::CreateTempDir(base, prefix))
            &&& scope_next(named, AnswerView::Path(dir)) == ScopeView::<E>::Finished(Ok(dir))
            &&& scope_next(start, AnswerView::Failed(e)) == ScopeView::<E>::Finished(Err(e))
            &&& scope_next(named, AnswerView::Failed(e)) == ScopeView::<E>::Finished(Err(e))
            &&& answer !is Done && answer !is Failed ==> scope_next(start, answer) == start
            &&& answer !is Path && answer !is Failed ==> scope_next(named, answer) == named
            &&& scope_request(ScopeView::<E>::Finished(Ok(dir))) is None
            &&& scope_request(ScopeView::<E>::Finished(Err(e))) is None
            &&& scope_next(ScopeView::<E>::Finished(Ok(dir)), answer) == ScopeView::<E>::Finished(
                Ok(dir),
            )
            &&& scope_next(ScopeView::<E>::Finished(Err(e)), answer) == ScopeView::<E>::Finished(
                Err(e),
            )
        }),
{
}

}
