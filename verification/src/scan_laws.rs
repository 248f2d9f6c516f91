//! A search finds exactly the regular files of a directory tree.
use crate::disk::{AnswerView, DirEntryView, RequestView};
use crate::entries::FileRecord;
use crate::machine::Machine;
use crate::path_laws::{is_under, is_under_is_transitive};
use crate::scan::{found_file, scan_next, scan_request, scan_start, ScanView};
use vstd::prelude::*;

verus! {

/// Something that stands in a directory.
pub enum Node {
    /// A regular file: its path, its modification time and its size.
    File(Seq<u8>, Option<int>, int),
    /// A directory: its path and what stands in it, in the order of reading.
    Dir(Seq<u8>, Seq<Node>),
    /// Anything else.
    Other,
}

/// The regular files among `nodes` and in the directories among them, depth
/// first.
pub open spec fn files_in(nodes: Seq<Node>) -> Seq<FileRecord>
    decreases nodes,
{
    if nodes.len() == 0 {
        seq![]
    } else {
        let rest = files_in(nodes.drop_first());
        match nodes[0] {
            Node::File(path, modified, len) => seq![found_file(path, modified, len)] + rest,
            Node::Dir(_, inner) => files_in(inner) + rest,
            Node::Other => rest,
        }
    }
}

/// Whether each of `nodes` is named by a path under `dir`, and what stands in a
/// directory among them by a path under that directory.
pub open spec fn are_listed_under(dir: Seq<u8>, nodes: Seq<Node>) -> bool
    decreases nodes,
{
    nodes.len() > 0 ==> {
        &&& are_listed_under(dir, nodes.drop_first())
        &&& match nodes[0] {
            Node::File(path, _, _) => is_under(path, dir),
            Node::Dir(path, inner) => is_under(path, dir) && are_listed_under(path, inner),
            Node::Other => true,
        }
    }
}

/// The answers of the operating system while a directory that holds `nodes` is
/// read to its end.
pub open spec fn answers_for<E>(nodes: Seq<Node>) -> Seq<AnswerView<E>>
    decreases nodes,
{
    if nodes.len() == 0 {
        seq![AnswerView::End]
    } else {
        let rest = answers_for(nodes.drop_first());
        match nodes[0] {
            Node::File(path, modified, len) => seq![
                AnswerView::Entry(DirEntryView::File(path, modified, len)),
            ] + rest,
            Node::Dir(path, inner) => seq![
                AnswerView::Entry(DirEntryView::Dir(path)),
                AnswerView::Done,
            ] + answers_for(inner) + rest,
            Node::Other => seq![AnswerView::Entry(DirEntryView::Other)] + rest,
        }
    }
}

/// What is asked for while the directory `dir`, which holds `nodes`, is read to
/// its end.
pub open spec fn requests_for(dir: Seq<u8>, nodes: Seq<Node>) -> Seq<RequestView>
    decreases nodes,
{
    let first = seq![RequestView::NextEntry(dir)];
    if nodes.len() == 0 {
        first
    } else {
        let rest = requests_for(dir, nodes.drop_first());
        match nodes[0] {
            Node::Dir(path, inner) => first + seq![RequestView::OpenDir(path)] + requests_for(
                path,
                inner,
            ) + rest,
            _ => first + rest,
        }
    }
}

/// The state machine of a search.
pub open spec fn scan_machine<E>() -> Machine<ScanView<E>, E> {
    Machine {
        next: |s: ScanView<E>, answer: AnswerView<E>| scan_next(s, answer),
        request: |s: ScanView<E>| scan_request(s),
    }
}

/// Where a search stands once the innermost of the directories `open` has been
/// read.
spec fn scan_after<E>(open: Seq<Seq<u8>>, found: Seq<FileRecord>) -> ScanView<E> {
    if open.len() > 1 {
        ScanView::Reading { open: open.drop_last(), found }
    } else {
        ScanView::Finished(Ok(found))
    }
}

/// Reading a directory to its end adds the files under it to those found.
proof fn lemma_scan_dir<E>(open: Seq<Seq<u8>>, found: Seq<FileRecord>, nodes: Seq<Node>)
    requires
        open.len() > 0,
    ensures
        scan_machine::<E>().run(ScanView::Reading { open, found }, answers_for::<E>(nodes))
            == scan_after::<E>(open, found + files_in(nodes)),
        scan_machine::<E>().takes_all(
            ScanView::Reading { open, found },
            answers_for::<E>(nodes),
        ),
        scan_machine::<E>().asks(ScanView::Reading { open, found }, answers_for::<E>(nodes))
            == requests_for(open.last(), nodes),
    decreases nodes,
{
    let m = scan_machine::<E>();
    let s = ScanView::<E>::Reading { open, found };
    if nodes.len() == 0 {
        m.lemma_run_one(s, AnswerView::End);
        assert(found + files_in(nodes) =~= found);
    } else {
        let rest = nodes.drop_first();
        let later = answers_for::<E>(rest);
        match nodes[0] {
            Node::File(path, modified, len) => {
                let one = AnswerView::<E>::Entry(DirEntryView::File(path, modified, len));
                let more = found.push(found_file(path, modified, len));
                m.lemma_run_one(s, one);
                m.lemma_run_add(s, seq![one], later);
                lemma_scan_dir::<E>(open, more, rest);
                assert(more + files_in(rest) =~= found + files_in(nodes));
            },
            Node::Dir(path, inner) => {
                let one = AnswerView::<E>::Entry(DirEntryView::Dir(path));
                let two = AnswerView::<E>::Done;
                let inside = answers_for::<E>(inner);
                let opening = ScanView::<E>::Opening { dir: path, open, found };
                let entered = ScanView::<E>::Reading { open: open.push(path), found };
                m.lemma_run_one(s, one);
                m.lemma_run_one(opening, two);
                m.lemma_run_add(s, seq![one], seq![two]);
                assert(seq![one] + seq![two] =~= seq![one, two]);
                m.lemma_run_add(s, seq![one, two], inside);
                m.lemma_run_add(s, seq![one, two] + inside, later);
                lemma_scan_dir::<E>(open.push(path), found, inner);
                assert(open.push(path).drop_last() =~= open);
                lemma_scan_dir::<E>(open, found + files_in(inner), rest);
                assert(found + files_in(inner) + files_in(rest) =~= found + files_in(nodes));
                assert(open.push(path).last() == path);
            },
            Node::Other => {
                let one = AnswerView::<E>::Entry(DirEntryView::Other);
                m.lemma_run_one(s, one);
                m.lemma_run_add(s, seq![one], later);
                lemma_scan_dir::<E>(open, found, rest);
            },
        }
    }
}

/// A search under a directory that holds `nodes`, and in which nothing fails,
/// ends with exactly the regular files under it, depth first and in the order of
/// reading. It asks to open the directory and those under it, and to read each
/// to its end, and for nothing else.
pub proof fn scan_finds_every_file<E>(root: Seq<u8>, nodes: Seq<Node>)
    ensures
        scan_machine::<E>().run(
            scan_start::<E>(root),
            seq![AnswerView::Done] + answers_for::<E>(nodes),
        ) == ScanView::<E>::Finished(Ok(files_in(nodes))),
        scan_machine::<E>().takes_all(
            scan_start::<E>(root),
            seq![AnswerView::Done] + answers_for::<E>(nodes),
        ),
        scan_machine::<E>().asks(
            scan_start::<E>(root),
            seq![AnswerView::Done] + answers_for::<E>(nodes),
        ) == seq![RequestView::OpenDir(root)] + requests_for(root, nodes),
{
    let m = scan_machine::<E>();
    let s = scan_start::<E>(root);
    m.lemma_run_one(s, AnswerView::Done);
    m.lemma_run_add(s, seq![AnswerView::Done], answers_for::<E>(nodes));
    lemma_scan_dir::<E>(Seq::empty().push(root), seq![], nodes);
    assert(Seq::<FileRecord>::empty() + files_in(nodes) =~= files_in(nodes));
}

/// The first failure ends a search, and is what it ends with.
pub proof fn scan_ends_at_first_failure<E>(s: ScanView<E>, e: E)
    requires
        scan_request(s) is Some,
    ensures
        scan_next(s, AnswerView::Failed(e)) == ScanView::<E>::Finished(Err(e)),
{
}

/// All files under a directory lie under it by their paths, where the operating
/// system names what stands in a directory by paths under it.
pub proof fn found_files_lie_under_directory(dir: Seq<u8>, nodes: Seq<Node>, i: int)
    requires
        are_listed_under(dir, nodes),
        0 <= i < files_in(nodes).len(),
    ensures
        is_under(files_in(nodes)[i].path, dir),
    decreases nodes,
{
    let rest = nodes.drop_first();
    match nodes[0] {
        Node::File(_, _, _) => {
            if i > 0 {
                found_files_lie_under_directory(dir, rest, i - 1);
            }
        },
        Node::Dir(path, inner) => {
            let n = files_in(inner).len();
            if i < n {
                found_files_lie_under_directory(path, inner, i);
                is_under_is_transitive(files_in(nodes)[i].path, path, dir);
            } else {
                found_files_lie_under_directory(dir, rest, i - n);
            }
        },
        Node::Other => {
            found_files_lie_under_directory(dir, rest, i);
        },
    }
}

}
