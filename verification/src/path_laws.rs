//! Laws of joining paths and of dropping the last component.
use crate::path::{
    body_components, body_start, components, has_leading_dot, head_components, is_absolute, join,
    lemma_segment_end, lemma_segment_start, needs_current_dir, parent, resolved,
    segment_component, segment_end, segment_start, trimmed_end, Component, PosixPath, DOT,
    SEPARATOR,
};
use vstd::prelude::*;
use vstd::std_specs::cmp::PartialEqSpec;

verus! {

/// Whether the components of `base` are the first components of `p`.
pub open spec fn is_under(p: Seq<u8>, base: Seq<u8>) -> bool {
    &&& components(base).len() <= components(p).len()
    &&& components(p).take(components(base).len() as int) == components(base)
}

/// The components that `rel` adds to a path it is joined to: its own, without
/// a leading `.`.
pub open spec fn added_components(rel: Seq<u8>) -> Seq<Component> {
    body_components(rel, body_start(rel))
}

proof fn lemma_segment_end_take(p: Seq<u8>, i: int, n: int)
    requires
        0 <= i <= n < p.len(),
        p[n] == SEPARATOR,
    ensures
        segment_end(p.take(n), i) == segment_end(p, i),
        segment_end(p, i) <= n,
    decreases n - i,
{
    if i < n && p[i] != SEPARATOR {
        lemma_segment_end_take(p, i + 1, n);
    }
}

/// Splitting at a separator splits the components.
proof fn lemma_body_split(p: Seq<u8>, i: int, n: int)
    requires
        0 <= i <= n < p.len(),
        p[n] == SEPARATOR,
    ensures
        body_components(p, i) == body_components(p.take(n), i) + body_components(p, n + 1),
    decreases n - i,
{
    let q = p.take(n);
    lemma_segment_end(p, i);
    lemma_segment_end_take(p, i, n);
    let end = segment_end(p, i);
    if i == n {
        assert(p.subrange(i, end).len() == 0);
        assert(body_components(p, i) =~= body_components(q, i) + body_components(p, n + 1));
    } else {
        assert(q.subrange(i, end) =~= p.subrange(i, end));
        if end < n {
            lemma_body_split(p, end + 1, n);
        } else {
            assert(body_components(q, end + 1) =~= seq![]);
        }
        assert(body_components(p, i) =~= body_components(q, i) + body_components(p, n + 1));
    }
}

proof fn lemma_segment_end_skip(p: Seq<u8>, k: int, i: int)
    requires
        0 <= k <= p.len(),
        0 <= i,
    ensures
        segment_end(p, k + i) == k + segment_end(p.skip(k), i),
    decreases p.len() - k - i,
{
    if k + i < p.len() && p[k + i] != SEPARATOR {
        lemma_segment_end_skip(p, k, i + 1);
    }
}

/// What lies before a position does not change the components behind it.
proof fn lemma_body_skip(p: Seq<u8>, k: int, i: int)
    requires
        0 <= k <= p.len(),
        0 <= i,
    ensures
        body_components(p, k + i) == body_components(p.skip(k), i),
    decreases p.len() + 1 - k - i,
{
    if k + i < p.len() {
        lemma_segment_end_skip(p, k, i);
        lemma_segment_end(p.skip(k), i);
        let end = segment_end(p.skip(k), i);
        assert(p.subrange(k + i, k + end) =~= p.skip(k).subrange(i, end));
        lemma_body_skip(p, k, end + 1);
    }
}

/// A leading `.` adds no component behind another path.
proof fn lemma_body_from_start(rel: Seq<u8>)
    requires
        !is_absolute(rel),
    ensures
        body_components(rel, 0) == added_components(rel),
{
    if has_leading_dot(rel) {
        assert(segment_end(rel, 0) == segment_end(rel, 1) == 1);
        assert(rel.subrange(0, 1) =~= seq![DOT]);
        assert(rel.subrange(1, 1).len() == 0);
        assert(body_components(rel, 0) == body_components(rel, 2));
        assert(body_components(rel, 1) == body_components(rel, 2));
    }
}

/// Joining a relative path appends its components, without a leading `.`.
pub proof fn join_appends_components(base: Seq<u8>, rel: Seq<u8>)
    requires
        base.len() > 0,
        !is_absolute(rel),
    ensures
        components(join(base, rel)) == components(base) + added_components(rel),
{
    let j = join(base, rel);
    let s = body_start(base);
    lemma_body_from_start(rel);
    assert(head_components(j) == head_components(base) && body_start(j) == s);
    if base.last() == SEPARATOR {
        let n = base.len() - 1;
        assert(j.skip(n + 1) =~= rel);
        lemma_body_skip(j, n + 1, 0);
        if n >= s {
            lemma_body_split(j, s, n);
            lemma_body_split(base, s, n);
            assert(j.take(n) =~= base.take(n));
        }
    } else {
        let n = base.len() as int;
        lemma_body_split(j, s, n);
        assert(j.take(n) =~= base);
        assert(j.skip(n + 1) =~= rel);
        lemma_body_skip(j, n + 1, 0);
    }
    assert(components(j) =~= components(base) + added_components(rel));
}

/// A relative path joined to `base` stays under `base`.
pub proof fn joined_path_stays_under_base(base: Seq<u8>, rel: Seq<u8>)
    requires
        !is_absolute(rel),
    ensures
        is_under(join(base, rel), base),
{
    if base.len() > 0 {
        join_appends_components(base, rel);
    }
    assert(components(join(base, rel)).take(components(base).len() as int) =~= components(base));
}

/// A path under a path that is under a third is under the third.
pub proof fn is_under_is_transitive(p: Seq<u8>, q: Seq<u8>, r: Seq<u8>)
    requires
        is_under(p, q),
        is_under(q, r),
    ensures
        is_under(p, r),
{
    let n = components(r).len() as int;
    assert(components(p).take(n) =~= components(p).take(components(q).len() as int).take(n));
}

/// Joining step by step is joining at once.
pub proof fn join_is_associative(base: Seq<u8>, a: Seq<u8>, b: Seq<u8>)
    ensures
        join(join(base, a), b) == join(base, join(a, b)),
{
    if !is_absolute(b) {
        assert(join(join(base, a), b) =~= join(base, join(a, b)));
    }
}

/// Joining to the empty path changes nothing, and an absolute path joined to
/// any other stands alone.
pub proof fn join_identities(p: Seq<u8>, base: Seq<u8>)
    ensures
        join(Seq::empty(), p) == p,
        is_absolute(p) ==> join(base, p) == p,
{
    assert(Seq::<u8>::empty() + p =~= p);
}

/// Seen from an absolute current directory every path but the empty one is
/// absolute.
pub proof fn resolved_path_is_absolute(cwd: Seq<u8>, p: Seq<u8>)
    requires
        is_absolute(cwd),
        p.len() > 0,
    ensures
        is_absolute(resolved(cwd, p)),
        resolved(cwd, p) == join(cwd, p),
{
}

/// No segment behind the start stands for the root or for a leading `.`.
proof fn lemma_body_has_no_head(p: Seq<u8>, i: int)
    requires
        0 <= i,
    ensures
        body_components(p, i).len() > 0 ==> body_components(p, i)[0] !is RootDir
            && body_components(p, i)[0] !is CurDir,
    decreases p.len() + 1 - i,
{
    if i < p.len() {
        lemma_segment_end(p, i);
        lemma_body_has_no_head(p, segment_end(p, i) + 1);
    }
}

/// A path that is neither empty nor absolute has a component.
proof fn lemma_relative_has_component(p: Seq<u8>)
    requires
        needs_current_dir(p),
    ensures
        components(p).len() > 0,
{
    if !has_leading_dot(p) {
        let end = segment_end(p, 0);
        lemma_segment_end(p, 0);
        let first = p.subrange(0, end);
        assert(end > 0) by {
            assert(segment_end(p, 0) == segment_end(p, 1));
            lemma_segment_end(p, 1);
        }
        assert(first != seq![DOT]) by {
            if first == seq![DOT] {
                assert(first.len() == 1 && first[0] == DOT);
            }
        }
    }
}

/// What lies under a relative path lies under it seen from the current directory,
/// too.
pub proof fn current_dir_keeps_under(cwd: Seq<u8>, p: Seq<u8>, base: Seq<u8>)
    requires
        cwd.len() > 0,
        needs_current_dir(base),
        is_under(p, base),
    ensures
        needs_current_dir(p),
        is_under(join(cwd, p), join(cwd, base)),
{
    let n = components(base).len() as int;
    lemma_relative_has_component(base);
    lemma_body_has_no_head(p, body_start(p));
    lemma_body_has_no_head(base, body_start(base));
    assert(components(p)[0] == components(p).take(n)[0]);
    assert(components(p)[0] == components(base)[0]);
    assert(head_components(p) =~= head_components(base));
    join_appends_components(cwd, p);
    join_appends_components(cwd, base);
    let h = head_components(p).len() as int;
    assert(added_components(p) =~= components(p).skip(h));
    assert(added_components(base) =~= components(base).skip(h));
    assert(added_components(p).take(n - h) =~= components(p).take(n).skip(h));
    let all = components(join(cwd, p));
    let part = components(join(cwd, base));
    assert(all.take(part.len() as int) =~= components(cwd) + added_components(p).take(n - h));
}

/// What lies under an absolute path is named by an absolute path.
pub proof fn under_absolute_is_absolute(p: Seq<u8>, base: Seq<u8>)
    requires
        is_under(p, base),
        is_absolute(base),
    ensures
        is_absolute(p),
{
    lemma_body_has_no_head(p, body_start(p));
    assert(components(base)[0] is RootDir);
    assert(components(p)[0] == components(p).take(components(base).len() as int)[0]);
}

proof fn lemma_trimmed_end(p: Seq<u8>, s: int, n: int)
    requires
        0 <= s,
        s <= n <= p.len(),
    ensures
        s <= trimmed_end(p, s, n) <= n,
        trimmed_end(p, s, n) < n ==> trimmed_end(p, s, n) == s || p[trimmed_end(p, s, n)]
            == SEPARATOR,
        trimmed_end(p, s, n) > s ==> {
            let e = trimmed_end(p, s, n);
            let b = segment_start(p, s, e);
            s <= b < e && segment_component(p.subrange(b, e)) is Some
        },
    decreases n - s,
{
    if n > s {
        lemma_segment_start(p, s, n);
        let b = segment_start(p, s, n);
        if segment_component(p.subrange(b, n)) is None && b > s {
            lemma_trimmed_end(p, s, b - 1);
        }
    }
}

/// A stretch without a separator is one segment.
proof fn lemma_segment_end_at_len(p: Seq<u8>, i: int)
    requires
        0 <= i <= p.len(),
        forall|k: int| i <= k < p.len() ==> p[k] != SEPARATOR,
    ensures
        segment_end(p, i) == p.len(),
    decreases p.len() - i,
{
    if i < p.len() {
        lemma_segment_end_at_len(p, i + 1);
    }
}

/// The last segment of the first `n` bytes contributes the last component.
proof fn lemma_last_segment(p: Seq<u8>, s: int, n: int)
    requires
        0 <= s < n <= p.len(),
    ensures
        ({
            let b = segment_start(p, s, n);
            let before = if b > s {
                body_components(p.take(b - 1), s)
            } else {
                seq![]
            };
            body_components(p.take(n), s) == match segment_component(p.subrange(b, n)) {
                Some(c) => before.push(c),
                None => before,
            }
        }),
{
    let q = p.take(n);
    let b = segment_start(p, s, n);
    lemma_segment_start(p, s, n);
    lemma_segment_end_at_len(q, b);
    assert(q.subrange(b, n) =~= p.subrange(b, n));
    assert(body_components(q, n + 1) =~= seq![]);
    if b > s {
        lemma_body_split(q, s, b - 1);
        assert(q.take(b - 1) =~= p.take(b - 1));
    }
    let before = if b > s {
        body_components(p.take(b - 1), s)
    } else {
        seq![]
    };
    if b == n {
        assert(body_components(q, b) =~= seq![]);
    }
    match segment_component(p.subrange(b, n)) {
        Some(c) => {
            assert(body_components(q, s) =~= before.push(c));
        },
        None => {
            assert(body_components(q, s) =~= before);
        },
    }
}

/// Trimming the end keeps the components.
proof fn lemma_trimmed_components(p: Seq<u8>, s: int, n: int)
    requires
        0 <= s <= n <= p.len(),
    ensures
        body_components(p.take(trimmed_end(p, s, n)), s) == body_components(p.take(n), s),
    decreases n - s,
{
    if n > s {
        let b = segment_start(p, s, n);
        lemma_segment_start(p, s, n);
        lemma_last_segment(p, s, n);
        if segment_component(p.subrange(b, n)) is None {
            if b > s {
                lemma_trimmed_components(p, s, b - 1);
            } else {
                assert(body_components(p.take(s), s) =~= seq![]);
            }
        }
    }
}

/// The parent of a path is shorter, and has the path's components without the
/// last; a path has no parent exactly where it is empty or names the root.
pub proof fn parent_drops_last_component(p: Seq<u8>)
    ensures
        match parent(p) {
            Some(q) => {
                &&& q.len() < p.len()
                &&& components(p).len() > 0
                &&& components(p) != seq![Component::RootDir]
                &&& components(q) == components(p).drop_last()
            },
            None => components(p).len() == 0 || components(p) == seq![Component::RootDir],
        },
        p.len() == 0 ==> parent(p) is None,
{
    let s = body_start(p);
    let len = p.len() as int;
    let end = trimmed_end(p, s, len);
    lemma_trimmed_end(p, s, len);
    lemma_trimmed_components(p, s, len);
    assert(p.take(len) =~= p);
    if end > s {
        let b = segment_start(p, s, end);
        lemma_segment_start(p, s, end);
        lemma_last_segment(p, s, end);
        let t = trimmed_end(p, s, b - 1);
        let q = p.take(t);
        if b > s {
            lemma_trimmed_end(p, s, b - 1);
            lemma_trimmed_components(p, s, b - 1);
        } else {
            assert(body_components(q, s) =~= seq![]);
        }
        assert(head_components(q) == head_components(p) && body_start(q) == s);
        assert(components(q) =~= components(p).drop_last());
        assert(components(p).last() !is RootDir);
        assert(seq![Component::RootDir].last() is RootDir);
    } else {
        assert(body_components(p.take(s), s) =~= seq![]);
        if has_leading_dot(p) {
            assert(components(p).drop_last() =~= components(Seq::empty()));
            assert(components(p)[0] is CurDir);
            assert(seq![Component::RootDir][0] is RootDir);
        } else {
            assert(components(p) =~= head_components(p));
        }
    }
}

/// A path is absolute exactly where its first byte is `/`.
pub proof fn absolute_paths_start_with_a_slash(p: Seq<u8>)
    ensures
        is_absolute(p) <==> p.len() > 0 && p[0] == 47u8,
        needs_current_dir(p) <==> p.len() > 0 && p[0] != 47u8,
{
}

/// A path that starts with `/` takes the place of the one it is joined to. Any
/// other stands at the end of the joined path, which starts with the base;
/// between the two stands nothing where the base is empty or ends in `/`, and
/// otherwise a single `/`.
pub proof fn joined_path_is_spelled_from_both(base: Seq<u8>, rel: Seq<u8>)
    ensures
        rel.len() > 0 && rel[0] == 47u8 ==> join(base, rel) == rel,
        !(rel.len() > 0 && rel[0] == 47u8) ==> {
            let j = join(base, rel);
            let gap: int = if base.len() == 0 || base[base.len() - 1] == 47u8 {
                0
            } else {
                1
            };
            &&& j.len() == base.len() + gap + rel.len()
            &&& forall|i: int| 0 <= i < base.len() ==> #[trigger] j[i] == base[i]
            &&& gap == 1 ==> j[base.len() as int] == 47u8
            &&& forall|i: int| 0 <= i < rel.len() ==> #[trigger] rel[i] == j[base.len() + gap + i]
        },
{
}

/// The current directory is put in front of a path that starts neither with `/`
/// nor nowhere at all.
pub proof fn only_relative_paths_are_resolved(cwd: Seq<u8>, p: Seq<u8>)
    ensures
        p.len() == 0 || p[0] == 47u8 ==> resolved(cwd, p) == p,
        p.len() > 0 && p[0] != 47u8 ==> resolved(cwd, p) == join(cwd, p),
{
}

proof fn lemma_one_segment_body(seg: Seq<u8>)
    requires
        forall|k: int| 0 <= k < seg.len() ==> #[trigger] seg[k] != 47u8,
    ensures
        body_components(seg, 0) == match segment_component(seg) {
            Some(c) => seq![c],
            None => seq![],
        },
{
    lemma_segment_end_at_len(seg, 0);
    if seg.len() > 0 {
        assert(seg.subrange(0, seg.len() as int) =~= seg);
        assert(body_components(seg, seg.len() as int + 1) =~= seq![]);
    }
}

/// The components of a path that is a single segment: none where it is empty,
/// the current directory for `.`, the parent for `..`, and else the name itself.
pub proof fn components_of_one_segment(seg: Seq<u8>)
    requires
        forall|k: int| 0 <= k < seg.len() ==> #[trigger] seg[k] != 47u8,
    ensures
        seg.len() == 0 ==> components(seg) == Seq::<Component>::empty(),
        seg == seq![46u8] ==> components(seg) == seq![Component::CurDir],
        seg == seq![46u8, 46u8] ==> components(seg) == seq![Component::ParentDir],
        seg.len() > 0 && seg != seq![46u8] && seg != seq![46u8, 46u8] ==> components(seg) == seq![
            Component::Normal(seg),
        ],
{
    lemma_one_segment_body(seg);
    if has_leading_dot(seg) {
        assert(seg =~= seq![46u8]);
        assert(components(seg) =~= seq![Component::CurDir]);
        assert(seg.len() != seq![46u8, 46u8].len());
    } else {
        assert(seg != seq![46u8]) by {
            assert(seq![46u8][0] == 46u8 && seq![46u8].len() == 1);
        }
        assert(components(seg) =~= body_components(seg, 0));
        assert(seq![46u8, 46u8].len() == 2);
    }
}

/// What the last segment adds to the components of what stands before its `/`:
/// nothing where it is empty or `.`, the parent for `..`, and else its name. A
/// path with nothing before the `/` starts at the root.
pub proof fn components_by_last_segment(front: Seq<u8>, seg: Seq<u8>)
    requires
        forall|k: int| 0 <= k < seg.len() ==> #[trigger] seg[k] != 47u8,
    ensures
        ({
            let before = if front.len() == 0 {
                seq![Component::RootDir]
            } else {
                components(front)
            };
            let all = components(front.push(47u8) + seg);
            &&& seg.len() == 0 || seg == seq![46u8] ==> all == before
            &&& seg == seq![46u8, 46u8] ==> all == before.push(Component::ParentDir)
            &&& seg.len() > 0 && seg != seq![46u8] && seg != seq![46u8, 46u8] ==> all
                == before.push(Component::Normal(seg))
        }),
{
    let p = front.push(47u8) + seg;
    let n = front.len() as int;
    let s = body_start(p);
    lemma_one_segment_body(seg);
    assert(p.skip(n + 1) =~= seg);
    lemma_body_skip(p, n + 1, 0);
    assert(seq![46u8].len() == 1 && seq![46u8, 46u8].len() == 2);
    if n > 0 {
        assert(p.take(n) =~= front);
        assert(p[n] == 47u8);
        lemma_body_split(p, s, n);
        assert(head_components(p) == head_components(front) && s == body_start(front));
    }
    let before = if n == 0 {
        seq![Component::RootDir]
    } else {
        components(front)
    };
    assert(components(p) =~= before + body_components(seg, 0));
}

/// The parent of a path is spelled as the path is, up to the end of the last
/// component but one, with no `/` and no `.` left over behind it.
pub proof fn parent_is_a_prefix(p: Seq<u8>)
    ensures
        parent(p) matches Some(q) ==> {
            &&& q.len() < p.len()
            &&& q == p.take(q.len() as int)
            &&& components(q) == components(p).drop_last()
            &&& q.len() > 1 ==> q[q.len() - 1] != 47u8
            &&& q.len() > 1 && q[q.len() - 1] == 46u8 ==> q[q.len() - 2] != 47u8
        },
        parent(p) is None <==> components(p).len() == 0 || components(p) == seq![
            Component::RootDir,
        ],
{
    parent_drops_last_component(p);
    let s = body_start(p);
    let len = p.len() as int;
    let end = trimmed_end(p, s, len);
    lemma_trimmed_end(p, s, len);
    if end > s {
        let b = segment_start(p, s, end);
        lemma_segment_start(p, s, end);
        let e = trimmed_end(p, s, b - 1);
        if b > s {
            lemma_trimmed_end(p, s, b - 1);
        }
        if e > s {
            let c = segment_start(p, s, e);
            lemma_segment_start(p, s, e);
            assert(p[e - 1] != SEPARATOR);
            if p[e - 1] == 46u8 && e >= 2 && p[e - 2] == 47u8 {
                assert(segment_start(p, s, e) == segment_start(p, s, e - 1));
                assert(c == e - 1);
                assert(p.subrange(c, e) =~= seq![DOT]);
            }
        }
    }
}

/// Joining a plain name to a path that is not empty adds exactly one component,
/// the name, however long the path is and whether or not it ends in `/`.
pub proof fn joined_name_is_one_more_component(base: Seq<u8>, name: Seq<u8>)
    requires
        base.len() > 0,
        name.len() > 0,
        name != seq![46u8],
        name != seq![46u8, 46u8],
        forall|k: int| 0 <= k < name.len() ==> #[trigger] name[k] != 47u8,
    ensures
        components(join(base, name)) == components(base).push(Component::Normal(name)),
{
    assert(name[0] != 47u8);
    if base.last() == 47u8 {
        let front = base.drop_last();
        let none = Seq::<u8>::empty();
        assert(front.push(47u8) + name =~= join(base, name));
        assert(front.push(47u8) + none =~= base);
        components_by_last_segment(front, name);
        components_by_last_segment(front, none);
    } else {
        assert(base.push(47u8) + name =~= join(base, name));
        components_by_last_segment(base, name);
    }
}

/// Two paths are equal exactly where they have the same components.
pub proof fn paths_are_equal_by_components(a: PosixPath, b: PosixPath)
    ensures
        a.eq_spec(&b) <==> components(a@) == components(b@),
{
}

}
