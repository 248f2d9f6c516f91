//! POSIX paths held as plain bytes, with the join, component, ordering and
//! parent rules that the rest of the crate is built on.
use vstd::prelude::*;
use vstd::std_specs::cmp::PartialEqSpecImpl;
use vstd::string::*;
use vstd::utf8::encode_utf8;

verus! {

/// The byte that separates the segments of a path, `/`.
pub const SEPARATOR: u8 = 47;

/// The byte that `.` and `..` are made of.
pub const DOT: u8 = 46;

/// One step of a path. Two spellings with the same components name the same
/// path: repeated and trailing separators and inner `.` segments do not count.
pub enum Component {
    /// The leading separator of an absolute path.
    RootDir,
    /// A leading `.` segment.
    CurDir,
    /// A `..` segment.
    ParentDir,
    /// Any other segment.
    Normal(Seq<u8>),
}

/// The outcome of comparing two values.
#[derive(Clone, Copy, Debug, PartialEq, Eq, Structural)]
pub enum Comparison {
    /// The first value comes first.
    Before,
    /// Neither value comes before the other.
    Same,
    /// The second value comes first.
    After,
}

/// Whether `p` starts at the root.
pub open spec fn is_absolute(p: Seq<u8>) -> bool {
    p.len() > 0 && p[0] == SEPARATOR
}

/// `rel` resolved against `base`: an absolute `rel` stands alone, any other is
/// appended, behind a separator where `base` does not already end in one.
pub open spec fn join(base: Seq<u8>, rel: Seq<u8>) -> Seq<u8> {
    if is_absolute(rel) {
        rel
    } else if base.len() == 0 || base.last() == SEPARATOR {
        base + rel
    } else {
        base.push(SEPARATOR) + rel
    }
}

/// Whether it takes the current directory to say where `p` lies. The empty path
/// names nothing, and lies nowhere.
pub open spec fn needs_current_dir(p: Seq<u8>) -> bool {
    p.len() > 0 && !is_absolute(p)
}

/// `p` as it is seen from the current directory `cwd`; the empty path stays
/// empty.
pub open spec fn resolved(cwd: Seq<u8>, p: Seq<u8>) -> Seq<u8> {
    if needs_current_dir(p) {
        join(cwd, p)
    } else {
        p
    }
}

/// Whether the first segment of `p` is `.`.
pub open spec fn has_leading_dot(p: Seq<u8>) -> bool {
    &&& p.len() > 0
    &&& p[0] == DOT
    &&& p.len() > 1 ==> p[1] == SEPARATOR
}

/// The component that the leading separator or `.` of `p` stands for, if any.
pub open spec fn head_components(p: Seq<u8>) -> Seq<Component> {
    if is_absolute(p) {
        seq![Component::RootDir]
    } else if has_leading_dot(p) {
        seq![Component::CurDir]
    } else {
        seq![]
    }
}

/// Where the segments behind the leading separator or `.` begin.
pub open spec fn body_start(p: Seq<u8>) -> int {
    if is_absolute(p) || has_leading_dot(p) {
        1
    } else {
        0
    }
}

/// The first position at or behind `i` that holds a separator, or the length.
pub open spec fn segment_end(p: Seq<u8>, i: int) -> int
    decreases p.len() - i,
{
    if i >= p.len() {
        p.len() as int
    } else if p[i] == SEPARATOR {
        i
    } else {
        segment_end(p, i + 1)
    }
}

/// What one segment contributes: nothing, where it is empty or `.`.
pub open spec fn segment_component(s: Seq<u8>) -> Option<Component> {
    if s.len() == 0 || s == seq![DOT] {
        None
    } else if s == seq![DOT, DOT] {
        Some(Component::ParentDir)
    } else {
        Some(Component::Normal(s))
    }
}

/// The components of the segments of `p` from position `i` on.
pub open spec fn body_components(p: Seq<u8>, i: int) -> Seq<Component>
    decreases p.len() + 1 - i,
    when 0 <= i
    via body_components_decreases
{
    if i >= p.len() {
        seq![]
    } else {
        let end = segment_end(p, i);
        match segment_component(p.subrange(i, end)) {
            Some(component) => seq![component] + body_components(p, end + 1),
            None => body_components(p, end + 1),
        }
    }
}

#[via_fn]
proof fn body_components_decreases(p: Seq<u8>, i: int) {
    lemma_segment_end(p, i);
}

/// The components of `p`, first to last.
pub open spec fn components(p: Seq<u8>) -> Seq<Component> {
    head_components(p) + body_components(p, body_start(p))
}

/// A segment ends at the first separator behind its start, or with the path.
pub proof fn lemma_segment_end(p: Seq<u8>, i: int)
    requires
        0 <= i,
    ensures
        i <= p.len() ==> i <= segment_end(p, i) <= p.len(),
        i > p.len() ==> segment_end(p, i) == p.len(),
        forall|k: int| i <= k < segment_end(p, i) ==> p[k] != SEPARATOR,
        segment_end(p, i) < p.len() ==> p[segment_end(p, i)] == SEPARATOR,
    decreases p.len() - i,
{
    if i < p.len() && p[i] != SEPARATOR {
        lemma_segment_end(p, i + 1);
    }
}

/// The order of two byte strings from position `i` on.
pub open spec fn bytes_order_from(a: Seq<u8>, b: Seq<u8>, i: int) -> Comparison
    decreases a.len() - i,
{
    if i >= a.len() {
        if i >= b.len() {
            Comparison::Same
        } else {
            Comparison::Before
        }
    } else if i >= b.len() {
        Comparison::After
    } else if a[i] < b[i] {
        Comparison::Before
    } else if a[i] > b[i] {
        Comparison::After
    } else {
        bytes_order_from(a, b, i + 1)
    }
}

/// The lexicographic order of two byte strings.
pub open spec fn bytes_order(a: Seq<u8>, b: Seq<u8>) -> Comparison {
    bytes_order_from(a, b, 0)
}

/// The place of a component among the kinds of component.
pub open spec fn component_rank(c: Component) -> int {
    match c {
        Component::RootDir => 0,
        Component::CurDir => 1,
        Component::ParentDir => 2,
        Component::Normal(_) => 3,
    }
}

/// The order of two components: by kind, and two plain names by their bytes.
pub open spec fn component_order(a: Component, b: Component) -> Comparison {
    if component_rank(a) < component_rank(b) {
        Comparison::Before
    } else if component_rank(a) > component_rank(b) {
        Comparison::After
    } else if let (Component::Normal(s), Component::Normal(t)) = (a, b) {
        bytes_order(s, t)
    } else {
        Comparison::Same
    }
}

/// The lexicographic order of two component sequences.
pub open spec fn components_order(a: Seq<Component>, b: Seq<Component>) -> Comparison
    decreases a.len(),
{
    if a.len() == 0 {
        if b.len() == 0 {
            Comparison::Same
        } else {
            Comparison::Before
        }
    } else if b.len() == 0 {
        Comparison::After
    } else if component_order(a[0], b[0]) != Comparison::Same {
        component_order(a[0], b[0])
    } else {
        components_order(a.drop_first(), b.drop_first())
    }
}

/// The order of two paths: that of their components.
pub open spec fn path_order(p: Seq<u8>, q: Seq<u8>) -> Comparison {
    components_order(components(p), components(q))
}

/// The start of the segment of `p` that ends before position `n`, looking back
/// no further than `s`.
pub open spec fn segment_start(p: Seq<u8>, s: int, n: int) -> int
    decreases n - s,
{
    if n <= s || p[n - 1] == SEPARATOR {
        n
    } else {
        segment_start(p, s, n - 1)
    }
}

/// How much of the first `n` bytes of `p` is left when the empty and `.`
/// segments at the end are cut off, down to position `s` at most.
pub open spec fn trimmed_end(p: Seq<u8>, s: int, n: int) -> int
    decreases n - s,
    via trimmed_end_decreases
{
    if n <= s {
        s
    } else {
        let start = segment_start(p, s, n);
        if segment_component(p.subrange(start, n)) is Some {
            n
        } else if start > s {
            trimmed_end(p, s, start - 1)
        } else {
            s
        }
    }
}

#[via_fn]
proof fn trimmed_end_decreases(p: Seq<u8>, s: int, n: int) {
    lemma_segment_start(p, s, n);
}

/// A segment starts behind the last separator before its end, or at `s`.
pub proof fn lemma_segment_start(p: Seq<u8>, s: int, n: int)
    ensures
        s <= n ==> s <= segment_start(p, s, n) <= n,
        forall|k: int| segment_start(p, s, n) <= k < n ==> p[k] != SEPARATOR,
        segment_start(p, s, n) > s ==> p[segment_start(p, s, n) - 1] == SEPARATOR || n <= s,
    decreases n - s,
{
    if n > s && p[n - 1] != SEPARATOR {
        lemma_segment_start(p, s, n - 1);
    }
}

/// `p` without its last component, where it has one besides the root.
pub open spec fn parent(p: Seq<u8>) -> Option<Seq<u8>> {
    let s = body_start(p);
    let end = trimmed_end(p, s, p.len() as int);
    if end > s {
        let start = segment_start(p, s, end);
        Some(p.take(trimmed_end(p, s, start - 1)))
    } else if has_leading_dot(p) {
        Some(Seq::empty())
    } else {
        None
    }
}

/// A path as the bytes that the operating system sees.
#[derive(Debug)]
pub struct PosixPath {
    bytes: Vec<u8>,
}

impl View for PosixPath {
    type V = Seq<u8>;

    closed spec fn view(&self) -> Seq<u8> {
        self.bytes@
    }
}

/// The bytes of the paths of a list, in order.
pub open spec fn path_bytes(paths: Seq<PosixPath>) -> Seq<Seq<u8>> {
    Seq::new(paths.len(), |i: int| paths[i]@)
}

impl Clone for PosixPath {
    fn clone(&self) -> (r: Self)
        ensures
            r@ == self@,
    {
        PosixPath { bytes: self.bytes.clone() }
    }
}

impl PosixPath {
    /// The path with the given bytes.
    pub fn from_bytes(bytes: Vec<u8>) -> (r: PosixPath)
        ensures
            r@ == bytes@,
    {
        PosixPath { bytes }
    }

    /// The path that `text` spells in UTF-8.
    pub fn from_text(text: &str) -> (r: PosixPath)
        ensures
            r@ == encode_utf8(text@),
    {
        PosixPath { bytes: text.as_bytes_vec() }
    }

    /// The bytes of the path.
    pub fn as_bytes(&self) -> (r: &[u8])
        ensures
            r@ == self@,
    {
        self.bytes.as_slice()
    }

    /// Whether the path starts at the root.
    pub fn is_absolute(&self) -> (r: bool)
        ensures
            r == is_absolute(self@),
    {
        self.bytes.len() > 0 && self.bytes[0] == SEPARATOR
    }

    /// Whether it takes the current directory to say where the path lies.
    pub fn needs_current_dir(&self) -> (r: bool)
        ensures
            r == needs_current_dir(self@),
    {
        self.bytes.len() > 0 && self.bytes[0] != SEPARATOR
    }

    /// The path as it is seen from the current directory `cwd`.
    pub fn seen_from(&self, cwd: &PosixPath) -> (r: PosixPath)
        ensures
            r@ == resolved(cwd@, self@),
    {
        if self.needs_current_dir() {
            cwd.join(self)
        } else {
            self.clone()
        }
    }

    /// `rel` resolved against this path.
    pub fn join(&self, rel: &PosixPath) -> (r: PosixPath)
        ensures
            r@ == join(self@, rel@),
    {
        if rel.is_absolute() {
            return rel.clone();
        }
        let mut bytes = self.bytes.clone();
        if bytes.len() > 0 && bytes[bytes.len() - 1] != SEPARATOR {
            bytes.push(SEPARATOR);
        }
        bytes.extend_from_slice(rel.bytes.as_slice());
        assert(bytes@ =~= join(self@, rel@));
        PosixPath { bytes }
    }
}

/// A component found while reading a path: its kind and, for a segment, where
/// the segment lies.
struct Step {
    rank: u8,
    start: usize,
    end: usize,
}

impl Step {
    /// The component that the step stands for in `p`.
    spec fn component(self, p: Seq<u8>) -> Component {
        if self.rank == 0 {
            Component::RootDir
        } else if self.rank == 1 {
            Component::CurDir
        } else if self.rank == 2 {
            Component::ParentDir
        } else {
            Component::Normal(p.subrange(self.start as int, self.end as int))
        }
    }

    /// Whether the step lies inside `p`.
    spec fn fits(self, p: Seq<u8>) -> bool {
        self.rank <= 3 && self.start <= self.end <= p.len()
    }
}

/// The components that are still to be read at position `at`, with the leading
/// one where it was not yet read.
spec fn remaining(p: Seq<u8>, head_read: bool, at: int) -> Seq<Component> {
    if head_read {
        body_components(p, at)
    } else {
        head_components(p) + body_components(p, at)
    }
}

/// Continuing at the end of a segment is continuing behind its separator.
proof fn lemma_body_at_segment_end(p: Seq<u8>, i: int)
    requires
        0 <= i <= p.len(),
    ensures
        body_components(p, segment_end(p, i)) == body_components(p, segment_end(p, i) + 1),
{
    lemma_segment_end(p, i);
    let end = segment_end(p, i);
    if end < p.len() {
        assert(segment_end(p, end) == end);
        assert(p.subrange(end, end).len() == 0);
    }
}

/// The kind of a segment: 2 for `..`, 3 for a name, nothing where it is
/// empty or `.`.
fn segment_rank(p: &Vec<u8>, start: usize, end: usize) -> (r: Option<u8>)
    requires
        start <= end <= p@.len(),
    ensures
        match segment_component(p@.subrange(start as int, end as int)) {
            None => r is None,
            Some(c) => r == Some(component_rank(c) as u8) && (c is ParentDir || c is Normal),
        },
{
    let ghost s = p@.subrange(start as int, end as int);
    let len: usize = end - start;
    if len == 0 {
        None
    } else if len == 1 && p[start] == DOT {
        assert(s =~= seq![DOT]);
        None
    } else if len == 2 && p[start] == DOT && p[start + 1] == DOT {
        assert(s =~= seq![DOT, DOT]);
        assert(s != seq![DOT]) by {
            assert(s.len() != seq![DOT].len());
        }
        Some(2)
    } else {
        assert(s != seq![DOT]) by {
            if s == seq![DOT] {
                assert(s.len() == 1 && s[0] == DOT);
            }
        }
        assert(s != seq![DOT, DOT]) by {
            if s == seq![DOT, DOT] {
                assert(s.len() == 2 && s[0] == DOT && s[1] == DOT);
            }
        }
        Some(3)
    }
}

/// The position at which the segment that holds `from` ends.
fn find_segment_end(p: &Vec<u8>, from: usize) -> (end: usize)
    requires
        from <= p@.len(),
    ensures
        end == segment_end(p@, from as int),
        from <= end <= p@.len(),
{
    let mut end = from;
    while end < p.len() && p[end] != SEPARATOR
        invariant
            from <= end <= p@.len(),
            segment_end(p@, from as int) == segment_end(p@, end as int),
        decreases p@.len() - end,
    {
        end = end + 1;
    }
    end
}

/// Reads the next segment that counts, at or behind `from`.
fn next_segment(p: &Vec<u8>, from: usize) -> (r: Option<Step>)
    requires
        from <= p@.len(),
    ensures
        match r {
            None => body_components(p@, from as int).len() == 0,
            Some(step) => {
                &&& step.fits(p@)
                &&& from <= step.end
                &&& body_components(p@, from as int) == seq![step.component(p@)]
                    + body_components(p@, step.end as int)
            },
        },
{
    let mut at = from;
    while at < p.len()
        invariant
            from <= at <= p@.len(),
            body_components(p@, from as int) == body_components(p@, at as int),
        decreases p@.len() - at,
    {
        let end = find_segment_end(p, at);
        proof {
            lemma_body_at_segment_end(p@, at as int);
        }
        match segment_rank(p, at, end) {
            Some(rank) => {
                return Some(Step { rank, start: at, end });
            },
            None => {
                if end == p.len() {
                    return None;
                }
                at = end + 1;
            },
        }
    }
    None
}

/// Reads the next component: the leading one, then the segments that count.
fn next_component(p: &Vec<u8>, head_read: bool, from: usize) -> (r: Option<Step>)
    requires
        from <= p@.len(),
    ensures
        match r {
            None => remaining(p@, head_read, from as int).len() == 0,
            Some(step) => {
                &&& step.fits(p@)
                &&& from <= step.end
                &&& remaining(p@, head_read, from as int) == seq![step.component(p@)]
                    + remaining(p@, true, step.end as int)
            },
        },
{
    if !head_read {
        if p.len() > 0 && p[0] == SEPARATOR {
            return Some(Step { rank: 0, start: from, end: from });
        }
        if p.len() > 0 && p[0] == DOT && (p.len() == 1 || p[1] == SEPARATOR) {
            return Some(Step { rank: 1, start: from, end: from });
        }
    }
    let r = next_segment(p, from);
    assert(remaining(p@, head_read, from as int) =~= body_components(p@, from as int));
    r
}

/// Compares two stretches of bytes.
fn compare_bytes(a: &Vec<u8>, x: &Step, b: &Vec<u8>, y: &Step) -> (r: Comparison)
    requires
        x.fits(a@),
        y.fits(b@),
    ensures
        r == bytes_order(
            a@.subrange(x.start as int, x.end as int),
            b@.subrange(y.start as int, y.end as int),
        ),
{
    let ghost s = a@.subrange(x.start as int, x.end as int);
    let ghost t = b@.subrange(y.start as int, y.end as int);
    let s_len: usize = x.end - x.start;
    let t_len: usize = y.end - y.start;
    let mut i: usize = 0;
    while i < s_len && i < t_len
        invariant
            x.fits(a@),
            y.fits(b@),
            s == a@.subrange(x.start as int, x.end as int),
            t == b@.subrange(y.start as int, y.end as int),
            s_len == s.len(),
            t_len == t.len(),
            i <= s_len,
            i <= t_len,
            bytes_order(s, t) == bytes_order_from(s, t, i as int),
        decreases s_len - i,
    {
        let c: u8 = a[x.start + i];
        let d: u8 = b[y.start + i];
        if c < d {
            return Comparison::Before;
        }
        if c > d {
            return Comparison::After;
        }
        i = i + 1;
    }
    if s_len < t_len {
        Comparison::Before
    } else if s_len > t_len {
        Comparison::After
    } else {
        Comparison::Same
    }
}

/// Compares two components that were read from two paths.
fn compare_steps(a: &Vec<u8>, x: &Step, b: &Vec<u8>, y: &Step) -> (r: Comparison)
    requires
        x.fits(a@),
        y.fits(b@),
    ensures
        r == component_order(x.component(a@), y.component(b@)),
{
    if x.rank < y.rank {
        Comparison::Before
    } else if x.rank > y.rank {
        Comparison::After
    } else if x.rank == 3 {
        compare_bytes(a, x, b, y)
    } else {
        Comparison::Same
    }
}

impl PosixPath {
    /// Compares two paths by their components.
    pub fn compare(&self, other: &PosixPath) -> (r: Comparison)
        ensures
            r == path_order(self@, other@),
    {
        let a = &self.bytes;
        let b = &other.bytes;
        let mut a_at: usize = self.find_body_start();
        let mut b_at: usize = other.find_body_start();
        let mut head_read = false;
        loop
            invariant
                a@ == self@,
                b@ == other@,
                a_at <= a@.len(),
                b_at <= b@.len(),
                path_order(a@, b@) == components_order(
                    remaining(a@, head_read, a_at as int),
                    remaining(b@, head_read, b_at as int),
                ),
            decreases remaining(a@, head_read, a_at as int).len(),
        {
            let ghost left = remaining(a@, head_read, a_at as int);
            let ghost right = remaining(b@, head_read, b_at as int);
            let x = next_component(a, head_read, a_at);
            let y = next_component(b, head_read, b_at);
            match (x, y) {
                (None, None) => {
                    return Comparison::Same;
                },
                (None, Some(_)) => {
                    return Comparison::Before;
                },
                (Some(_), None) => {
                    return Comparison::After;
                },
                (Some(x), Some(y)) => {
                    let order = compare_steps(a, &x, b, &y);
                    if order != Comparison::Same {
                        return order;
                    }
                    a_at = x.end;
                    b_at = y.end;
                    head_read = true;
                    assert(left.drop_first() =~= remaining(a@, true, a_at as int));
                    assert(right.drop_first() =~= remaining(b@, true, b_at as int));
                },
            }
        }
    }

    fn find_body_start(&self) -> (r: usize)
        ensures
            r == body_start(self@),
            r <= self@.len(),
    {
        if self.bytes.len() > 0 && (self.bytes[0] == SEPARATOR || (self.bytes[0] == DOT && (
        self.bytes.len() == 1 || self.bytes[1] == SEPARATOR))) {
            1
        } else {
            0
        }
    }
}

/// The position at which the segment that ends before `n` starts.
fn find_segment_start(p: &Vec<u8>, s: usize, n: usize) -> (start: usize)
    requires
        s <= n <= p@.len(),
    ensures
        start == segment_start(p@, s as int, n as int),
        s <= start <= n,
{
    let mut start = n;
    while start > s && p[start - 1] != SEPARATOR
        invariant
            s <= start <= n <= p@.len(),
            segment_start(p@, s as int, n as int) == segment_start(p@, s as int, start as int),
        decreases start,
    {
        start = start - 1;
    }
    start
}

/// Cuts the segments that do not count off the end of the first `n` bytes.
fn find_trimmed_end(p: &Vec<u8>, s: usize, n: usize) -> (end: usize)
    requires
        s <= n <= p@.len(),
    ensures
        end == trimmed_end(p@, s as int, n as int),
        s <= end <= n,
{
    let mut end = n;
    while end > s
        invariant
            s <= end <= n <= p@.len(),
            trimmed_end(p@, s as int, n as int) == trimmed_end(p@, s as int, end as int),
        decreases end,
    {
        let start = find_segment_start(p, s, end);
        if segment_rank(p, start, end).is_some() {
            return end;
        }
        if start == s {
            return s;
        }
        end = start - 1;
    }
    s
}

impl PosixPath {
    /// The path without its last component; nothing where no component is left
    /// to drop but the root.
    pub fn parent(&self) -> (r: Option<PosixPath>)
        ensures
            match r {
                Some(p) => parent(self@) == Some(p@),
                None => parent(self@) is None,
            },
    {
        let s: usize = self.find_body_start();
        let end: usize = find_trimmed_end(&self.bytes, s, self.bytes.len());
        if end > s {
            let start: usize = find_segment_start(&self.bytes, s, end);
            let cut: usize = if start > s {
                find_trimmed_end(&self.bytes, s, start - 1)
            } else {
                s
            };
            let mut bytes = self.bytes.clone();
            bytes.truncate(cut);
            assert(bytes@ =~= self@.take(cut as int));
            Some(PosixPath { bytes })
        } else if s == 1 && self.bytes[0] == DOT {
            Some(PosixPath { bytes: Vec::new() })
        } else {
            None
        }
    }
}

impl PartialEq for PosixPath {
    fn eq(&self, other: &Self) -> (r: bool) {
        proof {
            crate::path_order::path_order_is_antisymmetric(self@, other@);
        }
        self.compare(other) == Comparison::Same
    }
}

impl PartialEqSpecImpl for PosixPath {
    open spec fn obeys_eq_spec() -> bool {
        true
    }

    open spec fn eq_spec(&self, other: &Self) -> bool {
        components(self@) == components(other@)
    }
}

impl Eq for PosixPath {

}

}
