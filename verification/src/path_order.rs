//! The order of paths is a total order on their components.
use crate::path::{
    bytes_order_from, component_order, components, components_order, path_order, Comparison,
    Component,
};
use vstd::prelude::*;

verus! {

/// A comparison seen from the other side.
pub open spec fn flip(c: Comparison) -> Comparison {
    match c {
        Comparison::Before => Comparison::After,
        Comparison::Same => Comparison::Same,
        Comparison::After => Comparison::Before,
    }
}

proof fn lemma_bytes_order_from(a: Seq<u8>, b: Seq<u8>, i: int)
    requires
        0 <= i <= a.len(),
        i <= b.len(),
        forall|k: int| 0 <= k < i ==> a[k] == b[k],
    ensures
        bytes_order_from(b, a, i) == flip(bytes_order_from(a, b, i)),
        bytes_order_from(a, b, i) == Comparison::Same <==> a == b,
    decreases a.len() - i,
{
    if i < a.len() && i < b.len() {
        if a[i] == b[i] {
            lemma_bytes_order_from(a, b, i + 1);
        }
    } else if i >= a.len() && i >= b.len() {
        assert(a =~= b);
    }
}

proof fn lemma_bytes_order_transitive(a: Seq<u8>, b: Seq<u8>, c: Seq<u8>, i: int)
    requires
        0 <= i,
        bytes_order_from(a, b, i) != Comparison::After,
        bytes_order_from(b, c, i) != Comparison::After,
    ensures
        bytes_order_from(a, c, i) != Comparison::After,
    decreases a.len() - i,
{
    if i < a.len() && i < b.len() && i < c.len() && a[i] == b[i] && b[i] == c[i] {
        lemma_bytes_order_transitive(a, b, c, i + 1);
    }
}

proof fn lemma_component_order(a: Component, b: Component)
    ensures
        component_order(b, a) == flip(component_order(a, b)),
        component_order(a, b) == Comparison::Same <==> a == b,
{
    if let (Component::Normal(s), Component::Normal(t)) = (a, b) {
        lemma_bytes_order_from(s, t, 0);
    }
}

proof fn lemma_component_order_transitive(a: Component, b: Component, c: Component)
    requires
        component_order(a, b) != Comparison::After,
        component_order(b, c) != Comparison::After,
    ensures
        component_order(a, c) != Comparison::After,
{
    if let (Component::Normal(s), Component::Normal(t)) = (a, b) {
        if let Component::Normal(u) = c {
            lemma_bytes_order_transitive(s, t, u, 0);
        }
    }
}

proof fn lemma_components_order(a: Seq<Component>, b: Seq<Component>)
    ensures
        components_order(b, a) == flip(components_order(a, b)),
        components_order(a, b) == Comparison::Same <==> a == b,
    decreases a.len(),
{
    if a.len() == 0 {
        if b.len() == 0 {
            assert(a =~= b);
        }
    } else if b.len() > 0 {
        lemma_component_order(a[0], b[0]);
        lemma_components_order(a.drop_first(), b.drop_first());
        assert(a =~= seq![a[0]] + a.drop_first());
        assert(b =~= seq![b[0]] + b.drop_first());
    }
}

proof fn lemma_components_order_transitive(
    a: Seq<Component>,
    b: Seq<Component>,
    c: Seq<Component>,
)
    requires
        components_order(a, b) != Comparison::After,
        components_order(b, c) != Comparison::After,
    ensures
        components_order(a, c) != Comparison::After,
    decreases a.len(),
{
    if a.len() > 0 && b.len() > 0 && c.len() > 0 {
        lemma_component_order_transitive(a[0], b[0], c[0]);
        lemma_component_order(a[0], b[0]);
        lemma_component_order(b[0], c[0]);
        lemma_component_order(a[0], c[0]);
        if component_order(a[0], b[0]) == Comparison::Same && component_order(b[0], c[0])
            == Comparison::Same {
            lemma_components_order_transitive(a.drop_first(), b.drop_first(), c.drop_first());
        }
    }
}

/// Comparing two paths the other way round gives the opposite outcome, and the
/// outcome is `Same` exactly for two spellings with the same components.
pub proof fn path_order_is_antisymmetric(p: Seq<u8>, q: Seq<u8>)
    ensures
        path_order(q, p) == flip(path_order(p, q)),
        path_order(p, q) == Comparison::Same <==> components(p) == components(q),
{
    lemma_components_order(components(p), components(q));
}

/// A path that does not come after a second, which does not come after a
/// third, does not come after the third.
pub proof fn path_order_is_transitive(p: Seq<u8>, q: Seq<u8>, r: Seq<u8>)
    requires
        path_order(p, q) != Comparison::After,
        path_order(q, r) != Comparison::After,
    ensures
        path_order(p, r) != Comparison::After,
{
    lemma_components_order_transitive(components(p), components(q), components(r));
}

proof fn lemma_bytes_order_skips(a: Seq<u8>, b: Seq<u8>, i: int)
    requires
        0 <= i <= a.len(),
        i <= b.len(),
        a.take(i) == b.take(i),
    ensures
        bytes_order_from(a, b, 0) == bytes_order_from(a, b, i),
    decreases i,
{
    if i > 0 {
        assert(a.take(i - 1) =~= a.take(i).take(i - 1));
        assert(b.take(i - 1) =~= b.take(i).take(i - 1));
        lemma_bytes_order_skips(a, b, i - 1);
        assert(a[i - 1] == a.take(i)[i - 1]);
        assert(b[i - 1] == b.take(i)[i - 1]);
    }
}

/// Of two different names the one that ends first comes first, where the other
/// goes on, and else the one with the smaller byte at the first difference.
pub proof fn names_are_ordered_at_first_difference(s: Seq<u8>, t: Seq<u8>, i: int)
    requires
        0 <= i <= s.len(),
        i <= t.len(),
        s.take(i) == t.take(i),
    ensures
        ({
            let order = component_order(Component::Normal(s), Component::Normal(t));
            &&& i == s.len() && i == t.len() ==> order == Comparison::Same
            &&& i == s.len() && i < t.len() ==> order == Comparison::Before
            &&& i < s.len() && i == t.len() ==> order == Comparison::After
            &&& i < s.len() && i < t.len() && s[i] < t[i] ==> order == Comparison::Before
            &&& i < s.len() && i < t.len() && s[i] > t[i] ==> order == Comparison::After
        }),
{
    lemma_bytes_order_skips(s, t, i);
}

/// The root comes before a leading `.`, that before `..`, and that before every
/// name.
pub proof fn names_come_after_the_other_components(s: Seq<u8>)
    ensures
        component_order(Component::RootDir, Component::CurDir) == Comparison::Before,
        component_order(Component::CurDir, Component::ParentDir) == Comparison::Before,
        component_order(Component::RootDir, Component::ParentDir) == Comparison::Before,
        component_order(Component::RootDir, Component::Normal(s)) == Comparison::Before,
        component_order(Component::CurDir, Component::Normal(s)) == Comparison::Before,
        component_order(Component::ParentDir, Component::Normal(s)) == Comparison::Before,
        component_order(Component::CurDir, Component::RootDir) == Comparison::After,
        component_order(Component::ParentDir, Component::CurDir) == Comparison::After,
        component_order(Component::ParentDir, Component::RootDir) == Comparison::After,
        component_order(Component::Normal(s), Component::RootDir) == Comparison::After,
        component_order(Component::Normal(s), Component::CurDir) == Comparison::After,
        component_order(Component::Normal(s), Component::ParentDir) == Comparison::After,
{
}

proof fn lemma_components_order_skips(a: Seq<Component>, b: Seq<Component>, i: int)
    requires
        0 <= i <= a.len(),
        i <= b.len(),
        a.take(i) == b.take(i),
    ensures
        components_order(a, b) == components_order(a.skip(i), b.skip(i)),
    decreases i,
{
    if i > 0 {
        assert(a[0] == a.take(i)[0]);
        assert(b[0] == b.take(i)[0]);
        lemma_component_order(a[0], b[0]);
        let c = a.drop_first();
        let d = b.drop_first();
        assert(c.take(i - 1) =~= a.take(i).drop_first());
        assert(d.take(i - 1) =~= b.take(i).drop_first());
        lemma_components_order_skips(c, d, i - 1);
        assert(c.skip(i - 1) =~= a.skip(i));
        assert(d.skip(i - 1) =~= b.skip(i));
    } else {
        assert(a.skip(0) =~= a);
        assert(b.skip(0) =~= b);
    }
}

/// Of two paths the one whose components end first comes first, where the other
/// goes on, and else the first two components that differ decide. The outcome
/// depends on nothing else.
pub proof fn paths_are_ordered_at_first_difference(p: Seq<u8>, q: Seq<u8>, i: int)
    requires
        0 <= i <= components(p).len(),
        i <= components(q).len(),
        components(p).take(i) == components(q).take(i),
    ensures
        ({
            let a = components(p);
            let b = components(q);
            &&& i == a.len() && i == b.len() ==> path_order(p, q) == Comparison::Same
            &&& i == a.len() && i < b.len() ==> path_order(p, q) == Comparison::Before
            &&& i < a.len() && i == b.len() ==> path_order(p, q) == Comparison::After
            &&& i < a.len() && i < b.len() && a[i] != b[i] ==> path_order(p, q)
                == component_order(a[i], b[i])
        }),
{
    let a = components(p);
    let b = components(q);
    lemma_components_order_skips(a, b, i);
    if i < a.len() && i < b.len() {
        lemma_component_order(a[i], b[i]);
        assert(a.skip(i)[0] == a[i] && b.skip(i)[0] == b[i]);
    }
}

}
