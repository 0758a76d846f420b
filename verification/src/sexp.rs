//! S-expressions: the mathematical tree, places inside it, and the owned value.
use vstd::prelude::*;

verus! {

/// An S-expression as a mathematical value.
pub enum Tree {
    Atom(Seq<u8>),
    List(Seq<Tree>),
}

/// The subtree at `path`: each number of the path picks a child of a list.
pub open spec fn subtree(t: Tree, path: Seq<int>) -> Option<Tree>
    decreases path.len(),
{
    if path.len() == 0 {
        Some(t)
    } else {
        match t {
            Tree::List(items) if 0 <= path[0] < items.len() => subtree(
                items[path[0]],
                path.drop_first(),
            ),
            _ => None,
        }
    }
}

/// `t` with `new` in place of the subtree at `path`, which must exist.
pub open spec fn replace_at(t: Tree, path: Seq<int>, new: Tree) -> Tree
    decreases path.len(),
{
    if path.len() == 0 {
        new
    } else {
        match t {
            Tree::List(items) => Tree::List(
                items.update(path[0], replace_at(items[path[0]], path.drop_first(), new)),
            ),
            Tree::Atom(_) => t,
        }
    }
}

/// Preorder on places: a list comes before what is inside it, and what is in an
/// earlier child comes before what is in a later one.
pub open spec fn precedes(p: Seq<int>, q: Seq<int>) -> bool
    decreases p.len(),
{
    if q.len() == 0 {
        false
    } else if p.len() == 0 {
        true
    } else {
        p[0] < q[0] || (p[0] == q[0] && precedes(p.drop_first(), q.drop_first()))
    }
}

/// One of the two places lies on the way to the other (or they are the same).
pub open spec fn on_one_branch(p: Seq<int>, q: Seq<int>) -> bool {
    p.is_prefix_of(q) || q.is_prefix_of(p)
}

/// The whole is at the empty path.
pub proof fn whole_is_at_the_empty_path(t: Tree)
    ensures
        subtree(t, Seq::empty()) == Some(t),
{
}

/// A path goes on inside the item that its first number picks. An atom has no items.
pub proof fn path_goes_on_inside_an_item(items: Seq<Tree>, bytes: Seq<u8>, i: int, path: Seq<int>)
    ensures
        subtree(Tree::List(items), seq![i] + path) == (if 0 <= i < items.len() {
            subtree(items[i], path)
        } else {
            None
        }),
        subtree(Tree::Atom(bytes), seq![i] + path) is None,
{
    assert((seq![i] + path).drop_first() =~= path);
}

/// A place comes before another if it lies on the way to it, or if it is in an earlier
/// item of the last list that is on the way to both.
pub proof fn earlier_places_come_before(p: Seq<int>, q: Seq<int>)
    ensures
        precedes(p, q) <==> exists|k: int|
            0 <= k <= p.len() && k < q.len() && #[trigger] p.take(k) == q.take(k) && (k == p.len()
                || p[k] < q[k]),
    decreases p.len(),
{
    if p.len() > 0 && q.len() > 0 && p[0] == q[0] {
        let p1 = p.drop_first();
        let q1 = q.drop_first();
        earlier_places_come_before(p1, q1);
        assert forall|k: int| 0 <= k <= p1.len() && k < q1.len() implies ((#[trigger] p1.take(k)
            == q1.take(k)) <==> p.take(k + 1) == q.take(k + 1)) by {
            assert(p.take(k + 1) =~= seq![p[0]] + p1.take(k));
            assert(q.take(k + 1) =~= seq![q[0]] + q1.take(k));
            assert(p.take(k + 1).drop_first() =~= p1.take(k));
            assert(q.take(k + 1).drop_first() =~= q1.take(k));
        }
        if precedes(p, q) {
            let k = choose|k: int|
                0 <= k <= p1.len() && k < q1.len() && #[trigger] p1.take(k) == q1.take(k) && (k
                    == p1.len() || p1[k] < q1[k]);
            assert(p.take(k + 1) == q.take(k + 1));
        }
        if exists|k: int|
            0 <= k <= p.len() && k < q.len() && #[trigger] p.take(k) == q.take(k) && (k == p.len()
                || p[k] < q[k]) {
            let k = choose|k: int|
                0 <= k <= p.len() && k < q.len() && #[trigger] p.take(k) == q.take(k) && (k
                    == p.len() || p[k] < q[k]);
            assert(k > 0);
            assert(p1.take(k - 1) == q1.take(k - 1));
        }
    } else if q.len() > 0 {
        assert(p.take(0) =~= q.take(0));
        assert forall|k: int|
            0 < k <= p.len() && k < q.len() && #[trigger] p.take(k) == q.take(k) implies false by {
            assert(p.take(k)[0] == q.take(k)[0]);
        }
    }
}

/// No place comes both before and after another.
pub proof fn precedes_is_asymmetric(p: Seq<int>, q: Seq<int>)
    requires
        precedes(p, q),
    ensures
        !precedes(q, p),
        p != q,
    decreases p.len(),
{
    if p.len() > 0 && p[0] == q[0] {
        precedes_is_asymmetric(p.drop_first(), q.drop_first());
    }
}

/// What was put at a place is what is found there.
pub proof fn replaced_is_found(t: Tree, path: Seq<int>, new: Tree)
    requires
        subtree(t, path) is Some,
    ensures
        subtree(replace_at(t, path, new), path) == Some(new),
    decreases path.len(),
{
    if path.len() > 0 {
        let items = t->List_0;
        replaced_is_found(items[path[0]], path.drop_first(), new);
    }
}

/// Replacing at one place leaves alone every place off its branch.
pub proof fn replaced_elsewhere_is_kept(t: Tree, path: Seq<int>, new: Tree, other: Seq<int>)
    requires
        subtree(t, path) is Some,
        !on_one_branch(path, other),
    ensures
        subtree(replace_at(t, path, new), other) == subtree(t, other),
    decreases path.len(),
{
    if path.len() == 0 {
        assert(path.is_prefix_of(other));
    } else if other.len() == 0 {
        assert(other.is_prefix_of(path));
    } else {
        let items = t->List_0;
        if path[0] == other[0] {
            let p = path.drop_first();
            let q = other.drop_first();
            assert(!on_one_branch(p, q)) by {
                if p.is_prefix_of(q) {
                    assert(path =~= seq![path[0]] + p);
                    assert(path =~= other.take(path.len() as int));
                }
                if q.is_prefix_of(p) {
                    assert(other =~= seq![other[0]] + q);
                    assert(other =~= path.take(other.len() as int));
                }
            }
            replaced_elsewhere_is_kept(items[path[0]], p, new, q);
        }
    }
}

/// Replacing at one place keeps the length of every list above it.
pub proof fn replaced_above_keeps_length(t: Tree, path: Seq<int>, new: Tree, above: Seq<int>)
    requires
        subtree(t, path) is Some,
        above.is_prefix_of(path),
        above.len() < path.len(),
    ensures
        subtree(replace_at(t, path, new), above) matches Some(Tree::List(new_items)) && subtree(
            t,
            above,
        ) matches Some(Tree::List(old_items)) && new_items.len() == old_items.len(),
    decreases path.len(),
{
    let items = t->List_0;
    if above.len() > 0 {
        assert(above[0] == path.take(above.len() as int)[0]);
        assert(above.drop_first() =~= path.drop_first().take(above.len() - 1));
        replaced_above_keeps_length(items[path[0]], path.drop_first(), new, above.drop_first());
    }
}

/// An S-expression: an atom of bytes, or a list.
#[derive(Debug, PartialEq, Eq)]
pub enum SExpr {
    Atom(Vec<u8>),
    List(Vec<SExpr>),
}

/// The tree that an S-expression stands for.
pub open spec fn tree_of(s: SExpr) -> Tree
    decreases s,
{
    match s {
        SExpr::Atom(bytes) => Tree::Atom(bytes@),
        SExpr::List(items) => Tree::List(
            Seq::new(
                items@.len(),
                |i: int|
                    if 0 <= i < items@.len() {
                        tree_of(items@[i])
                    } else {
                        arbitrary()
                    },
            ),
        ),
    }
}

impl View for SExpr {
    type V = Tree;

    open spec fn view(&self) -> Tree {
        tree_of(*self)
    }
}

/// The trees of a row of S-expressions.
pub open spec fn trees(items: Seq<SExpr>) -> Seq<Tree> {
    Seq::new(items.len(), |i: int| items[i]@)
}

/// The view of a list is the list of its items' views.
pub broadcast proof fn list_view(items: Vec<SExpr>)
    ensures
        #[trigger] SExpr::List(items)@ == Tree::List(trees(items@)),
{
    assert(SExpr::List(items)@->List_0 =~= trees(items@));
}

/// An atom stands for its bytes, and a list for what its items stand for, in their order.
pub proof fn atoms_and_lists_stand_for_their_contents(bytes: Vec<u8>, items: Vec<SExpr>)
    ensures
        SExpr::Atom(bytes)@ == Tree::Atom(bytes@),
        SExpr::List(items)@ matches Tree::List(inside) && inside.len() == items@.len() && forall|
            i: int,
        |
            0 <= i < items@.len() ==> #[trigger] inside[i] == items@[i]@,
{
    list_view(items);
}

impl Clone for SExpr {
    fn clone(&self) -> (copy: Self)
        ensures
            copy@ == self@,
        decreases self,
    {
        match self {
            SExpr::Atom(bytes) => {
                let copy = bytes.clone();
                assert(copy@ =~= bytes@);
                SExpr::Atom(copy)
            },
            SExpr::List(items) => {
                broadcast use list_view;

                let mut copies: Vec<SExpr> = Vec::new();
                let mut i: usize = 0;
                while i < items.len()
                    invariant
                        i <= items.len(),
                        copies@.len() == i,
                        forall|j: int| 0 <= j < i ==> (#[trigger] copies@[j])@ == items@[j]@,
                        self matches SExpr::List(v) && v == items,
                    decreases items.len() - i,
                {
                    let copy = items[i].clone();
                    copies.push(copy);
                    i += 1;
                }
                assert(trees(copies@) =~= trees(items@));
                SExpr::List(copies)
            },
        }
    }
}

} // verus!
