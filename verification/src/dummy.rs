//! Filling in the challenges of the proof of a program that verifies no proof.
//!
//! Such a proof holds its `old_bulletproof_challenges` as an empty list. The list that
//! matters is the one in `messages_for_next_wrap_proof`: the messages for the next step
//! proof have a field of the same name. It has no entry to copy, so an entry of dummy
//! challenges is put in its place twice.
use vstd::prelude::*;

use crate::sexp::{
    list_view, on_one_branch, precedes, precedes_is_asymmetric, replace_at,
    replaced_above_keeps_length, replaced_elsewhere_is_kept, replaced_is_found, subtree, trees,
    SExpr, Tree,
};

verus! {

/// The field of the challenges.
pub const CHALLENGES_FIELD: &'static str = "old_bulletproof_challenges";

/// The field of the messages that hold the challenges.
pub const MESSAGES_FIELD: &'static str = "messages_for_next_wrap_proof";

/// `t` is an atom that reads `name`.
pub open spec fn reads(t: Tree, name: Seq<char>) -> bool {
    &&& t matches Tree::Atom(bytes)
    &&& bytes.len() == name.len()
    &&& forall|i: int| 0 <= i < bytes.len() ==> #[trigger] bytes[i] as int == name[i] as int
}

/// The item at `i` comes right after an atom that reads `name`.
pub open spec fn item_follows(items: Seq<Tree>, i: int, name: Seq<char>) -> bool {
    0 < i < items.len() && reads(items[i - 1], name)
}

/// What is at `path` comes, in its list, right after an atom that reads `name`.
pub open spec fn follows(t: Tree, path: Seq<int>, name: Seq<char>) -> bool {
    &&& path.len() > 0
    &&& subtree(t, path.drop_last()) matches Some(Tree::List(items))
    &&& item_follows(items, path.last(), name)
}

/// What is at `path` lies inside something that comes right after an atom that reads
/// `name`.
pub open spec fn under(t: Tree, path: Seq<int>, name: Seq<char>) -> bool {
    exists|k: int| 0 < k < path.len() && follows(t, #[trigger] path.take(k), name)
}

/// The empty list of challenges stands at `path` in `t`. `inside` tells that `t` itself
/// lies inside the messages.
pub open spec fn empty_challenges_at(t: Tree, path: Seq<int>, inside: bool) -> bool {
    &&& subtree(t, path) == Some(Tree::List(Seq::empty()))
    &&& follows(t, path, CHALLENGES_FIELD@)
    &&& inside || under(t, path, MESSAGES_FIELD@)
}

/// An empty list of challenges stands somewhere in `t`.
pub open spec fn has_empty_challenges(t: Tree, inside: bool) -> bool {
    exists|path: Seq<int>| empty_challenges_at(t, path, inside)
}

/// `path` is the first place in `t`, in preorder, where an empty list of challenges
/// stands.
pub open spec fn first_empty_challenges(t: Tree, path: Seq<int>, inside: bool) -> bool {
    &&& empty_challenges_at(t, path, inside)
    &&& forall|other: Seq<int>| #[trigger]
        empty_challenges_at(t, other, inside) ==> other == path || precedes(path, other)
}

/// `t` with two entries `dummy` in its first empty list of challenges; `None` where it
/// has no such list.
pub open spec fn filled(t: Tree, inside: bool, dummy: Tree) -> Option<Tree> {
    if has_empty_challenges(t, inside) {
        let path = choose|path: Seq<int>| first_empty_challenges(t, path, inside);
        Some(replace_at(t, path, Tree::List(seq![dummy, dummy])))
    } else {
        None
    }
}

/// The item at `i` is an empty list right after the name of the challenges.
pub open spec fn is_empty_field(items: Seq<Tree>, i: int) -> bool {
    item_follows(items, i, CHALLENGES_FIELD@) && items[i] == Tree::List(Seq::empty())
}

/// The item at `i` is, or has inside it, an empty list of challenges.
pub open spec fn item_has(items: Seq<Tree>, i: int, inside: bool) -> bool {
    ||| inside && is_empty_field(items, i)
    ||| has_empty_challenges(items[i], inside || item_follows(items, i, MESSAGES_FIELD@))
}

/// The item at `i`, filled in.
pub open spec fn filled_item(items: Seq<Tree>, i: int, inside: bool, dummy: Tree) -> Tree {
    if inside && is_empty_field(items, i) {
        Tree::List(seq![dummy, dummy])
    } else {
        filled(items[i], inside || item_follows(items, i, MESSAGES_FIELD@), dummy)->0
    }
}

/// Filling in happens at the first place.
pub proof fn filled_at_the_first_place(t: Tree, path: Seq<int>, inside: bool, dummy: Tree)
    requires
        first_empty_challenges(t, path, inside),
    ensures
        filled(t, inside, dummy) == Some(replace_at(t, path, Tree::List(seq![dummy, dummy]))),
{
    let chosen = choose|p: Seq<int>| first_empty_challenges(t, p, inside);
    if path != chosen {
        assert(precedes(path, chosen));
        assert(precedes(chosen, path));
        precedes_is_asymmetric(path, chosen);
    }
}

/// What follows an atom inside an item of a list follows it inside the list.
proof fn follows_inside(items: Seq<Tree>, path: Seq<int>, name: Seq<char>)
    requires
        path.len() > 1,
        0 <= path[0] < items.len(),
    ensures
        follows(Tree::List(items), path, name) <==> follows(
            items[path[0]],
            path.drop_first(),
            name,
        ),
{
    assert(path.drop_last().drop_first() =~= path.drop_first().drop_last());
}

/// A place below an item of a list lies inside what follows an atom if the item follows
/// it, or if it does so in the item.
proof fn under_inside(items: Seq<Tree>, path: Seq<int>, name: Seq<char>)
    requires
        path.len() > 1,
        0 <= path[0] < items.len(),
    ensures
        under(Tree::List(items), path, name) <==> item_follows(items, path[0], name) || under(
            items[path[0]],
            path.drop_first(),
            name,
        ),
{
    let t = Tree::List(items);
    let rest = path.drop_first();
    assert(follows(t, path.take(1), name) <==> item_follows(items, path[0], name)) by {
        assert(path.take(1).drop_last() =~= Seq::<int>::empty());
    }
    assert forall|k: int| 1 < k < path.len() implies follows(t, #[trigger] path.take(k), name)
        == follows(items[path[0]], rest.take(k - 1), name) by {
        follows_inside(items, path.take(k), name);
        assert(path.take(k).drop_first() =~= rest.take(k - 1));
    }
    if under(t, path, name) {
        let k = choose|k: int| 0 < k < path.len() && follows(t, #[trigger] path.take(k), name);
        if k > 1 {
            assert(follows(items[path[0]], rest.take(k - 1), name));
        }
    }
    if under(items[path[0]], rest, name) {
        let k = choose|k: int|
            0 < k < rest.len() && follows(items[path[0]], #[trigger] rest.take(k), name);
        assert(follows(t, path.take(k + 1), name));
    }
}

/// Where an empty list of challenges can stand in a list: as an item, or inside one.
pub proof fn empty_challenges_in_items(items: Seq<Tree>, path: Seq<int>, inside: bool)
    ensures
        empty_challenges_at(Tree::List(items), path, inside) <==> {
            &&& path.len() > 0
            &&& 0 <= path[0] < items.len()
            &&& if path.len() == 1 {
                inside && is_empty_field(items, path[0])
            } else {
                empty_challenges_at(
                    items[path[0]],
                    path.drop_first(),
                    inside || item_follows(items, path[0], MESSAGES_FIELD@),
                )
            }
        },
{
    let t = Tree::List(items);
    if path.len() == 1 {
        assert(path.drop_last() =~= Seq::<int>::empty());
        assert(path.drop_first() =~= Seq::<int>::empty());
    } else if path.len() > 1 && 0 <= path[0] < items.len() {
        follows_inside(items, path, CHALLENGES_FIELD@);
        under_inside(items, path, MESSAGES_FIELD@);
    }
}

/// An empty list has nothing inside it.
proof fn empty_list_has_none(inside: bool)
    ensures
        !has_empty_challenges(Tree::List(Seq::empty()), inside),
{
    let none = Seq::<Tree>::empty();
    assert forall|path: Seq<int>| !empty_challenges_at(Tree::List(none), path, inside) by {
        empty_challenges_in_items(none, path, inside);
    }
}

/// A list is filled in in the first of its items that is, or has, an empty list of
/// challenges.
pub proof fn filled_in_the_first_item(items: Seq<Tree>, i: int, inside: bool) -> (path: Seq<int>)
    requires
        0 <= i < items.len(),
        item_has(items, i, inside),
        forall|j: int| 0 <= j < i ==> !#[trigger] item_has(items, j, inside),
    ensures
        first_empty_challenges(Tree::List(items), path, inside),
        forall|dummy: Tree| #[trigger]
            filled(Tree::List(items), inside, dummy) == Some(
                Tree::List(items.update(i, filled_item(items, i, inside, dummy))),
            ),
    decreases items[i], 1int,
{
    let t = Tree::List(items);
    let below = inside || item_follows(items, i, MESSAGES_FIELD@);
    let named = inside && is_empty_field(items, i);
    let deep = if named {
        Seq::<int>::empty()
    } else {
        empty_challenges_have_a_first_place(items[i], below)
    };
    let path = seq![i] + deep;
    assert(path.drop_first() =~= deep);
    empty_challenges_in_items(items, path, inside);
    assert(empty_challenges_at(t, path, inside));
    assert forall|other: Seq<int>| #[trigger] empty_challenges_at(t, other, inside) implies other
        == path || precedes(path, other) by {
        empty_challenges_in_items(items, other, inside);
        let j = other[0];
        assert(item_has(items, j, inside));
        if j == i {
            if named {
                if other.len() == 1 {
                    assert(other =~= path);
                } else {
                    empty_list_has_none(below);
                }
            } else if other.drop_first() == deep {
                assert(other =~= path);
            }
        } else {
            assert(j > i);
        }
    }
    assert forall|dummy: Tree| #[trigger] filled(t, inside, dummy) == Some(
        Tree::List(items.update(i, filled_item(items, i, inside, dummy))),
    ) by {
        filled_at_the_first_place(t, path, inside, dummy);
        let new = Tree::List(seq![dummy, dummy]);
        if named {
            assert(replace_at(items[i], deep, new) == new);
        } else {
            filled_at_the_first_place(items[i], deep, below, dummy);
        }
    }
    path
}

/// Where there is an empty list of challenges at all, there is a first one.
pub proof fn empty_challenges_have_a_first_place(t: Tree, inside: bool) -> (path: Seq<int>)
    requires
        has_empty_challenges(t, inside),
    ensures
        first_empty_challenges(t, path, inside),
    decreases t, 0int,
{
    let some = choose|path: Seq<int>| empty_challenges_at(t, path, inside);
    match t {
        Tree::Atom(_) => {
            assert(false);
            Seq::empty()
        },
        Tree::List(items) => {
            empty_challenges_in_items(items, some, inside);
            assert(item_has(items, some[0], inside));
            let i = first_item_that_has(items, inside, some[0]);
            filled_in_the_first_item(items, i, inside)
        },
    }
}

proof fn first_item_that_has(items: Seq<Tree>, inside: bool, k: int) -> (i: int)
    requires
        0 <= k < items.len(),
        item_has(items, k, inside),
    ensures
        0 <= i < items.len(),
        item_has(items, i, inside),
        forall|j: int| 0 <= j < i ==> !#[trigger] item_has(items, j, inside),
    decreases k,
{
    if exists|j: int| 0 <= j < k && #[trigger] item_has(items, j, inside) {
        let j = choose|j: int| 0 <= j < k && #[trigger] item_has(items, j, inside);
        first_item_that_has(items, inside, j)
    } else {
        k
    }
}

/// A list none of whose items is, or has, an empty list of challenges has none.
pub proof fn not_filled_without_empty_challenges(items: Seq<Tree>, inside: bool)
    requires
        forall|j: int| 0 <= j < items.len() ==> !#[trigger] item_has(items, j, inside),
    ensures
        !has_empty_challenges(Tree::List(items), inside),
{
    assert forall|path: Seq<int>| !empty_challenges_at(Tree::List(items), path, inside) by {
        empty_challenges_in_items(items, path, inside);
        if empty_challenges_at(Tree::List(items), path, inside) {
            assert(item_has(items, path[0], inside));
        }
    }
}

/// Filling in is complete: two entries stand where the first empty list of challenges
/// stood, and both are the dummy.
pub proof fn filling_gives_two_entries(t: Tree, path: Seq<int>, inside: bool, dummy: Tree)
    requires
        first_empty_challenges(t, path, inside),
    ensures
        filled(t, inside, dummy) matches Some(out) && subtree(out, path) == Some(
            Tree::List(seq![dummy, dummy]),
        ),
{
    filled_at_the_first_place(t, path, inside, dummy);
    replaced_is_found(t, path, Tree::List(seq![dummy, dummy]));
}

/// Filling in touches one place: whatever does not lie above it or below it is kept.
pub proof fn filling_keeps_the_rest(
    t: Tree,
    path: Seq<int>,
    inside: bool,
    dummy: Tree,
    other: Seq<int>,
)
    requires
        first_empty_challenges(t, path, inside),
        !on_one_branch(path, other),
    ensures
        filled(t, inside, dummy) matches Some(out) && subtree(out, other) == subtree(t, other),
{
    filled_at_the_first_place(t, path, inside, dummy);
    replaced_elsewhere_is_kept(t, path, Tree::List(seq![dummy, dummy]), other);
}

/// Filling in keeps the length of every list above the place that it touches.
pub proof fn filling_keeps_lengths_above(
    t: Tree,
    path: Seq<int>,
    inside: bool,
    dummy: Tree,
    above: Seq<int>,
)
    requires
        first_empty_challenges(t, path, inside),
        above.is_prefix_of(path),
        above.len() < path.len(),
    ensures
        filled(t, inside, dummy) matches Some(out) && subtree(out, above) matches Some(
            Tree::List(new_items),
        ) && subtree(t, above) matches Some(Tree::List(old_items)) && new_items.len()
            == old_items.len(),
{
    filled_at_the_first_place(t, path, inside, dummy);
    replaced_above_keeps_length(t, path, Tree::List(seq![dummy, dummy]), above);
}

/// An atom reads a name if its bytes are the name's characters; a list reads none.
pub proof fn atoms_read_names(bytes: Seq<u8>, items: Seq<Tree>, name: Seq<char>)
    ensures
        reads(Tree::Atom(bytes), name) <==> bytes.len() == name.len() && forall|i: int|
            0 <= i < bytes.len() ==> #[trigger] bytes[i] as int == name[i] as int,
        !reads(Tree::List(items), name),
{
}

/// The item at `i` of the list at `path` follows a name if the item before it reads the
/// name; the first item follows none.
pub proof fn items_follow_names(t: Tree, path: Seq<int>, i: int, name: Seq<char>)
    ensures
        follows(t, path.push(i), name) <==> (subtree(t, path) matches Some(Tree::List(items)) && 0
            < i < items.len() && reads(items[i - 1], name)),
        !follows(t, Seq::empty(), name),
{
    assert(path.push(i).drop_last() =~= path);
}

/// A place is inside what follows a name if it lies below a place that follows the name.
pub proof fn places_below_are_inside(t: Tree, path: Seq<int>, name: Seq<char>)
    ensures
        under(t, path, name) <==> exists|above: Seq<int>|
            #[trigger] follows(t, above, name) && above.is_prefix_of(path) && above.len()
                < path.len(),
{
    if under(t, path, name) {
        let k = choose|k: int| 0 < k < path.len() && follows(t, #[trigger] path.take(k), name);
        assert(path.take(k).is_prefix_of(path));
    }
    if exists|above: Seq<int>|
        #[trigger] follows(t, above, name) && above.is_prefix_of(path) && above.len() < path.len() {
        let above = choose|above: Seq<int>|
            #[trigger] follows(t, above, name) && above.is_prefix_of(path) && above.len()
                < path.len();
        assert(above =~= path.take(above.len() as int));
    }
}

/// Inside the messages, an empty list right after the name of the challenges takes the
/// dummy twice, if nothing is filled in before it. Every other item is kept.
pub proof fn empty_field_takes_two_entries(items: Seq<Tree>, i: int, dummy: Tree)
    requires
        0 < i < items.len(),
        reads(items[i - 1], "old_bulletproof_challenges"@),
        items[i] == Tree::List(Seq::empty()),
        forall|j: int|
            0 < j < i ==> !(reads(items[j - 1], "old_bulletproof_challenges"@)
                && #[trigger] items[j] == Tree::List(Seq::empty())),
        forall|j: int| 0 <= j < i ==> filled(#[trigger] items[j], true, dummy) is None,
    ensures
        has_empty_challenges(Tree::List(items), true),
        filled(Tree::List(items), true, dummy) == Some(
            Tree::List(items.update(i, Tree::List(seq![dummy, dummy]))),
        ),
{
    assert(item_has(items, i, true));
    assert forall|j: int| 0 <= j < i implies !#[trigger] item_has(items, j, true) by {
        assert(filled(items[j], true, dummy) is None);
    }
    let path = filled_in_the_first_item(items, i, true);
    assert(empty_challenges_at(Tree::List(items), path, true));
}

/// The first item in which something is filled in is filled in, and every other item is
/// kept. Its inside is inside the messages where the list is, or where it comes right
/// after their name.
pub proof fn first_item_to_fill_is_filled(
    items: Seq<Tree>,
    i: int,
    inside: bool,
    new: Tree,
    dummy: Tree,
)
    requires
        0 <= i < items.len(),
        filled(
            items[i],
            inside || (i > 0 && reads(items[i - 1], "messages_for_next_wrap_proof"@)),
            dummy,
        ) == Some(new),
        inside ==> forall|j: int|
            0 < j < i ==> !(reads(items[j - 1], "old_bulletproof_challenges"@)
                && #[trigger] items[j] == Tree::List(Seq::empty())),
        forall|j: int|
            0 <= j < i ==> filled(
                #[trigger] items[j],
                inside || (j > 0 && reads(items[j - 1], "messages_for_next_wrap_proof"@)),
                dummy,
            ) is None,
    ensures
        has_empty_challenges(Tree::List(items), inside),
        filled(Tree::List(items), inside, dummy) == Some(Tree::List(items.update(i, new))),
{
    let below = inside || item_follows(items, i, MESSAGES_FIELD@);
    assert(has_empty_challenges(items[i], below));
    assert(item_has(items, i, inside));
    assert forall|j: int| 0 <= j < i implies !#[trigger] item_has(items, j, inside) by {
        assert(filled(
            items[j],
            inside || (j > 0 && reads(items[j - 1], "messages_for_next_wrap_proof"@)),
            dummy,
        ) is None);
    }
    empty_list_has_none(below);
    let path = filled_in_the_first_item(items, i, inside);
    assert(empty_challenges_at(Tree::List(items), path, inside));
}

/// Nothing is filled in in a list none of whose items takes anything.
pub proof fn nothing_else_is_filled(items: Seq<Tree>, inside: bool, dummy: Tree)
    requires
        inside ==> forall|j: int|
            0 < j < items.len() ==> !(reads(items[j - 1], "old_bulletproof_challenges"@)
                && #[trigger] items[j] == Tree::List(Seq::empty())),
        forall|j: int|
            0 <= j < items.len() ==> filled(
                #[trigger] items[j],
                inside || (j > 0 && reads(items[j - 1], "messages_for_next_wrap_proof"@)),
                dummy,
            ) is None,
    ensures
        !has_empty_challenges(Tree::List(items), inside),
        filled(Tree::List(items), inside, dummy) is None,
{
    assert forall|j: int| 0 <= j < items.len() implies !#[trigger] item_has(items, j, inside) by {
        assert(filled(
            items[j],
            inside || (j > 0 && reads(items[j - 1], "messages_for_next_wrap_proof"@)),
            dummy,
        ) is None);
    }
    not_filled_without_empty_challenges(items, inside);
}

/// Nothing is filled in in an atom.
pub proof fn atom_is_not_filled(bytes: Seq<u8>, inside: bool, dummy: Tree)
    ensures
        !has_empty_challenges(Tree::Atom(bytes), inside),
        filled(Tree::Atom(bytes), inside, dummy) is None,
{
}

/// There is something to fill in if and only if something is filled in.
pub proof fn filled_where_empty_challenges_are_found(t: Tree, inside: bool, dummy: Tree)
    ensures
        has_empty_challenges(t, inside) <==> filled(t, inside, dummy) is Some,
{
}

/// Whether an S-expression is an atom that reads `name`.
fn is_named(sexp: &SExpr, name: &str) -> (yes: bool)
    requires
        name.is_ascii(),
    ensures
        yes == reads(sexp@, name@),
{
    broadcast use vstd::string::is_ascii_spec_bytes;

    match sexp {
        SExpr::List(_) => false,
        SExpr::Atom(bytes) => {
            let wanted = name.as_bytes();
            if bytes.len() != wanted.len() {
                return false;
            }
            let mut i: usize = 0;
            while i < bytes.len()
                invariant
                    i <= bytes.len(),
                    bytes@.len() == wanted@.len(),
                    name@.len() == wanted@.len(),
                    sexp@ == Tree::Atom(bytes@),
                    forall|j: int|
                        0 <= j < wanted@.len() ==> #[trigger] wanted@[j] as int == name@[j] as int,
                    forall|j: int|
                        0 <= j < i ==> #[trigger] bytes@[j] as int == name@[j] as int,
                decreases bytes.len() - i,
            {
                if bytes[i] != wanted[i] {
                    assert(bytes@[i as int] as int != name@[i as int] as int);
                    return false;
                }
                i += 1;
            }
            true
        },
    }
}

/// Whether the item at `i` comes right after an atom that reads `name`.
fn comes_after(items: &Vec<SExpr>, i: usize, name: &str) -> (yes: bool)
    requires
        i < items.len(),
        name.is_ascii(),
    ensures
        yes == item_follows(trees(items@), i as int, name@),
{
    i > 0 && is_named(&items[i - 1], name)
}

/// Whether an S-expression is the empty list.
fn is_empty_list(sexp: &SExpr) -> (yes: bool)
    ensures
        yes == (sexp@ == Tree::List(Seq::empty())),
{
    broadcast use list_view;

    match sexp {
        SExpr::Atom(_) => false,
        SExpr::List(items) => {
            assert(items@.len() == 0 ==> trees(items@) =~= Seq::empty());
            assert(items@.len() == trees(items@).len());
            items.len() == 0
        },
    }
}

/// Finds, in preorder, the first empty list of challenges and puts two copies of
/// `dummy` into it. `inside` tells that `sexp` itself lies inside the messages. Returns
/// whether there was such a list; if not, nothing changes.
pub fn fill_empty_challenges(sexp: &mut SExpr, inside: bool, dummy: &SExpr) -> (found: bool)
    ensures
        found == has_empty_challenges(old(sexp)@, inside),
        final(sexp)@ == (match filled(old(sexp)@, inside, dummy@) {
            Some(tree) => tree,
            None => old(sexp)@,
        }),
    decreases old(sexp)@,
{
    broadcast use list_view;

    match sexp {
        SExpr::Atom(_) => false,
        SExpr::List(items) => {
            let ghost before = trees(items@);
            let mut found: bool = false;
            let mut i: usize = 0;
            while !found && i < items.len()
                invariant
                    i <= items@.len(),
                    items@.len() == before.len(),
                    old(sexp)@ == Tree::List(before),
                    found ==> has_empty_challenges(Tree::List(before), inside),
                    found ==> filled(Tree::List(before), inside, dummy@) == Some(
                        Tree::List(trees(items@)),
                    ),
                    !found ==> trees(items@) == before,
                    !found ==> forall|j: int|
                        0 <= j < i ==> !#[trigger] item_has(before, j, inside),
                decreases items.len() - i,
            {
                proof {
                    reveal_strlit("old_bulletproof_challenges");
                    reveal_strlit("messages_for_next_wrap_proof");
                }
                assert(before[i as int] == items@[i as int]@);
                let below = inside || comes_after(items, i, MESSAGES_FIELD);
                if inside && comes_after(items, i, CHALLENGES_FIELD) && is_empty_list(&items[i]) {
                    let mut entries: Vec<SExpr> = Vec::new();
                    entries.push(dummy.clone());
                    entries.push(dummy.clone());
                    assert(trees(entries@) =~= seq![dummy@, dummy@]);
                    proof {
                        list_view(entries);
                    }
                    items[i] = SExpr::List(entries);
                    found = true;
                } else {
                    found = fill_empty_challenges(&mut items[i], below, dummy);
                }
                proof {
                    if found {
                        assert(item_has(before, i as int, inside));
                        filled_in_the_first_item(before, i as int, inside);
                        assert(trees(items@) =~= before.update(
                            i as int,
                            filled_item(before, i as int, inside, dummy@),
                        ));
                    } else {
                        assert(trees(items@) =~= before);
                    }
                }
                i += 1;
            }
            proof {
                if !found {
                    not_filled_without_empty_challenges(before, inside);
                }
            }
            found
        },
    }
}

} // verus!
