//! Padding the proof of a program that verifies fewer than two proofs.
//!
//! A wrap proof holds its `old_bulletproof_challenges` as a list with one entry for
//! each proof that was verified, and each entry is a list of fifteen challenges.
//! A proof is decoded with two such entries. A proof that holds one is padded with a
//! copy of it, a proof that holds none with dummy entries (see the module `dummy`).
use vstd::prelude::*;

use crate::dummy::{
    atom_is_not_filled, empty_challenges_at, empty_challenges_have_a_first_place,
    fill_empty_challenges, filled, filled_at_the_first_place, filling_gives_two_entries,
    first_empty_challenges, follows, under,
};
use crate::error::ParseError;
use crate::sexp::{
    list_view, on_one_branch, precedes, precedes_is_asymmetric, replace_at,
    replaced_above_keeps_length, replaced_elsewhere_is_kept, replaced_is_found, subtree, trees,
    SExpr, Tree,
};

verus! {

/// How many challenges an entry holds.
pub const CHALLENGES_PER_ENTRY: usize = 15;

/// How many entries a padded list holds at least.
pub const PADDED_ENTRIES: usize = 2;

/// `t` is an entry: a list of as many items as an entry holds challenges.
pub open spec fn is_entry(t: Tree) -> bool {
    t matches Tree::List(challenges) && challenges.len() == CHALLENGES_PER_ENTRY
}

/// `t` is a list of `n` entries, and not an empty one.
pub open spec fn is_challenges(t: Tree, n: nat) -> bool {
    &&& n > 0
    &&& t matches Tree::List(entries)
    &&& entries.len() == n
    &&& forall|i: int| 0 <= i < entries.len() ==> is_entry(#[trigger] entries[i])
}

/// A list of `n` entries stands at `path` in `t`.
pub open spec fn challenges_at(t: Tree, path: Seq<int>, n: nat) -> bool {
    subtree(t, path) matches Some(found) && is_challenges(found, n)
}

/// A list of `n` entries stands somewhere in `t`.
pub open spec fn has_challenges(t: Tree, n: nat) -> bool {
    exists|path: Seq<int>| challenges_at(t, path, n)
}

/// `path` is the first place in `t`, in preorder, where a list of `n` entries stands.
pub open spec fn first_challenges(t: Tree, path: Seq<int>, n: nat) -> bool {
    &&& challenges_at(t, path, n)
    &&& forall|other: Seq<int>| #[trigger]
        challenges_at(t, other, n) ==> other == path || precedes(path, other)
}

/// `entries` with `count` copies of its first entry before it.
pub open spec fn with_copies(entries: Seq<Tree>, count: nat) -> Seq<Tree> {
    Seq::new(count, |i: int| entries[0]) + entries
}

/// `entries` with as many copies of its first entry before it as a padded list lacks.
pub open spec fn padded_entries(entries: Seq<Tree>) -> Seq<Tree> {
    if entries.len() < PADDED_ENTRIES {
        with_copies(entries, (PADDED_ENTRIES - entries.len()) as nat)
    } else {
        entries
    }
}

/// A list of challenges, padded.
pub open spec fn padded_challenges(t: Tree) -> Tree {
    match t {
        Tree::List(entries) => Tree::List(padded_entries(entries)),
        Tree::Atom(_) => t,
    }
}

/// `t` with its first list of `n` entries padded; `None` where it has no such list.
pub open spec fn padded(t: Tree, n: nat) -> Option<Tree> {
    if has_challenges(t, n) {
        let path = choose|path: Seq<int>| first_challenges(t, path, n);
        Some(replace_at(t, path, padded_challenges(subtree(t, path)->0)))
    } else {
        None
    }
}

/// The tree from which a proof with two entries is decoded. Where `max_proofs_verified`
/// is two or more it is `t` itself, where it is one it is `t` with its list of one entry
/// padded, and where it is none it is `t` with two entries `dummy` in its empty list.
pub open spec fn padded_to_n2(t: Tree, max_proofs_verified: u8, dummy: Tree) -> Result<
    Tree,
    ParseError,
> {
    let out = if max_proofs_verified >= PADDED_ENTRIES {
        Some(t)
    } else if max_proofs_verified == 0 {
        filled(t, false, dummy)
    } else {
        padded(t, max_proofs_verified as nat)
    };
    match out {
        Some(tree) => Ok(tree),
        None => Err(ParseError::NoChallenges),
    }
}

/// There is at most one first place.
pub proof fn first_challenges_is_unique(t: Tree, p: Seq<int>, q: Seq<int>, n: nat)
    requires
        first_challenges(t, p, n),
        first_challenges(t, q, n),
    ensures
        p == q,
{
    if p != q {
        assert(precedes(p, q));
        assert(precedes(q, p));
        precedes_is_asymmetric(p, q);
    }
}

/// Padding happens at the first place.
pub proof fn padded_at_the_first_place(t: Tree, path: Seq<int>, n: nat)
    requires
        first_challenges(t, path, n),
    ensures
        padded(t, n) == Some(replace_at(t, path, padded_challenges(subtree(t, path)->0))),
{
    let chosen = choose|p: Seq<int>| first_challenges(t, p, n);
    first_challenges_is_unique(t, path, chosen, n);
}

/// A tree that is itself a list of `n` entries is padded as a whole.
pub proof fn padded_at_the_root(entries: Seq<Tree>, n: nat)
    requires
        is_challenges(Tree::List(entries), n),
    ensures
        first_challenges(Tree::List(entries), Seq::empty(), n),
        padded(Tree::List(entries), n) == Some(Tree::List(padded_entries(entries))),
{
    let t = Tree::List(entries);
    let root = Seq::<int>::empty();
    assert(challenges_at(t, root, n));
    assert forall|other: Seq<int>| #[trigger] challenges_at(t, other, n) implies other == root
        || precedes(root, other) by {
        if other.len() == 0 {
            assert(other =~= root);
        }
    }
    padded_at_the_first_place(t, root, n);
}

/// A list that is no list of `n` entries itself is padded in the first of its items
/// that holds one.
pub proof fn padded_in_the_first_item(items: Seq<Tree>, n: nat, i: int, path: Seq<int>)
    requires
        !is_challenges(Tree::List(items), n),
        0 <= i < items.len(),
        first_challenges(items[i], path, n),
        forall|j: int| 0 <= j < i ==> !has_challenges(#[trigger] items[j], n),
    ensures
        first_challenges(Tree::List(items), seq![i] + path, n),
        padded(items[i], n) is Some,
        padded(Tree::List(items), n) == Some(
            Tree::List(items.update(i, padded(items[i], n)->0)),
        ),
{
    let t = Tree::List(items);
    let whole = seq![i] + path;
    assert(whole.drop_first() =~= path);
    assert(challenges_at(t, whole, n));
    assert forall|other: Seq<int>| #[trigger] challenges_at(t, other, n) implies other == whole
        || precedes(whole, other) by {
        let rest = other.drop_first();
        assert(other.len() > 0);
        assert(challenges_at(items[other[0]], rest, n));
        if other[0] == i {
            if rest == path {
                assert(other =~= whole);
            }
        } else {
            assert(other[0] > i);
        }
    }
    padded_at_the_first_place(items[i], path, n);
    padded_at_the_first_place(t, whole, n);
}

/// A list of `n` entries is nowhere in a list that is none itself and none of whose
/// items holds one.
pub proof fn not_padded_without_challenges(items: Seq<Tree>, n: nat)
    requires
        !is_challenges(Tree::List(items), n),
        forall|j: int| 0 <= j < items.len() ==> !has_challenges(#[trigger] items[j], n),
    ensures
        !has_challenges(Tree::List(items), n),
        padded(Tree::List(items), n) is None,
{
    let t = Tree::List(items);
    assert forall|path: Seq<int>| !challenges_at(t, path, n) by {
        if challenges_at(t, path, n) {
            assert(path.len() > 0);
            assert(challenges_at(items[path[0]], path.drop_first(), n));
            assert(has_challenges(items[path[0]], n));
        }
    }
}

/// An atom holds no list.
pub proof fn atom_is_not_padded(bytes: Seq<u8>, n: nat)
    ensures
        !has_challenges(Tree::Atom(bytes), n),
        padded(Tree::Atom(bytes), n) is None,
{
    assert forall|path: Seq<int>| !challenges_at(Tree::Atom(bytes), path, n) by {
    }
}

/// Where there is a list of `n` entries at all, there is a first one.
pub proof fn challenges_have_a_first_place(t: Tree, n: nat) -> (path: Seq<int>)
    requires
        has_challenges(t, n),
    ensures
        first_challenges(t, path, n),
    decreases t, 0int,
{
    match t {
        Tree::Atom(bytes) => {
            atom_is_not_padded(bytes, n);
            Seq::empty()
        },
        Tree::List(items) => {
            if is_challenges(t, n) {
                padded_at_the_root(items, n);
                Seq::empty()
            } else {
                if forall|j: int| 0 <= j < items.len() ==> !has_challenges(#[trigger] items[j], n) {
                    not_padded_without_challenges(items, n);
                }
                let some = choose|j: int|
                    0 <= j < items.len() && has_challenges(#[trigger] items[j], n);
                let i = first_item_with_challenges(items, n, some);
                let path = challenges_have_a_first_place(items[i], n);
                padded_in_the_first_item(items, n, i, path);
                seq![i] + path
            }
        },
    }
}

proof fn first_item_with_challenges(items: Seq<Tree>, n: nat, k: int) -> (i: int)
    requires
        0 <= k < items.len(),
        has_challenges(items[k], n),
    ensures
        0 <= i < items.len(),
        has_challenges(items[i], n),
        forall|j: int| 0 <= j < i ==> !has_challenges(#[trigger] items[j], n),
    decreases k,
{
    if exists|j: int| 0 <= j < k && has_challenges(#[trigger] items[j], n) {
        let j = choose|j: int| 0 <= j < k && has_challenges(#[trigger] items[j], n);
        first_item_with_challenges(items, n, j)
    } else {
        k
    }
}

/// Padding is complete: where it happens, a list of two entries (or of all `n`, where
/// there were more) stands at the place where the first list of `n` entries stood, and
/// it ends with the entries that were there; those before them repeat the first one.
pub proof fn padding_gives_two_entries(t: Tree, n: nat, path: Seq<int>)
    requires
        first_challenges(t, path, n),
    ensures
        padded(t, n) matches Some(out) && challenges_at(
            out,
            path,
            if n < PADDED_ENTRIES {
                PADDED_ENTRIES as nat
            } else {
                n
            },
        ) && ({
            let old_entries = subtree(t, path)->0->List_0;
            let new_entries = subtree(out, path)->0->List_0;
            let added = new_entries.len() - old_entries.len();
            &&& new_entries.skip(added) == old_entries
            &&& forall|i: int| 0 <= i < added ==> #[trigger] new_entries[i] == old_entries[0]
        }),
{
    padded_at_the_first_place(t, path, n);
    let old_list = subtree(t, path)->0;
    let entries = old_list->List_0;
    let new_list = padded_challenges(old_list);
    replaced_is_found(t, path, new_list);
    let new_entries = padded_entries(entries);
    let added = new_entries.len() - entries.len();
    assert(new_entries.skip(added) =~= entries);
    assert forall|i: int| 0 <= i < new_entries.len() implies is_entry(#[trigger] new_entries[i]) by {
        assert(is_entry(entries[0]));
        if i >= added {
            assert(is_entry(entries[i - added]));
        }
    }
}

/// Padding touches one place: whatever does not lie above it or below it is kept.
pub proof fn padding_keeps_the_rest(t: Tree, n: nat, path: Seq<int>, other: Seq<int>)
    requires
        first_challenges(t, path, n),
        !on_one_branch(path, other),
    ensures
        padded(t, n) matches Some(out) && subtree(out, other) == subtree(t, other),
{
    padded_at_the_first_place(t, path, n);
    replaced_elsewhere_is_kept(t, path, padded_challenges(subtree(t, path)->0), other);
}

/// Padding keeps the length of every list above the place that it touches.
pub proof fn padding_keeps_lengths_above(t: Tree, n: nat, path: Seq<int>, above: Seq<int>)
    requires
        first_challenges(t, path, n),
        above.is_prefix_of(path),
        above.len() < path.len(),
    ensures
        padded(t, n) matches Some(out) && subtree(out, above) matches Some(Tree::List(new_items))
            && subtree(t, above) matches Some(Tree::List(old_items)) && new_items.len()
            == old_items.len(),
{
    padded_at_the_first_place(t, path, n);
    replaced_above_keeps_length(t, path, padded_challenges(subtree(t, path)->0), above);
}

/// A proof of a program that verifies no proof is padded to two entries: both are the
/// dummy, and they stand where the first empty list of challenges stood.
pub proof fn proof_of_none_is_padded_to_two_entries(t: Tree, dummy: Tree, path: Seq<int>)
    requires
        is_entry(dummy),
        first_empty_challenges(t, path, false),
    ensures
        padded_to_n2(t, 0, dummy) matches Ok(out) && subtree(out, path) == Some(
            Tree::List(seq![dummy, dummy]),
        ) && challenges_at(out, path, PADDED_ENTRIES as nat),
{
    filling_gives_two_entries(t, path, false, dummy);
}

/// A proof of a program that verifies no proof is padded if and only if it holds an
/// empty list of challenges somewhere.
pub proof fn proof_of_none_is_padded_where_the_list_is_found(t: Tree, dummy: Tree)
    ensures
        padded_to_n2(t, 0, dummy) is Ok <==> exists|path: Seq<int>|
            empty_challenges_at(t, path, false),
{
}

/// A proof of a program that verifies one proof is padded if and only if it holds a
/// list of one entry somewhere.
pub proof fn proof_of_one_is_padded_where_an_entry_is_found(t: Tree, dummy: Tree)
    ensures
        padded_to_n2(t, 1, dummy) is Ok <==> exists|path: Seq<int>| challenges_at(t, path, 1),
{
}

/// A proof of a program that verifies fewer than two proofs has a list of two entries
/// once it is padded.
pub proof fn padded_proof_has_two_entries(t: Tree, max_proofs_verified: u8, dummy: Tree)
    requires
        is_entry(dummy),
        max_proofs_verified < PADDED_ENTRIES,
    ensures
        padded_to_n2(t, max_proofs_verified, dummy) matches Ok(out) ==> has_challenges(
            out,
            PADDED_ENTRIES as nat,
        ),
{
    if let Ok(out) = padded_to_n2(t, max_proofs_verified, dummy) {
        if max_proofs_verified == 0 {
            let path = empty_challenges_have_a_first_place(t, false);
            proof_of_none_is_padded_to_two_entries(t, dummy, path);
            assert(challenges_at(out, path, PADDED_ENTRIES as nat));
        } else {
            let path = challenges_have_a_first_place(t, 1);
            padding_gives_two_entries(t, 1, path);
            assert(challenges_at(out, path, PADDED_ENTRIES as nat));
        }
    }
}

/// A list of entries is found where it stands. One entry stands twice once it is padded;
/// two or more are kept as they are.
pub proof fn list_of_entries_is_padded_as_it_stands(entries: Seq<Tree>)
    requires
        entries.len() > 0,
        forall|i: int|
            0 <= i < entries.len() ==> (#[trigger] entries[i] matches Tree::List(challenges)
                && challenges.len() == 15),
    ensures
        has_challenges(Tree::List(entries), entries.len()),
        entries.len() == 1 ==> padded(Tree::List(entries), 1) == Some(
            Tree::List(seq![entries[0], entries[0]]),
        ),
        entries.len() >= 2 ==> padded(Tree::List(entries), entries.len()) == Some(
            Tree::List(entries),
        ),
{
    padded_at_the_root(entries, entries.len());
    assert(challenges_at(Tree::List(entries), Seq::empty(), entries.len()));
    if entries.len() == 1 {
        assert(padded_entries(entries) =~= seq![entries[0], entries[0]]);
    }
}

/// In a list that is no list of `n` entries, the first item in which there is something to
/// pad is padded, and every other item is kept.
pub proof fn first_item_to_pad_is_padded(items: Seq<Tree>, n: nat, i: int, new: Tree)
    requires
        !(items.len() == n && forall|j: int|
            0 <= j < items.len() ==> (#[trigger] items[j] matches Tree::List(challenges)
                && challenges.len() == 15)),
        0 <= i < items.len(),
        forall|j: int| 0 <= j < i ==> padded(#[trigger] items[j], n) is None,
        padded(items[i], n) == Some(new),
    ensures
        has_challenges(Tree::List(items), n),
        padded(Tree::List(items), n) == Some(Tree::List(items.update(i, new))),
{
    assert forall|j: int| 0 <= j < i implies !has_challenges(#[trigger] items[j], n) by {
        assert(padded(items[j], n) is None);
    }
    let path = challenges_have_a_first_place(items[i], n);
    assert(!is_challenges(Tree::List(items), n));
    padded_in_the_first_item(items, n, i, path);
    assert(challenges_at(Tree::List(items), seq![i] + path, n));
}

/// Where there is nothing to pad in any item of a list, and the list is no list of `n`
/// entries itself, there is nothing to pad in it.
pub proof fn nothing_else_is_padded(items: Seq<Tree>, n: nat)
    requires
        !(items.len() == n && n > 0 && forall|j: int|
            0 <= j < items.len() ==> (#[trigger] items[j] matches Tree::List(challenges)
                && challenges.len() == 15)),
        forall|j: int| 0 <= j < items.len() ==> padded(#[trigger] items[j], n) is None,
    ensures
        !has_challenges(Tree::List(items), n),
        padded(Tree::List(items), n) is None,
{
    assert forall|j: int| 0 <= j < items.len() implies !has_challenges(#[trigger] items[j], n) by {
        assert(padded(items[j], n) is None);
    }
    if is_challenges(Tree::List(items), n) {
        assert forall|j: int| 0 <= j < items.len() implies (#[trigger] items[j] matches Tree::List(
            challenges,
        ) && challenges.len() == 15) by {
            assert(is_entry(items[j]));
        }
    }
    not_padded_without_challenges(items, n);
}

/// No list is a list of no entries.
pub proof fn list_of_no_entries_is_not_padded(t: Tree)
    ensures
        !has_challenges(t, 0),
        padded(t, 0) is None,
{
}

/// There is something to pad if and only if something is padded.
pub proof fn padded_where_challenges_are_found(t: Tree, n: nat)
    ensures
        has_challenges(t, n) <==> padded(t, n) is Some,
{
}

/// The proof of a program that verifies one proof is padded by a copy of its entry, put
/// beside it in the list that holds it: a list of one entry becomes that entry twice.
pub proof fn entry_of_a_proof_of_one_is_doubled(challenges: Seq<Tree>, dummy: Tree)
    requires
        challenges.len() == 15,
    ensures
        padded_to_n2(Tree::List(seq![Tree::List(challenges)]), 1, dummy) == Ok::<Tree, ParseError>(
            Tree::List(seq![Tree::List(challenges), Tree::List(challenges)]),
        ),
{
    list_of_entries_is_padded_as_it_stands(seq![Tree::List(challenges)]);
}

/// In a list that is no list of one entry, the first item in which a proof of one can be
/// padded is padded, and every other item is kept.
pub proof fn proof_of_one_is_padded_inside_one_item(
    items: Seq<Tree>,
    i: int,
    new: Tree,
    dummy: Tree,
)
    requires
        !(items.len() == 1 && (items[0] matches Tree::List(challenges) && challenges.len() == 15)),
        0 <= i < items.len(),
        forall|j: int| 0 <= j < i ==> padded_to_n2(#[trigger] items[j], 1, dummy) is Err,
        padded_to_n2(items[i], 1, dummy) == Ok::<Tree, ParseError>(new),
    ensures
        padded_to_n2(Tree::List(items), 1, dummy) == Ok::<Tree, ParseError>(
            Tree::List(items.update(i, new)),
        ),
{
    assert forall|j: int| 0 <= j < i implies padded(#[trigger] items[j], 1) is None by {
        assert(padded_to_n2(items[j], 1, dummy) is Err);
    }
    if items.len() == 1 && forall|j: int|
        0 <= j < items.len() ==> (#[trigger] items[j] matches Tree::List(challenges)
            && challenges.len() == 15) {
        assert(items[0] matches Tree::List(challenges) && challenges.len() == 15);
    }
    first_item_to_pad_is_padded(items, 1, i, new);
}

/// A list that is no list of one entry, and none of whose items can be padded as a proof of
/// one, cannot be padded as one.
pub proof fn proof_of_one_without_an_entry_is_refused(items: Seq<Tree>, dummy: Tree)
    requires
        !(items.len() == 1 && (items[0] matches Tree::List(challenges) && challenges.len() == 15)),
        forall|j: int| 0 <= j < items.len() ==> padded_to_n2(#[trigger] items[j], 1, dummy) is Err,
    ensures
        padded_to_n2(Tree::List(items), 1, dummy) == Err::<Tree, ParseError>(
            ParseError::NoChallenges,
        ),
{
    assert forall|j: int| 0 <= j < items.len() implies padded(#[trigger] items[j], 1) is None by {
        assert(padded_to_n2(items[j], 1, dummy) is Err);
    }
    if items.len() == 1 && forall|j: int|
        0 <= j < items.len() ==> (#[trigger] items[j] matches Tree::List(challenges)
            && challenges.len() == 15) {
        assert(items[0] matches Tree::List(challenges) && challenges.len() == 15);
    }
    nothing_else_is_padded(items, 1);
}

/// An atom cannot be padded, whether as a proof of one or of none.
pub proof fn atom_is_refused(bytes: Seq<u8>, max_proofs_verified: u8, dummy: Tree)
    requires
        max_proofs_verified < 2,
    ensures
        padded_to_n2(Tree::Atom(bytes), max_proofs_verified, dummy) == Err::<Tree, ParseError>(
            ParseError::NoChallenges,
        ),
{
    atom_is_not_padded(bytes, 1);
    atom_is_not_filled(bytes, false, dummy);
}

/// A proof of one, padded, is the proof as it was but for one list: where the first list
/// of one entry stood, that entry stands twice. What lies off the way to it is kept, and
/// every list on the way keeps its length.
pub proof fn proof_of_one_is_kept_but_for_its_entry(
    t: Tree,
    path: Seq<int>,
    challenges: Seq<Tree>,
    dummy: Tree,
)
    requires
        challenges.len() == 15,
        subtree(t, path) == Some(Tree::List(seq![Tree::List(challenges)])),
        forall|other: Seq<int>|
            (#[trigger] subtree(t, other) matches Some(Tree::List(entries)) && entries.len() == 1
                && (entries[0] matches Tree::List(inner) && inner.len() == 15)) ==> other == path
                || precedes(path, other),
    ensures
        padded_to_n2(t, 1, dummy) matches Ok(out) && {
            &&& subtree(out, path) == Some(
                Tree::List(seq![Tree::List(challenges), Tree::List(challenges)]),
            )
            &&& forall|other: Seq<int>|
                !path.is_prefix_of(other) && !other.is_prefix_of(path) ==> #[trigger] subtree(
                    out,
                    other,
                ) == subtree(t, other)
            &&& forall|above: Seq<int>|
                above.is_prefix_of(path) && above.len() < path.len() ==> (
                #[trigger] subtree(out, above) matches Some(Tree::List(new_items)) && subtree(
                    t,
                    above,
                ) matches Some(Tree::List(old_items)) && new_items.len() == old_items.len())
            &&& out == replace_at(
                t,
                path,
                Tree::List(seq![Tree::List(challenges), Tree::List(challenges)]),
            )
        },
{
    let entry = Tree::List(challenges);
    assert(is_entry(entry));
    assert(challenges_at(t, path, 1));
    assert forall|other: Seq<int>| #[trigger] challenges_at(t, other, 1) implies other == path
        || precedes(path, other) by {
        let entries = subtree(t, other)->0->List_0;
        assert(is_entry(entries[0]));
    }
    assert(first_challenges(t, path, 1));
    padded_at_the_first_place(t, path, 1);
    let new = Tree::List(seq![entry, entry]);
    assert(padded_challenges(subtree(t, path)->0) == new) by {
        assert(padded_entries(seq![entry]) =~= seq![entry, entry]);
    }
    let out = replace_at(t, path, new);
    replaced_is_found(t, path, new);
    assert forall|other: Seq<int>|
        !path.is_prefix_of(other) && !other.is_prefix_of(path) implies #[trigger] subtree(
        out,
        other,
    ) == subtree(t, other) by {
        replaced_elsewhere_is_kept(t, path, new, other);
    }
    assert forall|above: Seq<int>| above.is_prefix_of(path) && above.len() < path.len() implies (
    #[trigger] subtree(out, above) matches Some(Tree::List(new_items)) && subtree(
        t,
        above,
    ) matches Some(Tree::List(old_items)) && new_items.len() == old_items.len()) by {
        replaced_above_keeps_length(t, path, new, above);
    }
}

/// A proof of one is padded the same whatever the dummy, and the proof of a program that
/// verifies two proofs or more is kept as it is.
pub proof fn dummy_is_for_proofs_of_none(
    t: Tree,
    max_proofs_verified: u8,
    dummy: Tree,
    other: Tree,
)
    ensures
        padded_to_n2(t, 1, dummy) == padded_to_n2(t, 1, other),
        max_proofs_verified >= 2 ==> padded_to_n2(t, max_proofs_verified, dummy) == Ok::<
            Tree,
            ParseError,
        >(t),
{
}

/// Padding fails for one reason alone.
pub proof fn padding_fails_for_want_of_challenges(t: Tree, max_proofs_verified: u8, dummy: Tree)
    ensures
        padded_to_n2(t, max_proofs_verified, dummy) matches Err(e) ==> e
            == ParseError::NoChallenges && max_proofs_verified < 2,
{
}

/// The proof of a program that verifies no proof is padded by filling in its empty list of
/// challenges, and in no other way.
pub proof fn proof_of_none_is_filled_in(t: Tree, dummy: Tree)
    ensures
        padded_to_n2(t, 0, dummy) == (match filled(t, false, dummy) {
            Some(out) => Ok::<Tree, ParseError>(out),
            None => Err(ParseError::NoChallenges),
        }),
{
}

/// A proof of none, padded, is the proof as it was but for one list: where the first empty
/// list of challenges inside the messages for the next wrap proof stood, the dummy stands
/// twice. What lies off the way to it is kept, and every list on the way keeps its length.
pub proof fn proof_of_none_is_kept_but_for_its_challenges(t: Tree, path: Seq<int>, dummy: Tree)
    requires
        subtree(t, path) == Some(Tree::List(Seq::empty())),
        follows(t, path, "old_bulletproof_challenges"@),
        under(t, path, "messages_for_next_wrap_proof"@),
        forall|other: Seq<int>|
            subtree(t, other) == Some(Tree::List(Seq::empty())) && follows(
                t,
                other,
                "old_bulletproof_challenges"@,
            ) && #[trigger] under(t, other, "messages_for_next_wrap_proof"@) ==> other == path
                || precedes(path, other),
    ensures
        padded_to_n2(t, 0, dummy) matches Ok(out) && {
            &&& subtree(out, path) == Some(Tree::List(seq![dummy, dummy]))
            &&& forall|other: Seq<int>|
                !path.is_prefix_of(other) && !other.is_prefix_of(path) ==> #[trigger] subtree(
                    out,
                    other,
                ) == subtree(t, other)
            &&& forall|above: Seq<int>|
                above.is_prefix_of(path) && above.len() < path.len() ==> (
                #[trigger] subtree(out, above) matches Some(Tree::List(new_items)) && subtree(
                    t,
                    above,
                ) matches Some(Tree::List(old_items)) && new_items.len() == old_items.len())
            &&& out == replace_at(t, path, Tree::List(seq![dummy, dummy]))
        },
{
    assert(empty_challenges_at(t, path, false));
    assert forall|other: Seq<int>| #[trigger] empty_challenges_at(t, other, false) implies other
        == path || precedes(path, other) by {
        assert(under(t, other, "messages_for_next_wrap_proof"@));
    }
    assert(first_empty_challenges(t, path, false));
    filled_at_the_first_place(t, path, false, dummy);
    let new = Tree::List(seq![dummy, dummy]);
    let out = replace_at(t, path, new);
    replaced_is_found(t, path, new);
    assert forall|other: Seq<int>|
        !path.is_prefix_of(other) && !other.is_prefix_of(path) implies #[trigger] subtree(
        out,
        other,
    ) == subtree(t, other) by {
        replaced_elsewhere_is_kept(t, path, new, other);
    }
    assert forall|above: Seq<int>| above.is_prefix_of(path) && above.len() < path.len() implies (
    #[trigger] subtree(out, above) matches Some(Tree::List(new_items)) && subtree(
        t,
        above,
    ) matches Some(Tree::List(old_items)) && new_items.len() == old_items.len()) by {
        replaced_above_keeps_length(t, path, new, above);
    }
}

/// Whether a row of items is a list of `current_len` entries, and not an empty one.
fn are_challenges(items: &Vec<SExpr>, current_len: usize) -> (yes: bool)
    ensures
        yes == is_challenges(Tree::List(trees(items@)), current_len as nat),
{
    broadcast use list_view;

    if current_len == 0 || items.len() != current_len {
        return false;
    }
    let mut i: usize = 0;
    while i < items.len()
        invariant
            i <= items.len(),
            forall|j: int| 0 <= j < i ==> is_entry(#[trigger] trees(items@)[j]),
        decreases items.len() - i,
    {
        assert(trees(items@)[i as int] == items@[i as int]@);
        match &items[i] {
            SExpr::List(challenges) if challenges.len() == CHALLENGES_PER_ENTRY => {},
            _ => {
                return false;
            },
        }
        i += 1;
    }
    true
}

/// Finds, in preorder, the first list of `current_len` entries (each a list of fifteen
/// challenges) and pads it to two by putting copies of its first entry before it.
/// Returns whether there was such a list; if not, nothing changes.
pub fn pad_wrap_challenges(sexp: &mut SExpr, current_len: usize) -> (found: bool)
    ensures
        found == has_challenges(old(sexp)@, current_len as nat),
        final(sexp)@ == (match padded(old(sexp)@, current_len as nat) {
            Some(tree) => tree,
            None => old(sexp)@,
        }),
    decreases old(sexp)@,
{
    broadcast use list_view;

    let ghost n = current_len as nat;
    match sexp {
        SExpr::Atom(bytes) => {
            proof {
                atom_is_not_padded(bytes@, n);
            }
            false
        },
        SExpr::List(items) => {
            let ghost before = items@;
            if are_challenges(items, current_len) {
                let padding = items[0].clone();
                proof {
                    padded_at_the_root(trees(before), n);
                }
                while items.len() < PADDED_ENTRIES
                    invariant
                        before.len() > 0,
                        padding@ == before[0]@,
                        before.len() <= items@.len(),
                        items@.len() <= PADDED_ENTRIES || items@.len() == before.len(),
                        trees(items@) == with_copies(
                            trees(before),
                            (items@.len() - before.len()) as nat,
                        ),
                    decreases PADDED_ENTRIES - items.len(),
                {
                    let copy = padding.clone();
                    items.insert(0, copy);
                    assert(trees(items@) =~= with_copies(
                        trees(before),
                        (items@.len() - before.len()) as nat,
                    ));
                }
                assert(trees(items@) =~= padded_entries(trees(before)));
                return true;
            }
            let mut found: bool = false;
            let mut i: usize = 0;
            while !found && i < items.len()
                invariant
                    n == current_len,
                    i <= items@.len(),
                    items@.len() == before.len(),
                    old(sexp)@ == Tree::List(trees(before)),
                    !is_challenges(Tree::List(trees(before)), n),
                    found ==> padded(Tree::List(trees(before)), n) == Some(
                        Tree::List(trees(items@)),
                    ),
                    !found ==> trees(items@) == trees(before),
                    !found ==> forall|j: int|
                        0 <= j < i ==> !has_challenges(#[trigger] trees(before)[j], n),
                decreases items.len() - i,
            {
                assert(trees(before)[i as int] == items@[i as int]@);
                found = pad_wrap_challenges(&mut items[i], current_len);
                proof {
                    if found {
                        let place = challenges_have_a_first_place(trees(before)[i as int], n);
                        padded_in_the_first_item(trees(before), n, i as int, place);
                        assert(trees(items@) =~= trees(before).update(
                            i as int,
                            padded(trees(before)[i as int], n)->0,
                        ));
                    } else {
                        assert(trees(items@) =~= trees(before));
                    }
                }
                i += 1;
            }
            proof {
                if !found {
                    not_padded_without_challenges(trees(before), n);
                }
            }
            found
        },
    }
}

/// Pads the proof of a program that verifies fewer than two proofs, so that it decodes
/// as one that verifies two. `dummy` is the entry that a proof of none is padded with.
/// A proof of two or more is left as it is.
pub fn pad_proof_sexp_to_n2(sexp: SExpr, max_proofs_verified: u8, dummy: &SExpr) -> (result: Result<
    SExpr,
    ParseError,
>)
    requires
        is_entry(dummy@),
    ensures
        match result {
            Ok(out) => padded_to_n2(sexp@, max_proofs_verified, dummy@) == Ok::<Tree, ParseError>(
                out@,
            ),
            Err(e) => padded_to_n2(sexp@, max_proofs_verified, dummy@) == Err::<Tree, ParseError>(
                e,
            ),
        },
{
    if max_proofs_verified as usize >= PADDED_ENTRIES {
        return Ok(sexp);
    }
    let mut sexp = sexp;
    let found = if max_proofs_verified == 0 {
        fill_empty_challenges(&mut sexp, false, dummy)
    } else {
        pad_wrap_challenges(&mut sexp, max_proofs_verified as usize)
    };
    if !found {
        return Err(ParseError::NoChallenges);
    }
    Ok(sexp)
}

} // verus!
