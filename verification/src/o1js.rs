//! The proofs that o1js writes as JSON.
use vstd::prelude::*;

use crate::dummy::{follows, under};
use crate::error::ParseError;
use crate::padding::{
    challenges_at, is_entry, pad_proof_sexp_to_n2, padded_to_n2,
    padding_fails_for_want_of_challenges, proof_of_none_is_kept_but_for_its_challenges,
    proof_of_one_is_kept_but_for_its_entry, proof_of_one_is_padded_where_an_entry_is_found,
    PADDED_ENTRIES,
};
use crate::reader::{
    answers_by_tree, decode_outcome, decoded_proof, proof_tree, read_proof_sexp,
    read_tree_gives_what_the_decoder_answers, text_escapes_fit, white_space_around_is_ignored,
};
use crate::sexp::{precedes, subtree, SExpr, Tree};
use crate::text::is_white_space;

verus! {

/// The JSON of an o1js proof.
#[derive(Debug)]
pub struct O1jsProofJson {
    pub public_input: Vec<String>,
    pub public_output: Vec<String>,
    /// How many proofs the program verifies at most.
    pub max_proofs_verified: u8,
    /// The base64 text of an S-expression.
    pub proof: String,
}

/// An o1js proof with all its parts taken out of the JSON.
#[derive(Debug)]
pub struct ParsedO1jsProof<P> {
    pub public_input: Vec<String>,
    pub public_output: Vec<String>,
    pub max_proofs_verified: u8,
    pub proof: P,
}

/// The S-expression from which the proof in `json` is decoded: what the text holds,
/// padded to two entries where the program verifies fewer proofs. `dummy` is the entry
/// that a proof of none is padded with.
pub open spec fn o1js_tree(json: O1jsProofJson, dummy: Tree) -> Result<Tree, ParseError> {
    match proof_tree(json.proof@) {
        Err(e) => Err(e),
        Ok(tree) => padded_to_n2(tree, json.max_proofs_verified, dummy),
    }
}

/// `result` with the other parts of `json` beside the proof.
pub open spec fn with_parts<P>(json: O1jsProofJson, result: Result<P, ParseError>) -> Result<
    ParsedO1jsProof<P>,
    ParseError,
> {
    match result {
        Err(e) => Err(e),
        Ok(proof) => Ok(
            ParsedO1jsProof {
                public_input: json.public_input,
                public_output: json.public_output,
                max_proofs_verified: json.max_proofs_verified,
                proof,
            },
        ),
    }
}

/// `result` can come of `json`: what can come of decoding its tree, with the other
/// parts beside it.
pub open spec fn o1js_outcome<P, F: Fn(&SExpr) -> Result<P, String>>(
    of_sexp: F,
    json: O1jsProofJson,
    dummy: Tree,
    result: Result<ParsedO1jsProof<P>, ParseError>,
) -> bool {
    exists|decoded: Result<P, ParseError>| #[trigger]
        decode_outcome(of_sexp, o1js_tree(json, dummy), decoded) && result == with_parts(
            json,
            decoded,
        )
}

/// Reads the S-expression from which the proof in `json` is decoded.
pub fn read_o1js_sexp(json: &O1jsProofJson, dummy: &SExpr) -> (result: Result<SExpr, ParseError>)
    requires
        text_escapes_fit(json.proof@),
        is_entry(dummy@),
    ensures
        match result {
            Ok(sexp) => o1js_tree(*json, dummy@) == Ok::<Tree, ParseError>(sexp@),
            Err(e) => o1js_tree(*json, dummy@) == Err::<Tree, ParseError>(e),
        },
{
    match read_proof_sexp(json.proof.as_str()) {
        Err(e) => Err(e),
        Ok(sexp) => pad_proof_sexp_to_n2(sexp, json.max_proofs_verified, dummy),
    }
}

/// Makes of `json` and a decoder's answer the parsed proof, or the error.
pub fn take_decoded_o1js_proof<P>(json: O1jsProofJson, answer: Result<P, String>) -> (result:
    Result<ParsedO1jsProof<P>, ParseError>)
    ensures
        result == with_parts(json, decoded_proof(answer)),
{
    match answer {
        Err(cause) => Err(ParseError::ProofDecode(cause)),
        Ok(proof) => Ok(
            ParsedO1jsProof {
                public_input: json.public_input,
                public_output: json.public_output,
                max_proofs_verified: json.max_proofs_verified,
                proof,
            },
        ),
    }
}

/// Parses an o1js proof. `json` is what the JSON reader made of the text, or what it
/// says of it; `dummy` is the entry that a proof of none is padded with; `of_sexp` makes
/// the proof of the S-expression.
pub fn parse_o1js_proof_json<P, F: Fn(&SExpr) -> Result<P, String>>(
    json: Result<O1jsProofJson, String>,
    dummy: &SExpr,
    of_sexp: F,
) -> (result: Result<ParsedO1jsProof<P>, ParseError>)
    requires
        json matches Ok(json) ==> text_escapes_fit(json.proof@),
        is_entry(dummy@),
        json matches Ok(json) ==> forall|sexp: &SExpr|
            o1js_tree(json, dummy@) == Ok::<Tree, ParseError>(sexp@) ==> #[trigger] call_requires(
                of_sexp,
                (sexp,),
            ),
    ensures
        match json {
            Err(cause) => result == Err::<ParsedO1jsProof<P>, ParseError>(ParseError::Json(cause)),
            Ok(json) => o1js_outcome(of_sexp, json, dummy@, result),
        },
{
    let json = match json {
        Ok(json) => json,
        Err(cause) => {
            return Err(ParseError::Json(cause));
        },
    };
    let sexp = match read_o1js_sexp(&json, dummy) {
        Ok(sexp) => sexp,
        Err(e) => {
            assert(decode_outcome(of_sexp, o1js_tree(json, dummy@), Err::<P, ParseError>(e)));
            return Err(e);
        },
    };
    let answer = of_sexp(&sexp);
    assert(decode_outcome(of_sexp, o1js_tree(json, dummy@), decoded_proof(answer)));
    take_decoded_o1js_proof(json, answer)
}

/// Where the decoder gives one answer for each tree, one result alone can come of an
/// o1js proof.
pub proof fn o1js_outcome_is_unique<P, F: Fn(&SExpr) -> Result<P, String>>(
    of_sexp: F,
    json: O1jsProofJson,
    dummy: Tree,
    first: Result<ParsedO1jsProof<P>, ParseError>,
    second: Result<ParsedO1jsProof<P>, ParseError>,
)
    requires
        answers_by_tree(of_sexp),
        o1js_outcome(of_sexp, json, dummy, first),
        o1js_outcome(of_sexp, json, dummy, second),
    ensures
        first == second,
{
}

/// What can come of the proof of a program that verifies two proofs or more is what can
/// come of the same text standing alone, with the other parts beside it. Where the
/// decoder gives one answer for each tree, the two are one proof, or one error.
pub proof fn proof_of_two_is_read_as_standing_alone<P, F: Fn(&SExpr) -> Result<P, String>>(
    of_sexp: F,
    json: O1jsProofJson,
    dummy: Tree,
    result: Result<ParsedO1jsProof<P>, ParseError>,
)
    requires
        json.max_proofs_verified >= PADDED_ENTRIES,
    ensures
        o1js_tree(json, dummy) == proof_tree(json.proof@),
        o1js_outcome(of_sexp, json, dummy, result) <==> exists|alone: Result<P, ParseError>|
            #[trigger] decode_outcome(of_sexp, proof_tree(json.proof@), alone) && result
                == with_parts(json, alone),
        forall|alone: Result<P, ParseError>|
            answers_by_tree(of_sexp) && o1js_outcome(of_sexp, json, dummy, result)
                && #[trigger] decode_outcome(of_sexp, proof_tree(json.proof@), alone) ==> result
                == with_parts(json, alone),
{
}

/// Two proofs that differ in nothing but white space around their text can come to the
/// same results.
pub proof fn white_space_around_the_text_does_not_matter<
    P,
    F: Fn(&SExpr) -> Result<P, String>,
>(
    of_sexp: F,
    plain: O1jsProofJson,
    spaced: O1jsProofJson,
    before: Seq<char>,
    after: Seq<char>,
    dummy: Tree,
    result: Result<ParsedO1jsProof<P>, ParseError>,
)
    requires
        forall|i: int| 0 <= i < before.len() ==> is_white_space(#[trigger] before[i]),
        forall|i: int| 0 <= i < after.len() ==> is_white_space(#[trigger] after[i]),
        spaced.proof@ == before + plain.proof@ + after,
        spaced.public_input == plain.public_input,
        spaced.public_output == plain.public_output,
        spaced.max_proofs_verified == plain.max_proofs_verified,
    ensures
        o1js_outcome(of_sexp, spaced, dummy, result) <==> o1js_outcome(
            of_sexp,
            plain,
            dummy,
            result,
        ),
{
    white_space_around_is_ignored(before, plain.proof@, after);
}

/// The parts that stand beside the proof are those of the JSON, each under its own name.
/// Without a proof there is the error alone.
pub proof fn parts_are_those_of_the_json<P>(json: O1jsProofJson, proof: P, e: ParseError)
    ensures
        with_parts(json, Ok::<P, ParseError>(proof)) matches Ok(parsed) && {
            &&& parsed.public_input == json.public_input
            &&& parsed.public_output == json.public_output
            &&& parsed.max_proofs_verified == json.max_proofs_verified
            &&& parsed.proof == proof
        },
        with_parts(json, Err::<P, ParseError>(e)) == Err::<ParsedO1jsProof<P>, ParseError>(e),
{
}

/// The decoder's answer decides: its proof comes with the parts of the JSON, and what it
/// says of a failure is told as the failure of the decoding.
pub proof fn answer_of_the_decoder_decides<P>(json: O1jsProofJson, answer: Result<P, String>)
    ensures
        match answer {
            Ok(proof) => with_parts(json, decoded_proof(answer)) matches Ok(parsed) && {
                &&& parsed.public_input == json.public_input
                &&& parsed.public_output == json.public_output
                &&& parsed.max_proofs_verified == json.max_proofs_verified
                &&& parsed.proof == proof
            },
            Err(cause) => with_parts(json, decoded_proof(answer)) == Err::<
                ParsedO1jsProof<P>,
                ParseError,
            >(ParseError::ProofDecode(cause)),
        },
{
}

/// Whatever a parsed proof was made of, it has the public input, the public output and the
/// number of proofs of its JSON, and its proof is one that the decoder made of the padded
/// expression. An error is that of the reading or padding, or what the decoder says.
pub proof fn parsed_proof_is_that_of_its_json<P, F: Fn(&SExpr) -> Result<P, String>>(
    of_sexp: F,
    json: O1jsProofJson,
    dummy: Tree,
    result: Result<ParsedO1jsProof<P>, ParseError>,
)
    requires
        o1js_outcome(of_sexp, json, dummy, result),
    ensures
        result matches Ok(parsed) ==> {
            &&& parsed.public_input == json.public_input
            &&& parsed.public_output == json.public_output
            &&& parsed.max_proofs_verified == json.max_proofs_verified
        },
        match o1js_tree(json, dummy) {
            Err(e) => result == Err::<ParsedO1jsProof<P>, ParseError>(e),
            Ok(tree) => exists|sexp: &SExpr, answer: Result<P, String>|
                sexp@ == tree && #[trigger] call_ensures(of_sexp, (sexp,), answer) && match answer {
                    Ok(proof) => result matches Ok(parsed) && parsed.proof == proof,
                    Err(cause) => result == Err::<ParsedO1jsProof<P>, ParseError>(
                        ParseError::ProofDecode(cause),
                    ),
                },
        },
{
    let decoded = choose|decoded: Result<P, ParseError>| #[trigger]
        decode_outcome(of_sexp, o1js_tree(json, dummy), decoded) && result == with_parts(
            json,
            decoded,
        );
    if let Ok(tree) = o1js_tree(json, dummy) {
        read_tree_gives_what_the_decoder_answers(of_sexp, tree, decoded);
        let (sexp, answer) = choose|sexp: &SExpr, answer: Result<P, String>|
            sexp@ == tree && #[trigger] call_ensures(of_sexp, (sexp,), answer) && match answer {
                Ok(proof) => decoded == Ok::<P, ParseError>(proof),
                Err(cause) => decoded == Err::<P, ParseError>(ParseError::ProofDecode(cause)),
            };
        assert(call_ensures(of_sexp, (sexp,), answer));
    }
}

/// Where the decoder makes one proof of the padded expression, that proof comes out, with
/// the parts of the JSON.
pub proof fn decoded_proof_comes_out_with_its_parts<P, F: Fn(&SExpr) -> Result<P, String>>(
    of_sexp: F,
    json: O1jsProofJson,
    dummy: Tree,
    tree: Tree,
    proof: P,
    result: Result<ParsedO1jsProof<P>, ParseError>,
)
    requires
        o1js_tree(json, dummy) == Ok::<Tree, ParseError>(tree),
        forall|sexp: &SExpr, answer: Result<P, String>|
            sexp@ == tree && #[trigger] call_ensures(of_sexp, (sexp,), answer) ==> answer == Ok::<
                P,
                String,
            >(proof),
        o1js_outcome(of_sexp, json, dummy, result),
    ensures
        result matches Ok(parsed) && {
            &&& parsed.public_input == json.public_input
            &&& parsed.public_output == json.public_output
            &&& parsed.max_proofs_verified == json.max_proofs_verified
            &&& parsed.proof == proof
        },
{
    parsed_proof_is_that_of_its_json(of_sexp, json, dummy, result);
}

/// The expression from which a proof is decoded is the one in its text, padded: what
/// padding makes of the tree that was read, or the error of the reading.
pub proof fn expression_is_padded_before_it_is_decoded(json: O1jsProofJson, dummy: Tree)
    ensures
        match proof_tree(json.proof@) {
            Ok(tree) => o1js_tree(json, dummy) == padded_to_n2(
                tree,
                json.max_proofs_verified,
                dummy,
            ),
            Err(e) => o1js_tree(json, dummy) == Err::<Tree, ParseError>(e),
        },
{
}

/// The proof of a program that verifies one proof is decoded from its expression with the
/// one entry standing twice, where the first list of one entry stood, and all else kept.
pub proof fn proof_of_one_is_decoded_with_its_entry_twice(
    json: O1jsProofJson,
    dummy: Tree,
    t: Tree,
    path: Seq<int>,
    challenges: Seq<Tree>,
)
    requires
        json.max_proofs_verified == 1,
        proof_tree(json.proof@) == Ok::<Tree, ParseError>(t),
        challenges.len() == 15,
        subtree(t, path) == Some(Tree::List(seq![Tree::List(challenges)])),
        forall|other: Seq<int>|
            (#[trigger] subtree(t, other) matches Some(Tree::List(entries)) && entries.len() == 1
                && (entries[0] matches Tree::List(inner) && inner.len() == 15)) ==> other == path
                || precedes(path, other),
    ensures
        o1js_tree(json, dummy) matches Ok(out) && {
            &&& subtree(out, path) == Some(
                Tree::List(seq![Tree::List(challenges), Tree::List(challenges)]),
            )
            &&& forall|other: Seq<int>|
                !path.is_prefix_of(other) && !other.is_prefix_of(path) ==> #[trigger] subtree(
                    out,
                    other,
                ) == subtree(t, other)
            &&& forall|above: Seq<int>|
                above.is_prefix_of(path) && above.len() < path.len() ==> (
                #[trigger] subtree(out, above) matches Some(Tree::List(new_items)) && subtree(
                    t,
                    above,
                ) matches Some(Tree::List(old_items)) && new_items.len() == old_items.len())
        },
{
    proof_of_one_is_kept_but_for_its_entry(t, path, challenges, dummy);
}

/// The proof of a program that verifies one proof, in whose expression no list of one entry
/// stands, is refused.
pub proof fn proof_of_one_without_an_entry_is_not_decoded<
    P,
    F: Fn(&SExpr) -> Result<P, String>,
>(
    of_sexp: F,
    json: O1jsProofJson,
    dummy: Tree,
    t: Tree,
    result: Result<ParsedO1jsProof<P>, ParseError>,
)
    requires
        json.max_proofs_verified == 1,
        proof_tree(json.proof@) == Ok::<Tree, ParseError>(t),
        forall|path: Seq<int>|
            !(#[trigger] subtree(t, path) matches Some(Tree::List(entries)) && entries.len() == 1
                && (entries[0] matches Tree::List(inner) && inner.len() == 15)),
        o1js_outcome(of_sexp, json, dummy, result),
    ensures
        result == Err::<ParsedO1jsProof<P>, ParseError>(ParseError::NoChallenges),
{
    assert forall|path: Seq<int>| !challenges_at(t, path, 1) by {
        if challenges_at(t, path, 1) {
            let entries = subtree(t, path)->0->List_0;
            assert(is_entry(entries[0]));
        }
    }
    proof_of_one_is_padded_where_an_entry_is_found(t, dummy);
    padding_fails_for_want_of_challenges(t, 1, dummy);
    parsed_proof_is_that_of_its_json(of_sexp, json, dummy, result);
}

/// The proof of a program that verifies no proof is decoded from its expression with the
/// dummy standing twice in the first empty list of challenges inside the messages for the
/// next wrap proof, and all else kept.
pub proof fn proof_of_none_is_decoded_with_the_dummy_twice(
    json: O1jsProofJson,
    dummy: Tree,
    t: Tree,
    path: Seq<int>,
)
    requires
        json.max_proofs_verified == 0,
        proof_tree(json.proof@) == Ok::<Tree, ParseError>(t),
        subtree(t, path) == Some(Tree::List(Seq::empty())),
        follows(t, path, "old_bulletproof_challenges"@),
        under(t, path, "messages_for_next_wrap_proof"@),
        forall|other: Seq<int>|
            subtree(t, other) == Some(Tree::List(Seq::empty())) && follows(
                t,
                other,
                "old_bulletproof_challenges"@,
            ) && #[trigger] under(t, other, "messages_for_next_wrap_proof"@) ==> other == path
                || precedes(path, other),
    ensures
        o1js_tree(json, dummy) matches Ok(out) && {
            &&& subtree(out, path) == Some(Tree::List(seq![dummy, dummy]))
            &&& forall|other: Seq<int>|
                !path.is_prefix_of(other) && !other.is_prefix_of(path) ==> #[trigger] subtree(
                    out,
                    other,
                ) == subtree(t, other)
            &&& forall|above: Seq<int>|
                above.is_prefix_of(path) && above.len() < path.len() ==> (
                #[trigger] subtree(out, above) matches Some(Tree::List(new_items)) && subtree(
                    t,
                    above,
                ) matches Some(Tree::List(old_items)) && new_items.len() == old_items.len())
        },
{
    proof_of_none_is_kept_but_for_its_challenges(t, path, dummy);
}

} // verus!
