//! From the text of a proof to its S-expression.
use vstd::prelude::*;

use crate::error::{ParseError, SexpError};
use crate::sexp::{list_view, trees, SExpr, Tree};
use crate::text::{
    base64_bytes, base64_bytes_of_text, base64_failure, base64_text, base64_text_is_not_trimmed,
    decode_base64, is_white_space, text_between_white_space_is_kept, trimmed,
    white_space_around_is_trimmed,
};

verus! {

/// `rsexp::Sexp`, the S-expression that the crate `rsexp` parses into.
#[verifier::external_type_specification]
#[verifier::external_body]
pub struct ExRsexpSexp(rsexp::Sexp);

/// What an `rsexp::Sexp` holds, as a tree of atoms and lists.
pub uninterp spec fn sexp_tree(s: rsexp::Sexp) -> Tree;

/// What the crate `rsexp` reads in `bytes`.
pub uninterp spec fn parsed_sexp(bytes: Seq<u8>) -> Result<Tree, SexpError>;

/// The trees that a row of `rsexp::Sexp` holds.
pub open spec fn sexp_trees(items: Seq<rsexp::Sexp>) -> Seq<Tree> {
    Seq::new(items.len(), |i: int| sexp_tree(items[i]))
}

/// An `rsexp::Sexp`, opened by one level.
pub(crate) enum Node<'a> {
    Atom(&'a Vec<u8>),
    List(&'a Vec<rsexp::Sexp>),
}

/// Opens an `rsexp::Sexp`, an enum of the crate `rsexp` with the variants `Atom` and
/// `List`: an atom holds its bytes, a list holds its items in their order.
#[verifier::external_body]
pub(crate) fn open_sexp(s: &rsexp::Sexp) -> (node: Node<'_>)
    ensures
        match node {
            Node::Atom(bytes) => sexp_tree(*s) == Tree::Atom(bytes@),
            Node::List(items) => sexp_tree(*s) == Tree::List(sexp_trees(items@)),
        },
{
    match s {
        rsexp::Sexp::Atom(bytes) => Node::Atom(bytes),
        rsexp::Sexp::List(items) => Node::List(items),
    }
}

/// Where in the bytes of an S-expression a byte stands.
pub enum Place {
    /// Between expressions.
    Gap,
    /// In a comment, which ends with its line.
    Comment,
    /// In an atom without quotes.
    Plain,
    /// Between quotes.
    Quoted,
}

/// The bytes that separate expressions.
pub open spec fn is_blank(c: u8) -> bool {
    c == 0x20 || c == 0x09 || c == 0x0d || c == 0x0a
}

/// The three bytes from `at` on are decimal digits of a number that no byte can be.
pub open spec fn is_wide(bytes: Seq<u8>, at: int) -> bool {
    &&& at + 2 < bytes.len()
    &&& forall|i: int| at <= i < at + 3 ==> 0x30 <= #[trigger] bytes[i] <= 0x39
    &&& 100 * (bytes[at] - 0x30) + 10 * (bytes[at + 1] - 0x30) + (bytes[at + 2] - 0x30) > 0xff
}

/// Reading the first expression of `bytes`, from `at` on, meets a decimal escape
/// (a backslash and three digits, between quotes) of a number that no byte can be.
/// `depth` is the number of lists that are open. Reading ends with the expression, or
/// with the first byte that cannot stand where it stands.
pub open spec fn meets_wide_escape(bytes: Seq<u8>, at: int, place: Place, depth: nat) -> bool
    decreases bytes.len() - at, (if place is Plain { 1int } else { 0int }),
{
    if at < 0 || at >= bytes.len() {
        false
    } else {
        let c = bytes[at];
        match place {
            Place::Gap => {
                if is_blank(c) {
                    meets_wide_escape(bytes, at + 1, Place::Gap, depth)
                } else if c == 0x3b {
                    // ';'
                    meets_wide_escape(bytes, at + 1, Place::Comment, depth)
                } else if c == 0x28 {
                    // '('
                    meets_wide_escape(bytes, at + 1, Place::Gap, depth + 1)
                } else if c == 0x29 {
                    // ')'
                    depth > 1 && meets_wide_escape(bytes, at + 1, Place::Gap, (depth - 1) as nat)
                } else if c == 0x22 {
                    // '"'
                    meets_wide_escape(bytes, at + 1, Place::Quoted, depth)
                } else {
                    meets_wide_escape(bytes, at + 1, Place::Plain, depth)
                }
            },
            Place::Comment => {
                if c == 0x0d || c == 0x0a {
                    meets_wide_escape(bytes, at + 1, Place::Gap, depth)
                } else {
                    meets_wide_escape(bytes, at + 1, Place::Comment, depth)
                }
            },
            Place::Plain => {
                if is_blank(c) || c == 0x3b || c == 0x28 || c == 0x29 || c == 0x22 {
                    depth > 0 && meets_wide_escape(bytes, at, Place::Gap, depth)
                } else if (c == 0x23 && bytes[at - 1] == 0x7c) || (c == 0x7c && bytes[at - 1]
                    == 0x23) {
                    // "|#" or "#|"
                    false
                } else {
                    meets_wide_escape(bytes, at + 1, Place::Plain, depth)
                }
            },
            Place::Quoted => {
                if c == 0x22 {
                    depth > 0 && meets_wide_escape(bytes, at + 1, Place::Gap, depth)
                } else if c == 0x5c {
                    // a backslash
                    at + 1 < bytes.len() && (is_wide(bytes, at + 1) || meets_wide_escape(
                        bytes,
                        at + 2,
                        Place::Quoted,
                        depth,
                    ))
                } else {
                    meets_wide_escape(bytes, at + 1, Place::Quoted, depth)
                }
            },
        }
    }
}

/// `bytes` can be read: no decimal escape in them is of a number that no byte can be.
pub open spec fn escapes_fit(bytes: Seq<u8>) -> bool {
    !meets_wide_escape(bytes, 0, Place::Gap, 0)
}

/// `rsexp::from_slice`, which reads one S-expression with nothing after it but blanks
/// and comments. What it returns depends on the bytes alone; it is named here and not
/// described. It computes a decimal escape in one byte, so an escape above 255
/// overflows, and bytes on which it would meet one are left out. It recurses once for
/// each list that is open; how many the stack has room for is not stated.
#[verifier::external_body]
pub(crate) fn parse_sexp(bytes: &[u8]) -> (result: Result<rsexp::Sexp, SexpError>)
    requires
        escapes_fit(bytes@),
    ensures
        match result {
            Ok(s) => parsed_sexp(bytes@) == Ok::<Tree, SexpError>(sexp_tree(s)),
            Err(e) => parsed_sexp(bytes@) == Err::<Tree, SexpError>(e),
        },
{
    match rsexp::from_slice(bytes) {
        Ok(s) => Ok(s),
        Err(rsexp::Error::UnexpectedCharInString(c)) => Err(SexpError::UnexpectedCharInString(c)),
        Err(rsexp::Error::UnexpectedEofInString) => Err(SexpError::UnexpectedEofInString),
        Err(rsexp::Error::UnexpectedEof) => Err(SexpError::UnexpectedEof),
        Err(rsexp::Error::EmptyAtom) => Err(SexpError::EmptyAtom),
    }
}

/// Whether the three bytes from `at` on are digits of a number that no byte can be.
fn wide_at(bytes: &Vec<u8>, at: usize) -> (wide: bool)
    requires
        at <= bytes.len(),
    ensures
        wide == is_wide(bytes@, at as int),
{
    if bytes.len() - at < 3 {
        return false;
    }
    let a = bytes[at];
    let b = bytes[at + 1];
    let c = bytes[at + 2];
    if a < 0x30 || a > 0x39 || b < 0x30 || b > 0x39 || c < 0x30 || c > 0x39 {
        return false;
    }
    let value: u32 = 100 * (a - 0x30) as u32 + 10 * (b - 0x30) as u32 + (c - 0x30) as u32;
    value > 0xff
}

/// Whether `bytes` can be read as an S-expression with no escape out of range.
pub fn bytes_have_fitting_escapes(bytes: &Vec<u8>) -> (fit: bool)
    ensures
        fit == escapes_fit(bytes@),
{
    let mut at: usize = 0;
    let mut place = Place::Gap;
    let mut depth: usize = 0;
    while at < bytes.len()
        invariant
            at <= bytes.len(),
            depth <= at,
            place is Plain ==> at > 0,
            meets_wide_escape(bytes@, at as int, place, depth as nat) == !escapes_fit(bytes@),
        decreases bytes.len() - at, (if place is Plain { 1int } else { 0int }),
    {
        let c = bytes[at];
        let blank = c == 0x20 || c == 0x09 || c == 0x0d || c == 0x0a;
        match place {
            Place::Gap => {
                if c == 0x29 {
                    if depth <= 1 {
                        return true;
                    }
                    depth -= 1;
                } else if c == 0x28 {
                    depth += 1;
                } else if c == 0x3b {
                    place = Place::Comment;
                } else if c == 0x22 {
                    place = Place::Quoted;
                } else if !blank {
                    place = Place::Plain;
                }
                at += 1;
            },
            Place::Comment => {
                if c == 0x0d || c == 0x0a {
                    place = Place::Gap;
                }
                at += 1;
            },
            Place::Plain => {
                if blank || c == 0x3b || c == 0x28 || c == 0x29 || c == 0x22 {
                    if depth == 0 {
                        return true;
                    }
                    place = Place::Gap;
                } else {
                    let last = bytes[at - 1];
                    if (c == 0x23 && last == 0x7c) || (c == 0x7c && last == 0x23) {
                        return true;
                    }
                    at += 1;
                }
            },
            Place::Quoted => {
                if c == 0x22 {
                    if depth == 0 {
                        return true;
                    }
                    place = Place::Gap;
                } else if c == 0x5c {
                    if wide_at(bytes, at + 1) {
                        return false;
                    }
                    if bytes.len() - at < 2 {
                        return true;
                    }
                    at += 1;
                }
                at += 1;
            },
        }
    }
    true
}

/// The library's own S-expression for one of the crate `rsexp`.
fn own_sexp(s: &rsexp::Sexp) -> (own: SExpr)
    ensures
        own@ == sexp_tree(*s),
    decreases sexp_tree(*s),
{
    broadcast use list_view;

    match open_sexp(s) {
        Node::Atom(bytes) => {
            let copy = bytes.clone();
            assert(copy@ =~= bytes@);
            SExpr::Atom(copy)
        },
        Node::List(items) => {
            let mut own: Vec<SExpr> = Vec::new();
            let mut i: usize = 0;
            while i < items.len()
                invariant
                    i <= items.len(),
                    own@.len() == i,
                    forall|j: int| 0 <= j < i ==> (#[trigger] own@[j])@ == sexp_tree(items@[j]),
                    sexp_tree(*s) == Tree::List(sexp_trees(items@)),
                decreases items.len() - i,
            {
                let ghost inside = sexp_tree(*s)->List_0;
                assert(decreases_to!(inside => inside[i as int]));
                let item = own_sexp(&items[i]);
                own.push(item);
                i += 1;
            }
            assert(trees(own@) =~= sexp_trees(items@));
            SExpr::List(own)
        },
    }
}

/// The S-expression of a proof that comes as base64 text, white space around it aside.
pub open spec fn proof_tree(text: Seq<char>) -> Result<Tree, ParseError> {
    match base64_bytes(trimmed(text)) {
        Err(e) => Err(ParseError::Base64(e)),
        Ok(bytes) => match parsed_sexp(bytes) {
            Err(e) => Err(ParseError::Sexp(e)),
            Ok(tree) => Ok(tree),
        },
    }
}

/// If `text` is the base64 text of bytes, white space around it aside, then the bytes
/// can be read.
pub open spec fn text_escapes_fit(text: Seq<char>) -> bool {
    forall|bytes: Seq<u8>| trimmed(text) == #[trigger] base64_text(bytes) ==> escapes_fit(bytes)
}

/// What is made of a decoder's answer.
pub open spec fn decoded_proof<P>(answer: Result<P, String>) -> Result<P, ParseError> {
    match answer {
        Ok(proof) => Ok(proof),
        Err(cause) => Err(ParseError::ProofDecode(cause)),
    }
}

/// `result` can come of decoding `tree`, or of failing to read one: the error of the
/// reading, or what is made of an answer that `of_sexp` gives for that tree.
pub open spec fn decode_outcome<P, F: Fn(&SExpr) -> Result<P, String>>(
    of_sexp: F,
    tree: Result<Tree, ParseError>,
    result: Result<P, ParseError>,
) -> bool {
    match tree {
        Err(e) => result == Err::<P, ParseError>(e),
        Ok(tree) => exists|sexp: &SExpr, answer: Result<P, String>|
            sexp@ == tree && #[trigger] call_ensures(of_sexp, (sexp,), answer) && result
                == decoded_proof(answer),
    }
}

/// `of_sexp` gives one answer for each tree.
pub open spec fn answers_by_tree<P, F: Fn(&SExpr) -> Result<P, String>>(of_sexp: F) -> bool {
    forall|s: &SExpr, a: Result<P, String>, t: &SExpr, b: Result<P, String>|
        #![trigger call_ensures(of_sexp, (s,), a), call_ensures(of_sexp, (t,), b)]
        s@ == t@ && call_ensures(of_sexp, (s,), a) && call_ensures(of_sexp, (t,), b) ==> a == b
}

/// Whether the text of a proof can be read with no escape out of range. A text that is
/// not base64 has no escapes.
pub fn has_fitting_escapes(proof_sexp_b64: &str) -> (fit: bool)
    ensures
        fit == text_escapes_fit(proof_sexp_b64@),
{
    match decode_base64(proof_sexp_b64.trim()) {
        Err(_) => true,
        Ok(bytes) => {
            proof {
                base64_bytes_of_text(bytes@);
                assert forall|other: Seq<u8>|
                    trimmed(proof_sexp_b64@) == #[trigger] base64_text(other) implies other
                    == bytes@ by {
                    base64_bytes_of_text(other);
                }
            }
            bytes_have_fitting_escapes(&bytes)
        },
    }
}

/// Reads the S-expression of a proof that comes as base64 text.
pub fn read_proof_sexp(proof_sexp_b64: &str) -> (result: Result<SExpr, ParseError>)
    requires
        text_escapes_fit(proof_sexp_b64@),
    ensures
        match result {
            Ok(sexp) => proof_tree(proof_sexp_b64@) == Ok::<Tree, ParseError>(sexp@),
            Err(e) => proof_tree(proof_sexp_b64@) == Err::<Tree, ParseError>(e),
        },
{
    let bytes = match decode_base64(proof_sexp_b64.trim()) {
        Ok(bytes) => bytes,
        Err(e) => {
            return Err(ParseError::Base64(e));
        },
    };
    proof {
        base64_bytes_of_text(bytes@);
    }
    match parse_sexp(bytes.as_slice()) {
        Ok(sexp) => Ok(own_sexp(&sexp)),
        Err(e) => Err(ParseError::Sexp(e)),
    }
}

/// Makes of a decoder's answer the proof, or the error.
pub fn take_decoded_proof<P>(answer: Result<P, String>) -> (result: Result<P, ParseError>)
    ensures
        result == decoded_proof(answer),
{
    match answer {
        Ok(proof) => Ok(proof),
        Err(cause) => Err(ParseError::ProofDecode(cause)),
    }
}

/// Decodes a proof that stands alone as base64 text of an S-expression. `of_sexp`
/// makes the proof of the S-expression.
pub fn proof_from_b64_sexp<P, F: Fn(&SExpr) -> Result<P, String>>(
    proof_sexp_b64: &str,
    of_sexp: F,
) -> (result: Result<P, ParseError>)
    requires
        text_escapes_fit(proof_sexp_b64@),
        forall|sexp: &SExpr|
            proof_tree(proof_sexp_b64@) == Ok::<Tree, ParseError>(sexp@) ==> #[trigger] call_requires(
                of_sexp,
                (sexp,),
            ),
    ensures
        decode_outcome(of_sexp, proof_tree(proof_sexp_b64@), result),
{
    let sexp = match read_proof_sexp(proof_sexp_b64) {
        Ok(sexp) => sexp,
        Err(e) => {
            return Err(e);
        },
    };
    take_decoded_proof(of_sexp(&sexp))
}

/// White space around the text of a proof does not change what is read in it.
pub proof fn white_space_around_is_ignored(before: Seq<char>, text: Seq<char>, after: Seq<char>)
    requires
        forall|i: int| 0 <= i < before.len() ==> is_white_space(#[trigger] before[i]),
        forall|i: int| 0 <= i < after.len() ==> is_white_space(#[trigger] after[i]),
    ensures
        proof_tree(before + text + after) == proof_tree(text),
        text_escapes_fit(before + text + after) == text_escapes_fit(text),
{
    white_space_around_is_trimmed(before, text, after);
}

/// What is read in the base64 text of bytes is what is parsed in the bytes.
pub proof fn proof_tree_of_base64_text(bytes: Seq<u8>)
    ensures
        proof_tree(base64_text(bytes)) == (match parsed_sexp(bytes) {
            Ok(tree) => Ok::<Tree, ParseError>(tree),
            Err(e) => Err(ParseError::Sexp(e)),
        }),
{
    base64_text_is_not_trimmed(bytes);
    base64_bytes_of_text(bytes);
}

/// White space around the text of a proof does not change what can come of it. Where
/// the decoder gives one answer for each tree, the results are the same.
pub proof fn white_space_around_does_not_matter<P, F: Fn(&SExpr) -> Result<P, String>>(
    of_sexp: F,
    before: Seq<char>,
    text: Seq<char>,
    after: Seq<char>,
    result: Result<P, ParseError>,
)
    requires
        forall|i: int| 0 <= i < before.len() ==> is_white_space(#[trigger] before[i]),
        forall|i: int| 0 <= i < after.len() ==> is_white_space(#[trigger] after[i]),
    ensures
        decode_outcome(of_sexp, proof_tree(before + text + after), result) <==> decode_outcome(
            of_sexp,
            proof_tree(text),
            result,
        ),
        forall|other: Result<P, ParseError>|
            answers_by_tree(of_sexp) && decode_outcome(
                of_sexp,
                proof_tree(before + text + after),
                result,
            ) && #[trigger] decode_outcome(of_sexp, proof_tree(text), other) ==> result == other,
{
    white_space_around_is_ignored(before, text, after);
}

/// Where the decoder gives one answer for each tree, one result alone can come of a
/// tree.
pub proof fn decode_outcome_is_unique<P, F: Fn(&SExpr) -> Result<P, String>>(
    of_sexp: F,
    tree: Result<Tree, ParseError>,
    first: Result<P, ParseError>,
    second: Result<P, ParseError>,
)
    requires
        answers_by_tree(of_sexp),
        decode_outcome(of_sexp, tree, first),
        decode_outcome(of_sexp, tree, second),
    ensures
        first == second,
{
}

/// Decoding undoes encoding: where `bytes` are parsed into a tree of which the decoder
/// makes `proof`, that proof comes of the base64 text of the bytes.
pub proof fn decoding_undoes_encoding<P, F: Fn(&SExpr) -> Result<P, String>>(
    of_sexp: F,
    bytes: Seq<u8>,
    tree: Tree,
    proof: P,
    result: Result<P, ParseError>,
)
    requires
        parsed_sexp(bytes) == Ok::<Tree, SexpError>(tree),
        forall|sexp: &SExpr, answer: Result<P, String>|
            sexp@ == tree && #[trigger] call_ensures(of_sexp, (sexp,), answer) ==> answer == Ok::<
                P,
                String,
            >(proof),
        decode_outcome(of_sexp, proof_tree(base64_text(bytes)), result),
    ensures
        result == Ok::<P, ParseError>(proof),
{
    proof_tree_of_base64_text(bytes);
}

/// The base64 text of bytes, with or without white space around it, is read as what is
/// parsed in the bytes, and can be read if the bytes can.
pub proof fn base64_text_is_read_as_its_bytes(before: Seq<char>, bytes: Seq<u8>, after: Seq<char>)
    requires
        forall|i: int| 0 <= i < before.len() ==> is_white_space(#[trigger] before[i]),
        forall|i: int| 0 <= i < after.len() ==> is_white_space(#[trigger] after[i]),
    ensures
        parsed_sexp(bytes) matches Ok(tree) ==> proof_tree(before + base64_text(bytes) + after)
            == Ok::<Tree, ParseError>(tree),
        parsed_sexp(bytes) matches Err(e) ==> proof_tree(before + base64_text(bytes) + after)
            == Err::<Tree, ParseError>(ParseError::Sexp(e)),
        text_escapes_fit(before + base64_text(bytes) + after) <==> escapes_fit(bytes),
{
    let text = base64_text(bytes);
    white_space_around_is_ignored(before, text, after);
    proof_tree_of_base64_text(bytes);
    base64_text_is_not_trimmed(bytes);
    if escapes_fit(bytes) {
        assert forall|other: Seq<u8>|
            trimmed(text) == #[trigger] base64_text(other) implies escapes_fit(other) by {
            base64_bytes_of_text(bytes);
            base64_bytes_of_text(other);
        }
    }
}

/// A text that is no base64 text, white space around it aside, is refused, and there is no
/// escape in it.
pub proof fn other_text_is_refused(before: Seq<char>, text: Seq<char>, after: Seq<char>)
    requires
        forall|i: int| 0 <= i < before.len() ==> is_white_space(#[trigger] before[i]),
        forall|i: int| 0 <= i < after.len() ==> is_white_space(#[trigger] after[i]),
        text.len() > 0 ==> !is_white_space(text.first()) && !is_white_space(text.last()),
        forall|bytes: Seq<u8>| text != #[trigger] base64_text(bytes),
    ensures
        proof_tree(before + text + after) == Err::<Tree, ParseError>(
            ParseError::Base64(base64_failure(text)),
        ),
        text_escapes_fit(before + text + after),
{
    text_between_white_space_is_kept(before, text, after);
}

/// A decoder's proof is handed on as it is, and what it says of a failure is told as the
/// failure of the decoding.
pub proof fn answers_are_handed_on<P>(proof: P, cause: String)
    ensures
        decoded_proof(Ok::<P, String>(proof)) == Ok::<P, ParseError>(proof),
        decoded_proof(Err::<P, String>(cause)) == Err::<P, ParseError>(
            ParseError::ProofDecode(cause),
        ),
{
}

/// Where no tree could be read, the error of the reading is what comes out.
pub proof fn unread_tree_gives_its_error<P, F: Fn(&SExpr) -> Result<P, String>>(
    of_sexp: F,
    e: ParseError,
    result: Result<P, ParseError>,
)
    ensures
        decode_outcome(of_sexp, Err(e), result) <==> result == Err::<P, ParseError>(e),
{
}

/// Where a tree was read, what comes out is what the decoder answers on that tree.
pub proof fn read_tree_gives_what_the_decoder_answers<P, F: Fn(&SExpr) -> Result<P, String>>(
    of_sexp: F,
    tree: Tree,
    result: Result<P, ParseError>,
)
    ensures
        decode_outcome(of_sexp, Ok(tree), result) <==> exists|
            sexp: &SExpr,
            answer: Result<P, String>,
        |
            sexp@ == tree && #[trigger] call_ensures(of_sexp, (sexp,), answer) && match answer {
                Ok(proof) => result == Ok::<P, ParseError>(proof),
                Err(cause) => result == Err::<P, ParseError>(ParseError::ProofDecode(cause)),
            },
{
    if decode_outcome(of_sexp, Ok(tree), result) {
        let (sexp, answer) = choose|sexp: &SExpr, answer: Result<P, String>|
            sexp@ == tree && #[trigger] call_ensures(of_sexp, (sexp,), answer) && result
                == decoded_proof(answer);
        assert(call_ensures(of_sexp, (sexp,), answer));
    }
    if exists|sexp: &SExpr, answer: Result<P, String>|
        sexp@ == tree && #[trigger] call_ensures(of_sexp, (sexp,), answer) && match answer {
            Ok(proof) => result == Ok::<P, ParseError>(proof),
            Err(cause) => result == Err::<P, ParseError>(ParseError::ProofDecode(cause)),
        } {
        let (sexp, answer) = choose|sexp: &SExpr, answer: Result<P, String>|
            sexp@ == tree && #[trigger] call_ensures(of_sexp, (sexp,), answer) && match answer {
                Ok(proof) => result == Ok::<P, ParseError>(proof),
                Err(cause) => result == Err::<P, ParseError>(ParseError::ProofDecode(cause)),
            };
        assert(call_ensures(of_sexp, (sexp,), answer));
        assert(result == decoded_proof(answer));
    }
}

/// A proof that stands alone is what the decoder makes of the expression in its text: the
/// decoder is handed the tree that is parsed in the encoded bytes, nothing else, and bytes
/// that hold no expression are refused with the parser's error.
pub proof fn proof_standing_alone_is_decoded_from_its_text<
    P,
    F: Fn(&SExpr) -> Result<P, String>,
>(
    of_sexp: F,
    before: Seq<char>,
    bytes: Seq<u8>,
    after: Seq<char>,
    result: Result<P, ParseError>,
)
    requires
        forall|i: int| 0 <= i < before.len() ==> is_white_space(#[trigger] before[i]),
        forall|i: int| 0 <= i < after.len() ==> is_white_space(#[trigger] after[i]),
        decode_outcome(of_sexp, proof_tree(before + base64_text(bytes) + after), result),
    ensures
        match parsed_sexp(bytes) {
            Err(e) => result == Err::<P, ParseError>(ParseError::Sexp(e)),
            Ok(tree) => exists|sexp: &SExpr, answer: Result<P, String>|
                sexp@ == tree && #[trigger] call_ensures(of_sexp, (sexp,), answer) && match answer {
                    Ok(proof) => result == Ok::<P, ParseError>(proof),
                    Err(cause) => result == Err::<P, ParseError>(ParseError::ProofDecode(cause)),
                },
        },
{
    base64_text_is_read_as_its_bytes(before, bytes, after);
    if let Ok(tree) = parsed_sexp(bytes) {
        read_tree_gives_what_the_decoder_answers(of_sexp, tree, result);
    }
}

/// What reading meets from a place on does not depend on what stands before it.
proof fn bytes_before_do_not_matter(
    before: Seq<u8>,
    bytes: Seq<u8>,
    at: int,
    place: Place,
    depth: nat,
)
    requires
        0 <= at,
        place is Plain ==> at > 0,
    ensures
        meets_wide_escape(before + bytes, before.len() + at, place, depth) == meets_wide_escape(
            bytes,
            at,
            place,
            depth,
        ),
    decreases bytes.len() - at, (if place is Plain { 1int } else { 0int }),
{
    let whole = before + bytes;
    let n = before.len() as int;
    if at < bytes.len() {
        assert(whole[n + at] == bytes[at]);
        if at > 0 {
            assert(whole[n + at - 1] == bytes[at - 1]);
        }
        assert(is_wide(whole, n + at + 1) == is_wide(bytes, at + 1)) by {
            if at + 3 < bytes.len() {
                assert(whole[n + at + 1] == bytes[at + 1]);
                assert(whole[n + at + 2] == bytes[at + 2]);
                assert(whole[n + at + 3] == bytes[at + 3]);
            }
        }
        match place {
            Place::Gap => {
                bytes_before_do_not_matter(before, bytes, at + 1, Place::Gap, depth);
                bytes_before_do_not_matter(before, bytes, at + 1, Place::Gap, depth + 1);
                if depth > 1 {
                    bytes_before_do_not_matter(
                        before,
                        bytes,
                        at + 1,
                        Place::Gap,
                        (depth - 1) as nat,
                    );
                }
                bytes_before_do_not_matter(before, bytes, at + 1, Place::Comment, depth);
                bytes_before_do_not_matter(before, bytes, at + 1, Place::Quoted, depth);
                bytes_before_do_not_matter(before, bytes, at + 1, Place::Plain, depth);
            },
            Place::Comment => {
                bytes_before_do_not_matter(before, bytes, at + 1, Place::Gap, depth);
                bytes_before_do_not_matter(before, bytes, at + 1, Place::Comment, depth);
            },
            Place::Plain => {
                bytes_before_do_not_matter(before, bytes, at, Place::Gap, depth);
                bytes_before_do_not_matter(before, bytes, at + 1, Place::Plain, depth);
            },
            Place::Quoted => {
                bytes_before_do_not_matter(before, bytes, at + 1, Place::Gap, depth);
                bytes_before_do_not_matter(before, bytes, at + 1, Place::Quoted, depth);
                if at + 1 < bytes.len() {
                    bytes_before_do_not_matter(before, bytes, at + 2, Place::Quoted, depth);
                }
            },
        }
    }
}

/// Where no backslash is followed by digits of a number above 255, reading meets none.
proof fn no_wide_escape_is_met(bytes: Seq<u8>, at: int, place: Place, depth: nat)
    requires
        forall|i: int|
            0 <= i < bytes.len() - 3 && #[trigger] bytes[i] == 0x5c ==> !is_wide(bytes, i + 1),
    ensures
        !meets_wide_escape(bytes, at, place, depth),
    decreases bytes.len() - at, (if place is Plain { 1int } else { 0int }),
{
    if 0 <= at < bytes.len() {
        match place {
            Place::Gap => {
                no_wide_escape_is_met(bytes, at + 1, Place::Gap, depth);
                no_wide_escape_is_met(bytes, at + 1, Place::Gap, depth + 1);
                if depth > 1 {
                    no_wide_escape_is_met(bytes, at + 1, Place::Gap, (depth - 1) as nat);
                }
                no_wide_escape_is_met(bytes, at + 1, Place::Comment, depth);
                no_wide_escape_is_met(bytes, at + 1, Place::Quoted, depth);
                no_wide_escape_is_met(bytes, at + 1, Place::Plain, depth);
            },
            Place::Comment => {
                no_wide_escape_is_met(bytes, at + 1, Place::Gap, depth);
                no_wide_escape_is_met(bytes, at + 1, Place::Comment, depth);
            },
            Place::Plain => {
                no_wide_escape_is_met(bytes, at, Place::Gap, depth);
                no_wide_escape_is_met(bytes, at + 1, Place::Plain, depth);
            },
            Place::Quoted => {
                no_wide_escape_is_met(bytes, at + 1, Place::Gap, depth);
                no_wide_escape_is_met(bytes, at + 1, Place::Quoted, depth);
                if at + 1 < bytes.len() {
                    no_wide_escape_is_met(bytes, at + 2, Place::Quoted, depth);
                }
            },
        }
    }
}

/// Bytes in which no backslash is followed by three digits of a number above 255 can be
/// read.
pub proof fn bytes_without_wide_escapes_fit(bytes: Seq<u8>)
    requires
        forall|i: int|
            0 <= i < bytes.len() - 3 && #[trigger] bytes[i] == 0x5c && 0x30 <= bytes[i + 1] <= 0x39
                && 0x30 <= bytes[i + 2] <= 0x39 && 0x30 <= bytes[i + 3] <= 0x39 ==> 100 * (bytes[i
                + 1] - 0x30) + 10 * (bytes[i + 2] - 0x30) + (bytes[i + 3] - 0x30) <= 255,
    ensures
        escapes_fit(bytes),
{
    no_wide_escape_is_met(bytes, 0, Place::Gap, 0);
}

/// Bytes cannot be read in which such an escape stands in the first atom, between its
/// quotes, with no other backslash before it, and in which nothing but blanks and opened
/// lists comes before the atom.
pub proof fn wide_escape_between_quotes_does_not_fit(
    front: Seq<u8>,
    quoted: Seq<u8>,
    hundreds: u8,
    tens: u8,
    ones: u8,
    back: Seq<u8>,
)
    requires
        forall|i: int|
            0 <= i < front.len() ==> #[trigger] front[i] == 0x28 || front[i] == 0x20 || front[i]
                == 0x09 || front[i] == 0x0d || front[i] == 0x0a,
        forall|i: int|
            0 <= i < quoted.len() ==> #[trigger] quoted[i] != 0x22 && quoted[i] != 0x5c,
        0x30 <= hundreds <= 0x39,
        0x30 <= tens <= 0x39,
        0x30 <= ones <= 0x39,
        100 * (hundreds - 0x30) + 10 * (tens - 0x30) + (ones - 0x30) > 255,
    ensures
        !escapes_fit(
            front + seq![0x22u8] + quoted + seq![0x5cu8, hundreds, tens, ones] + back,
        ),
{
    let bytes = front + seq![0x22u8] + quoted + seq![0x5cu8, hundreds, tens, ones] + back;
    let end = (front.len() + 1 + quoted.len()) as int;
    assert(bytes[end] == 0x5c);
    assert(bytes[end + 1] == hundreds && bytes[end + 2] == tens && bytes[end + 3] == ones);
    assert(is_wide(bytes, end + 1));
    assert forall|i: int| front.len() < i < end implies #[trigger] bytes[i] != 0x22 && bytes[i]
        != 0x5c by {
        assert(bytes[i] == quoted[i - front.len() - 1]);
    }
    assert forall|i: int| 0 <= i < front.len() implies #[trigger] bytes[i] == 0x28 || is_blank(
        bytes[i],
    ) by {
        assert(bytes[i] == front[i]);
    }
    assert(bytes[front.len() as int] == 0x22);
    escape_is_met_from_the_gap(bytes, 0, front.len() as int, end, 0);
}

proof fn escape_is_met_from_the_quote(bytes: Seq<u8>, at: int, end: int, depth: nat)
    requires
        0 <= at <= end < bytes.len(),
        bytes[end] == 0x5c,
        is_wide(bytes, end + 1),
        forall|i: int| at <= i < end ==> #[trigger] bytes[i] != 0x22 && bytes[i] != 0x5c,
    ensures
        meets_wide_escape(bytes, at, Place::Quoted, depth),
    decreases end - at,
{
    if at < end {
        escape_is_met_from_the_quote(bytes, at + 1, end, depth);
    }
}

proof fn escape_is_met_from_the_gap(bytes: Seq<u8>, at: int, quote: int, end: int, depth: nat)
    requires
        0 <= at <= quote < end < bytes.len(),
        bytes[quote] == 0x22,
        bytes[end] == 0x5c,
        is_wide(bytes, end + 1),
        forall|i: int| at <= i < quote ==> #[trigger] bytes[i] == 0x28 || is_blank(bytes[i]),
        forall|i: int| quote < i < end ==> #[trigger] bytes[i] != 0x22 && bytes[i] != 0x5c,
    ensures
        meets_wide_escape(bytes, at, Place::Gap, depth),
    decreases quote - at,
{
    if at < quote {
        escape_is_met_from_the_gap(bytes, at + 1, quote, end, depth);
        escape_is_met_from_the_gap(bytes, at + 1, quote, end, depth + 1);
    } else {
        escape_is_met_from_the_quote(bytes, at + 1, end, depth);
    }
}

/// After `front`, which opens lists and nothing else, reading goes on with as many lists
/// open.
proof fn reading_goes_on_in_open_lists(front: Seq<u8>, bytes: Seq<u8>)
    requires
        forall|i: int| 0 <= i < front.len() ==> #[trigger] front[i] == 0x28,
    ensures
        escapes_fit(front + bytes) <==> !meets_wide_escape(bytes, 0, Place::Gap, front.len()),
{
    lists_are_opened_one_by_one(front, bytes, 0);
    bytes_before_do_not_matter(front, bytes, 0, Place::Gap, front.len());
}

proof fn lists_are_opened_one_by_one(front: Seq<u8>, bytes: Seq<u8>, at: nat)
    requires
        at <= front.len(),
        forall|i: int| 0 <= i < front.len() ==> #[trigger] front[i] == 0x28,
    ensures
        meets_wide_escape(front + bytes, at as int, Place::Gap, at) == meets_wide_escape(
            front + bytes,
            front.len() as int,
            Place::Gap,
            front.len(),
        ),
    decreases front.len() - at,
{
    if at < front.len() {
        assert((front + bytes)[at as int] == front[at as int]);
        lists_are_opened_one_by_one(front, bytes, at + 1);
    }
}

/// A blank between expressions does not decide whether the bytes can be read.
pub proof fn blank_does_not_matter(front: Seq<u8>, blank: u8, rest: Seq<u8>)
    requires
        forall|i: int| 0 <= i < front.len() ==> #[trigger] front[i] == 0x28,
        blank == 0x20 || blank == 0x09 || blank == 0x0d || blank == 0x0a,
    ensures
        escapes_fit(front + (seq![blank] + rest)) <==> escapes_fit(front + rest),
{
    let bytes = seq![blank] + rest;
    assert(bytes[0] == blank);
    reading_goes_on_in_open_lists(front, bytes);
    reading_goes_on_in_open_lists(front, rest);
    bytes_before_do_not_matter(seq![blank], rest, 0, Place::Gap, front.len());
}

/// Closing a list leaves one list fewer open. Where none is left open reading ends, and
/// what follows does not matter.
pub proof fn closed_list_is_left(front: Seq<u8>, rest: Seq<u8>)
    requires
        forall|i: int| 0 <= i < front.len() ==> #[trigger] front[i] == 0x28,
    ensures
        front.len() <= 1 ==> escapes_fit(front + (seq![0x29u8] + rest)),
        front.len() > 1 ==> (escapes_fit(front + (seq![0x29u8] + rest)) <==> escapes_fit(
            front.drop_last() + rest,
        )),
{
    let bytes = seq![0x29u8] + rest;
    assert(bytes[0] == 0x29);
    reading_goes_on_in_open_lists(front, bytes);
    if front.len() > 1 {
        let fewer = front.drop_last();
        reading_goes_on_in_open_lists(fewer, rest);
        bytes_before_do_not_matter(seq![0x29u8], rest, 0, Place::Gap, fewer.len());
    }
}

/// What a comment holds does not matter, and it ends with its line.
pub proof fn comment_does_not_matter(front: Seq<u8>, comment: Seq<u8>, line_end: u8, rest: Seq<u8>)
    requires
        forall|i: int| 0 <= i < front.len() ==> #[trigger] front[i] == 0x28,
        forall|i: int|
            0 <= i < comment.len() ==> #[trigger] comment[i] != 0x0d && comment[i] != 0x0a,
        line_end == 0x0d || line_end == 0x0a,
    ensures
        escapes_fit(front + (seq![0x3bu8] + comment + seq![line_end] + rest)) <==> escapes_fit(
            front + rest,
        ),
{
    let before = seq![0x3bu8] + comment + seq![line_end];
    let bytes = before + rest;
    assert(bytes[0] == 0x3b);
    assert forall|i: int| 1 <= i <= comment.len() implies #[trigger] bytes[i] != 0x0d && bytes[i]
        != 0x0a by {
        assert(bytes[i] == comment[i - 1]);
    }
    let end = comment.len() as int + 1;
    assert(bytes[end] == line_end);
    reading_goes_on_in_open_lists(front, bytes);
    reading_goes_on_in_open_lists(front, rest);
    comment_is_passed_over(bytes, 1, end, front.len());
    bytes_before_do_not_matter(before, rest, 0, Place::Gap, front.len());
}

/// A comment that no line end follows goes on to the end of the bytes, and whatever it
/// holds they can be read.
pub proof fn last_comment_does_not_matter(front: Seq<u8>, comment: Seq<u8>)
    requires
        forall|i: int| 0 <= i < front.len() ==> #[trigger] front[i] == 0x28,
        forall|i: int|
            0 <= i < comment.len() ==> #[trigger] comment[i] != 0x0d && comment[i] != 0x0a,
    ensures
        escapes_fit(front + (seq![0x3bu8] + comment)),
{
    let bytes = seq![0x3bu8] + comment;
    assert(bytes[0] == 0x3b);
    assert forall|i: int| 1 <= i < bytes.len() implies #[trigger] bytes[i] != 0x0d && bytes[i]
        != 0x0a by {
        assert(bytes[i] == comment[i - 1]);
    }
    reading_goes_on_in_open_lists(front, bytes);
    last_comment_is_passed_over(bytes, 1, front.len());
}

proof fn last_comment_is_passed_over(bytes: Seq<u8>, at: int, depth: nat)
    requires
        0 <= at,
        forall|i: int| at <= i < bytes.len() ==> #[trigger] bytes[i] != 0x0d && bytes[i] != 0x0a,
    ensures
        !meets_wide_escape(bytes, at, Place::Comment, depth),
    decreases bytes.len() - at,
{
    if at < bytes.len() {
        last_comment_is_passed_over(bytes, at + 1, depth);
    }
}

proof fn comment_is_passed_over(bytes: Seq<u8>, at: int, end: int, depth: nat)
    requires
        0 <= at <= end < bytes.len(),
        bytes[end] == 0x0d || bytes[end] == 0x0a,
        forall|i: int| at <= i < end ==> #[trigger] bytes[i] != 0x0d && bytes[i] != 0x0a,
    ensures
        meets_wide_escape(bytes, at, Place::Comment, depth) == meets_wide_escape(
            bytes,
            end + 1,
            Place::Gap,
            depth,
        ),
    decreases end - at,
{
    if at < end {
        comment_is_passed_over(bytes, at + 1, end, depth);
    }
}

/// Between quotes, a byte that is neither a quote nor a backslash does not matter.
pub proof fn quoted_byte_does_not_matter(front: Seq<u8>, quoted: u8, rest: Seq<u8>)
    requires
        forall|i: int| 0 <= i < front.len() ==> #[trigger] front[i] == 0x28,
        quoted != 0x22,
        quoted != 0x5c,
    ensures
        escapes_fit(front + (seq![0x22u8, quoted] + rest)) <==> escapes_fit(
            front + (seq![0x22u8] + rest),
        ),
{
    let bytes = seq![0x22u8, quoted] + rest;
    let shorter = seq![0x22u8] + rest;
    assert(bytes[0] == 0x22 && bytes[1] == quoted && shorter[0] == 0x22);
    reading_goes_on_in_open_lists(front, bytes);
    reading_goes_on_in_open_lists(front, shorter);
    assert(meets_wide_escape(bytes, 0, Place::Gap, front.len()) == meets_wide_escape(
        bytes,
        1,
        Place::Quoted,
        front.len(),
    ));
    bytes_before_do_not_matter(seq![0x22u8, quoted], rest, 0, Place::Quoted, front.len());
    bytes_before_do_not_matter(seq![0x22u8], rest, 0, Place::Quoted, front.len());
}

/// Between quotes, a backslash and the byte behind it do not matter, unless three digits of
/// a number above 255 are behind it: then the bytes cannot be read.
pub proof fn quoted_backslash_decides(front: Seq<u8>, escaped: u8, rest: Seq<u8>)
    requires
        forall|i: int| 0 <= i < front.len() ==> #[trigger] front[i] == 0x28,
    ensures
        rest.len() >= 2 && 0x30 <= escaped <= 0x39 && 0x30 <= rest[0] <= 0x39 && 0x30 <= rest[1]
            <= 0x39 && 100 * (escaped - 0x30) + 10 * (rest[0] - 0x30) + (rest[1] - 0x30) > 255
            ==> !escapes_fit(front + (seq![0x22u8, 0x5cu8, escaped] + rest)),
        !(rest.len() >= 2 && 0x30 <= escaped <= 0x39 && 0x30 <= rest[0] <= 0x39 && 0x30 <= rest[1]
            <= 0x39 && 100 * (escaped - 0x30) + 10 * (rest[0] - 0x30) + (rest[1] - 0x30) > 255)
            ==> (escapes_fit(front + (seq![0x22u8, 0x5cu8, escaped] + rest)) <==> escapes_fit(
            front + (seq![0x22u8] + rest),
        )),
{
    let before = seq![0x22u8, 0x5cu8, escaped];
    let bytes = before + rest;
    let shorter = seq![0x22u8] + rest;
    assert(bytes[0] == 0x22 && bytes[1] == 0x5c && bytes[2] == escaped && shorter[0] == 0x22);
    if rest.len() >= 2 {
        assert(bytes[3] == rest[0] && bytes[4] == rest[1]);
    }
    assert(is_wide(bytes, 2) <==> (rest.len() >= 2 && 0x30 <= escaped <= 0x39 && 0x30 <= rest[0]
        <= 0x39 && 0x30 <= rest[1] <= 0x39 && 100 * (escaped - 0x30) + 10 * (rest[0] - 0x30) + (
    rest[1] - 0x30) > 255));
    reading_goes_on_in_open_lists(front, bytes);
    reading_goes_on_in_open_lists(front, shorter);
    assert(meets_wide_escape(bytes, 0, Place::Gap, front.len()) == meets_wide_escape(
        bytes,
        1,
        Place::Quoted,
        front.len(),
    ));
    bytes_before_do_not_matter(before, rest, 0, Place::Quoted, front.len());
    bytes_before_do_not_matter(seq![0x22u8], rest, 0, Place::Quoted, front.len());
}

/// The second quote ends the atom. Where no list is open reading ends with it, and what
/// follows does not matter; where one is, the atom does not matter.
pub proof fn closed_quotes_are_left(front: Seq<u8>, rest: Seq<u8>)
    requires
        forall|i: int| 0 <= i < front.len() ==> #[trigger] front[i] == 0x28,
    ensures
        front.len() == 0 ==> escapes_fit(front + (seq![0x22u8, 0x22u8] + rest)),
        front.len() > 0 ==> (escapes_fit(front + (seq![0x22u8, 0x22u8] + rest)) <==> escapes_fit(
            front + rest,
        )),
{
    let before = seq![0x22u8, 0x22u8];
    let bytes = before + rest;
    assert(bytes[0] == 0x22 && bytes[1] == 0x22);
    reading_goes_on_in_open_lists(front, bytes);
    reading_goes_on_in_open_lists(front, rest);
    assert(meets_wide_escape(bytes, 0, Place::Gap, front.len()) == meets_wide_escape(
        bytes,
        1,
        Place::Quoted,
        front.len(),
    ));
    bytes_before_do_not_matter(before, rest, 0, Place::Gap, front.len());
}

/// An atom without quotes goes on with any byte that separates nothing, but ends reading
/// where it holds `#|` or `|#`.
pub proof fn plain_byte_does_not_matter(front: Seq<u8>, plain: u8, next: u8, rest: Seq<u8>)
    requires
        forall|i: int| 0 <= i < front.len() ==> #[trigger] front[i] == 0x28,
        plain != 0x20 && plain != 0x09 && plain != 0x0d && plain != 0x0a,
        plain != 0x3b && plain != 0x28 && plain != 0x29 && plain != 0x22,
        next != 0x20 && next != 0x09 && next != 0x0d && next != 0x0a,
        next != 0x3b && next != 0x28 && next != 0x29 && next != 0x22,
    ensures
        (plain == 0x23 && next == 0x7c) || (plain == 0x7c && next == 0x23) ==> escapes_fit(
            front + (seq![plain, next] + rest),
        ),
        !((plain == 0x23 && next == 0x7c) || (plain == 0x7c && next == 0x23)) ==> (escapes_fit(
            front + (seq![plain, next] + rest),
        ) <==> escapes_fit(front + (seq![next] + rest))),
{
    let bytes = seq![plain, next] + rest;
    let shorter = seq![next] + rest;
    assert(bytes[0] == plain && bytes[1] == next && shorter[0] == next);
    assert(bytes =~= seq![plain] + shorter);
    reading_goes_on_in_open_lists(front, bytes);
    reading_goes_on_in_open_lists(front, shorter);
    assert(meets_wide_escape(bytes, 0, Place::Gap, front.len()) == meets_wide_escape(
        bytes,
        1,
        Place::Plain,
        front.len(),
    ));
    bytes_before_do_not_matter(seq![plain], shorter, 1, Place::Plain, front.len());
}

/// A separating byte ends an atom without quotes. Where no list is open reading ends with
/// it, and what follows does not matter; where one is, the atom does not matter.
pub proof fn separated_atom_is_left(front: Seq<u8>, plain: u8, separator: u8, rest: Seq<u8>)
    requires
        forall|i: int| 0 <= i < front.len() ==> #[trigger] front[i] == 0x28,
        plain != 0x20 && plain != 0x09 && plain != 0x0d && plain != 0x0a,
        plain != 0x3b && plain != 0x28 && plain != 0x29 && plain != 0x22,
        separator == 0x20 || separator == 0x09 || separator == 0x0d || separator == 0x0a
            || separator == 0x3b || separator == 0x28 || separator == 0x29 || separator == 0x22,
    ensures
        front.len() == 0 ==> escapes_fit(front + (seq![plain, separator] + rest)),
        front.len() > 0 ==> (escapes_fit(front + (seq![plain, separator] + rest)) <==> escapes_fit(
            front + (seq![separator] + rest),
        )),
{
    let bytes = seq![plain, separator] + rest;
    let shorter = seq![separator] + rest;
    assert(bytes[0] == plain && bytes[1] == separator && shorter[0] == separator);
    assert(bytes =~= seq![plain] + shorter);
    reading_goes_on_in_open_lists(front, bytes);
    reading_goes_on_in_open_lists(front, shorter);
    assert(meets_wide_escape(bytes, 0, Place::Gap, front.len()) == meets_wide_escape(
        bytes,
        1,
        Place::Plain,
        front.len(),
    ));
    bytes_before_do_not_matter(seq![plain], shorter, 0, Place::Gap, front.len());
}

} // verus!
