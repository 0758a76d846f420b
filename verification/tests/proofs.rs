use base64::engine::general_purpose::STANDARD;
use base64::Engine;
use verification_test::{
    has_fitting_escapes, parse_o1js_proof_json, proof_from_b64_sexp, Base64Error, O1jsProofJson,
    ParseError, SExpr, SexpError,
};

fn atom(text: &str) -> SExpr {
    SExpr::Atom(text.as_bytes().to_vec())
}

fn kept(sexp: &SExpr) -> Result<SExpr, String> {
    Ok(sexp.clone())
}

fn refused(_sexp: &SExpr) -> Result<SExpr, String> {
    Err(String::from("no proof"))
}

fn json(max_proofs_verified: u8, sexp: &str) -> O1jsProofJson {
    O1jsProofJson {
        public_input: vec![String::from("1"), String::from("2")],
        public_output: vec![String::from("3")],
        max_proofs_verified,
        proof: STANDARD.encode(sexp),
    }
}

fn fifteen() -> String {
    String::from("(0 1 2 3 4 5 6 7 8 9 10 11 12 13 14)")
}

fn dummy() -> SExpr {
    SExpr::List(vec![atom("d"); 15])
}

#[test]
fn base64_text_of_an_expression_is_read() {
    // "((foo bar) baz)"
    let result = proof_from_b64_sexp("KChmb28gYmFyKSBiYXop", kept);
    let expected =
        SExpr::List(vec![SExpr::List(vec![atom("foo"), atom("bar")]), atom("baz")]);
    assert_eq!(result, Ok(expected));
}

#[test]
fn white_space_around_the_text_is_ignored() {
    let result = proof_from_b64_sexp(" \t\r\n\u{b}\u{85}\u{a0}\u{3000}YQ==\u{2028}\n ", kept);
    assert_eq!(result, Ok(atom("a")));
}

#[test]
fn a_zero_width_space_is_not_white_space() {
    let result = proof_from_b64_sexp("YQ==\u{200b}", kept);
    assert_eq!(result, Err(ParseError::Base64(Base64Error::InvalidByte(2, 61))));
}

#[test]
fn text_that_is_not_base64_is_refused() {
    let cases = [
        ("YQ==!", Base64Error::InvalidByte(4, 33)),
        ("Y W=", Base64Error::InvalidByte(1, 32)),
        ("YWJjZ", Base64Error::InvalidLength(5)),
        ("YR==", Base64Error::InvalidLastSymbol(1, 82)),
        ("YQ", Base64Error::InvalidPadding),
        ("YQ=", Base64Error::InvalidPadding),
    ];
    for (text, error) in cases {
        assert!(has_fitting_escapes(text));
        assert_eq!(proof_from_b64_sexp(text, kept), Err(ParseError::Base64(error)));
    }
}

#[test]
fn bytes_that_are_no_expression_are_refused() {
    let cases = [
        ("a#|b", SexpError::UnexpectedCharInString(35)),
        ("a|#b", SexpError::UnexpectedCharInString(124)),
        ("\"abc", SexpError::UnexpectedEofInString),
        ("(a b", SexpError::UnexpectedEof),
        ("a b", SexpError::UnexpectedEof),
        ("", SexpError::EmptyAtom),
        (")", SexpError::EmptyAtom),
    ];
    for (sexp, error) in cases {
        let text = STANDARD.encode(sexp);
        assert!(has_fitting_escapes(&text));
        assert_eq!(proof_from_b64_sexp(&text, kept), Err(ParseError::Sexp(error)));
    }
}

#[test]
fn a_decoder_that_refuses_is_reported() {
    let result = proof_from_b64_sexp("YQ==", refused);
    assert_eq!(result, Err(ParseError::ProofDecode(String::from("no proof"))));
}

#[test]
fn escapes_above_a_byte_do_not_fit() {
    for sexp in [
        "\"\\256\"",
        "\"\\999\"",
        "(a (b \"x\\300\"))",
        "; x\n(\"a\" \"\\\"\\260\")",
        "\"\\999",
        "(a\"\\999\")",
    ] {
        assert!(!has_fitting_escapes(&STANDARD.encode(sexp)), "{sexp}");
    }
}

#[test]
fn other_backslashes_fit_and_are_read() {
    let cases = [
        ("\"\\255\\065\"", SExpr::Atom(vec![255, 65])),
        ("\"\\\\999\"", atom("\\999")),
        ("\\999", atom("\\999")),
        ("\"\\99\"", atom("\\99")),
        ("\"\\x41\\n\"", atom("A\n")),
        ("(a) ; \"\\999\"", SExpr::List(vec![atom("a")])),
        ("(a ; \"\\999\"\n b)", SExpr::List(vec![atom("a"), atom("b")])),
    ];
    for (sexp, expected) in cases {
        let text = STANDARD.encode(sexp);
        assert!(has_fitting_escapes(&text), "{sexp}");
        assert_eq!(proof_from_b64_sexp(&text, kept), Ok(expected));
    }
}

#[test]
fn escapes_after_the_end_of_reading_fit() {
    let cases = [
        ("(a) \"\\999\"", SexpError::UnexpectedEof),
        ("a \"\\999\"", SexpError::UnexpectedEof),
        ("\"a\" \"\\999\"", SexpError::UnexpectedEof),
        ("(a)) \"\\999\"", SexpError::UnexpectedEof),
        (") \"\\999\"", SexpError::EmptyAtom),
        ("(a#|b \"\\999\")", SexpError::UnexpectedEof),
        ("\"\\", SexpError::UnexpectedEofInString),
    ];
    for (sexp, error) in cases {
        let text = STANDARD.encode(sexp);
        assert!(has_fitting_escapes(&text), "{sexp}");
        assert_eq!(proof_from_b64_sexp(&text, kept), Err(ParseError::Sexp(error)));
    }
}

#[test]
fn an_o1js_proof_of_one_is_padded_and_its_parts_are_carried() {
    let json = json(1, &format!("(proof ({}) end)", fifteen()));
    let parsed = parse_o1js_proof_json(Ok(json), &dummy(), kept).unwrap();
    assert_eq!(parsed.public_input, vec![String::from("1"), String::from("2")]);
    assert_eq!(parsed.public_output, vec![String::from("3")]);
    assert_eq!(parsed.max_proofs_verified, 1);
    let text = STANDARD.encode(format!("(proof ({} {}) end)", fifteen(), fifteen()));
    assert_eq!(proof_from_b64_sexp(&text, kept), Ok(parsed.proof));
}

#[test]
fn an_o1js_proof_of_two_is_read_as_it_stands() {
    let json = json(2, &format!("(proof ({}) end)", fifteen()));
    let text = json.proof.clone();
    let parsed = parse_o1js_proof_json(Ok(json), &dummy(), kept).unwrap();
    assert_eq!(proof_from_b64_sexp(&text, kept), Ok(parsed.proof));
}

#[test]
fn an_o1js_proof_of_none_is_padded_with_the_dummy() {
    let sexp = |challenges: &str| {
        format!("((messages_for_next_wrap_proof ((old_bulletproof_challenges ({challenges})))))")
    };
    let parsed = parse_o1js_proof_json(Ok(json(0, &sexp(""))), &dummy(), kept).unwrap();
    assert_eq!(parsed.max_proofs_verified, 0);
    let entry = "(d d d d d d d d d d d d d d d)";
    let text = STANDARD.encode(sexp(&format!("{entry} {entry}")));
    assert_eq!(proof_from_b64_sexp(&text, kept), Ok(parsed.proof));
}

#[test]
fn an_o1js_proof_of_none_without_the_empty_list_is_refused() {
    let result = parse_o1js_proof_json(Ok(json(0, "(() ())")), &dummy(), kept);
    assert_eq!(result.unwrap_err(), ParseError::NoChallenges);
}

#[test]
fn white_space_around_the_text_of_an_o1js_proof_is_ignored() {
    let plain = json(2, "(a b)");
    let mut spaced = json(2, "(a b)");
    spaced.proof = format!("\n {}\t", plain.proof);
    let plain = parse_o1js_proof_json(Ok(plain), &dummy(), kept).unwrap();
    let spaced = parse_o1js_proof_json(Ok(spaced), &dummy(), kept).unwrap();
    assert_eq!(plain.proof, spaced.proof);
    assert_eq!(plain.public_input, spaced.public_input);
}

#[test]
fn an_o1js_proof_without_challenges_is_refused() {
    let result = parse_o1js_proof_json(Ok(json(1, "(a b)")), &dummy(), kept);
    assert_eq!(result.unwrap_err(), ParseError::NoChallenges);
}

#[test]
fn each_step_of_an_o1js_proof_reports_its_error() {
    let result = parse_o1js_proof_json(Err(String::from("bad")), &dummy(), kept);
    assert_eq!(result.unwrap_err(), ParseError::Json(String::from("bad")));

    let mut broken = json(2, "a");
    broken.proof = String::from("YQ");
    let result = parse_o1js_proof_json(Ok(broken), &dummy(), kept);
    assert_eq!(result.unwrap_err(), ParseError::Base64(Base64Error::InvalidPadding));

    let result = parse_o1js_proof_json(Ok(json(1, "(")), &dummy(), kept);
    assert_eq!(result.unwrap_err(), ParseError::Sexp(SexpError::UnexpectedEof));

    let result = parse_o1js_proof_json(Ok(json(2, "a")), &dummy(), refused);
    assert_eq!(result.unwrap_err(), ParseError::ProofDecode(String::from("no proof")));
}

#[test]
fn messages_tell_the_error() {
    let cases = [
        (ParseError::Json(String::from("EOF")), "JSON parse: EOF"),
        (
            ParseError::Base64(Base64Error::InvalidByte(1205, 33)),
            "base64 decode proof: InvalidByte(1205, 33)",
        ),
        (
            ParseError::Base64(Base64Error::InvalidLength(5)),
            "base64 decode proof: InvalidLength(5)",
        ),
        (
            ParseError::Base64(Base64Error::InvalidLastSymbol(10, 100)),
            "base64 decode proof: InvalidLastSymbol(10, 100)",
        ),
        (
            ParseError::Base64(Base64Error::InvalidPadding),
            "base64 decode proof: InvalidPadding",
        ),
        (
            ParseError::Sexp(SexpError::UnexpectedCharInString(35)),
            "parse proof S-exp: UnexpectedCharInString(35)",
        ),
        (
            ParseError::Sexp(SexpError::UnexpectedEofInString),
            "parse proof S-exp: UnexpectedEofInString",
        ),
        (ParseError::Sexp(SexpError::UnexpectedEof), "parse proof S-exp: UnexpectedEof"),
        (ParseError::Sexp(SexpError::EmptyAtom), "parse proof S-exp: EmptyAtom"),
        (ParseError::NoChallenges, "Could not find old_bulletproof_challenges to pad"),
        (ParseError::ProofDecode(String::from("x")), "S-exp -> proof decode: x"),
        (ParseError::GraphqlExecution(String::from("x")), "GraphQL execution error: x"),
        (ParseError::GraphqlFields(vec![]), "GraphQL field errors: []"),
        (
            ParseError::GraphqlFields(vec![String::from("x"), String::from("y")]),
            "GraphQL field errors: [x, y]",
        ),
        (
            ParseError::NoTransaction,
            "No transaction was parsed from the GraphQL mutation",
        ),
        (ParseError::NotZkappCommand, "Expected ZkappCommand variant"),
        (ParseError::NoProof, "No proof found in any account update authorization"),
    ];
    for (error, message) in cases {
        assert_eq!(error.message(), message);
    }
}

#[test]
fn messages_say_what_the_outside_errors_say() {
    for text in ["YQ==!", "YWJjZ", "YR==", "YQ"] {
        let outside = STANDARD.decode(text).unwrap_err();
        let error = proof_from_b64_sexp(text, kept).unwrap_err();
        assert_eq!(error.message(), format!("base64 decode proof: {outside:?}"));
    }
    for sexp in ["a#|b", "\"abc", "(a b", ""] {
        let outside = rsexp::from_slice(sexp).unwrap_err();
        let error = proof_from_b64_sexp(&STANDARD.encode(sexp), kept).unwrap_err();
        assert_eq!(error.message(), format!("parse proof S-exp: {outside:?}"));
    }
}
