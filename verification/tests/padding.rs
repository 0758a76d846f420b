use verification_test::{pad_proof_sexp_to_n2, pad_wrap_challenges, ParseError, SExpr};

fn atom(text: &str) -> SExpr {
    SExpr::Atom(text.as_bytes().to_vec())
}

fn list(items: Vec<SExpr>) -> SExpr {
    SExpr::List(items)
}

fn entry(name: &str, len: usize) -> SExpr {
    let mut challenges = Vec::new();
    for i in 0..len {
        challenges.push(atom(&format!("{name}{i}")));
    }
    list(challenges)
}

fn dummy() -> SExpr {
    entry("dummy", 15)
}

fn field(name: &str, value: SExpr) -> SExpr {
    list(vec![atom(name), value])
}

fn wrap_messages(challenges: SExpr) -> SExpr {
    field(
        "messages_for_next_wrap_proof",
        list(vec![
            field("challenge_polynomial_commitment", list(vec![atom("x"), atom("y")])),
            field("old_bulletproof_challenges", challenges),
        ]),
    )
}

fn step_messages() -> SExpr {
    field(
        "messages_for_next_step_proof",
        list(vec![
            field("app_state", list(vec![])),
            field("old_bulletproof_challenges", list(vec![])),
        ]),
    )
}

#[test]
fn a_list_of_one_entry_is_padded_to_two() {
    let mut sexp = list(vec![entry("a", 15)]);
    assert!(pad_wrap_challenges(&mut sexp, 1));
    assert_eq!(sexp, list(vec![entry("a", 15), entry("a", 15)]));
}

#[test]
fn the_list_is_found_below_other_lists_and_the_rest_is_kept() {
    let sexp = list(vec![
        atom("statement"),
        list(vec![atom("x"), list(vec![])]),
        list(vec![atom("old_bulletproof_challenges"), list(vec![entry("a", 15)])]),
        entry("z", 15),
    ]);
    let expected = list(vec![
        atom("statement"),
        list(vec![atom("x"), list(vec![])]),
        list(vec![
            atom("old_bulletproof_challenges"),
            list(vec![entry("a", 15), entry("a", 15)]),
        ]),
        entry("z", 15),
    ]);
    assert_eq!(pad_proof_sexp_to_n2(sexp, 1, &dummy()), Ok(expected));
}

#[test]
fn only_the_first_list_in_preorder_is_padded() {
    let mut sexp = list(vec![
        list(vec![atom("deep"), list(vec![list(vec![entry("a", 15)]), atom("end")])]),
        list(vec![entry("b", 15)]),
    ]);
    assert!(pad_wrap_challenges(&mut sexp, 1));
    let expected = list(vec![
        list(vec![
            atom("deep"),
            list(vec![list(vec![entry("a", 15), entry("a", 15)]), atom("end")]),
        ]),
        list(vec![entry("b", 15)]),
    ]);
    assert_eq!(sexp, expected);
}

#[test]
fn a_list_comes_before_what_is_inside_it() {
    // The entry is itself made of fifteen lists of one entry each.
    let mut inner = Vec::new();
    for _ in 0..15 {
        inner.push(list(vec![entry("c", 15)]));
    }
    let outer = list(inner);
    let mut sexp = list(vec![outer.clone()]);
    assert!(pad_wrap_challenges(&mut sexp, 1));
    assert_eq!(sexp, list(vec![outer.clone(), outer]));
}

#[test]
fn an_entry_of_another_length_is_no_entry() {
    for len in [0, 1, 14, 16] {
        let sexp = list(vec![atom("x"), list(vec![entry("a", len)])]);
        let mut copy = sexp.clone();
        assert!(!pad_wrap_challenges(&mut copy, 1));
        assert_eq!(copy, sexp);
        assert_eq!(pad_proof_sexp_to_n2(sexp, 1, &dummy()), Err(ParseError::NoChallenges));
    }
}

#[test]
fn a_list_of_two_entries_is_no_list_of_one() {
    let sexp = list(vec![entry("a", 15), entry("b", 15)]);
    assert_eq!(pad_proof_sexp_to_n2(sexp, 1, &dummy()), Err(ParseError::NoChallenges));
}

#[test]
fn an_atom_holds_no_list() {
    assert_eq!(pad_proof_sexp_to_n2(atom("a"), 1, &dummy()), Err(ParseError::NoChallenges));
}

#[test]
fn no_list_is_a_list_of_no_entries() {
    let sexp = list(vec![list(vec![]), list(vec![entry("a", 15)])]);
    let mut copy = sexp.clone();
    assert!(!pad_wrap_challenges(&mut copy, 0));
    assert_eq!(copy, sexp);
}

#[test]
fn a_proof_of_none_is_padded_to_two_entries() {
    let proof = |challenges: SExpr| {
        list(vec![
            field("statement", list(vec![step_messages(), wrap_messages(challenges)])),
            field("prev_evals", list(vec![])),
        ])
    };
    assert_eq!(
        pad_proof_sexp_to_n2(proof(list(vec![])), 0, &dummy()),
        Ok(proof(list(vec![dummy(), dummy()])))
    );
}

#[test]
fn only_the_first_empty_list_of_a_proof_of_none_is_filled() {
    let proof = |first: SExpr, second: SExpr| {
        list(vec![list(vec![wrap_messages(first)]), wrap_messages(second)])
    };
    assert_eq!(
        pad_proof_sexp_to_n2(proof(list(vec![]), list(vec![])), 0, &dummy()),
        Ok(proof(list(vec![dummy(), dummy()]), list(vec![])))
    );
}

#[test]
fn a_proof_of_none_without_the_empty_list_is_refused() {
    let cases = vec![
        atom("old_bulletproof_challenges"),
        list(vec![]),
        step_messages(),
        field("old_bulletproof_challenges", list(vec![])),
        wrap_messages(list(vec![entry("a", 15)])),
        wrap_messages(atom("none")),
        field("messages_for_next_wrap_proof", list(vec![])),
        field(
            "messages_for_next_wrap_proof",
            list(vec![field("old_bulletproof_challenge", list(vec![]))]),
        ),
        list(vec![
            field("messages_for_next_wrap_proof", list(vec![])),
            field("old_bulletproof_challenges", list(vec![])),
        ]),
    ];
    for sexp in cases {
        assert_eq!(
            pad_proof_sexp_to_n2(sexp, 0, &dummy()),
            Err(ParseError::NoChallenges)
        );
    }
}

#[test]
fn a_proof_of_two_or_more_is_kept() {
    for max_proofs_verified in [2, 3, 255] {
        let sexp = list(vec![list(vec![entry("a", 15)]), atom("x")]);
        assert_eq!(pad_proof_sexp_to_n2(sexp.clone(), max_proofs_verified, &dummy()), Ok(sexp));
    }
}

#[test]
fn a_list_of_three_entries_is_found_and_kept() {
    let sexp = list(vec![list(vec![entry("a", 15), entry("b", 15), entry("c", 15)])]);
    let mut copy = sexp.clone();
    assert!(pad_wrap_challenges(&mut copy, 3));
    assert_eq!(copy, sexp);
}
