use verification_test::{
    extract_first_proof, parse_graphql_zkapp, take_transaction, Context, Control, Executed,
    Mutation, ParseError, Query, UserCommand, ZkappCommand,
};

type Sent = UserCommand<u8, String, u64>;

fn command(authorizations: Vec<Control<u64>>) -> ZkappCommand<String, u64> {
    ZkappCommand { command: String::from("transfer"), authorizations }
}

#[test]
fn the_first_proof_is_extracted() {
    let zkapp = command(vec![
        Control::NoneGiven,
        Control::Signature,
        Control::Proof(7),
        Control::Proof(8),
    ]);
    assert_eq!(extract_first_proof(&zkapp), Ok(7));
}

#[test]
fn without_a_proof_there_is_none_to_extract() {
    assert_eq!(extract_first_proof(&command(vec![])), Err(ParseError::NoProof));
    let zkapp = command(vec![Control::NoneGiven, Control::Signature]);
    assert_eq!(extract_first_proof(&zkapp), Err(ParseError::NoProof));
}

#[test]
fn updates_around_the_first_proof_leave_it() {
    let zkapp = command(vec![
        Control::Signature,
        Control::NoneGiven,
        Control::Signature,
        Control::Proof(7),
        Control::Signature,
        Control::Proof(8),
        Control::Proof(9),
    ]);
    assert_eq!(extract_first_proof(&zkapp), Ok(7));
}

#[test]
fn nothing_but_the_authorizations_decides_the_first_proof() {
    let zkapp = ZkappCommand { command: 5u8, authorizations: vec![Control::Proof(7u64)] };
    assert_eq!(extract_first_proof(&zkapp), Ok(7));
    assert_eq!(extract_first_proof(&command(vec![Control::Proof(7)])), Ok(7));
}

/// A document is a word: `zkapp` and `signed` send a transaction, `dummy` asks a query.
fn execute(document: &str, context: Context<Sent>) -> Executed<u32, Sent> {
    let mut context = context;
    let respond = |_wire: Sent| -> Result<u32, String> { Ok(1) };
    let sent: Option<Sent> = match document {
        "zkapp" => Some(UserCommand::ZkappCommand(command(vec![
            Control::Signature,
            Control::Proof(9),
        ]))),
        "signed" => Some(UserCommand::SignedCommand(5)),
        _ => None,
    };
    match sent {
        Some(sent) => {
            let answer = Mutation::send_zkapp(&mut context, Ok(sent), respond);
            (answer.map(|value| (value, vec![])), context)
        }
        None if document == "dummy" => (Ok((u32::from(Query::dummy()), vec![])), context),
        None => (Err(String::from("syntax")), context),
    }
}

#[test]
fn a_mutation_gives_the_transaction_and_its_proof() {
    let parsed = parse_graphql_zkapp("zkapp", execute).unwrap();
    assert_eq!(parsed.proof, 9);
    assert_eq!(parsed.zkapp_command.command, "transfer");
    assert_eq!(parsed.zkapp_command.authorizations.len(), 2);
    assert!(matches!(parsed.zkapp_command.authorizations[0], Control::Signature));
    assert!(matches!(parsed.zkapp_command.authorizations[1], Control::Proof(9)));
    assert!(matches!(
        parsed.wire_command,
        UserCommand::ZkappCommand(ZkappCommand { authorizations, .. }) if authorizations.len() == 2
    ));
}

#[test]
fn a_call_gives_nothing_of_an_earlier_one() {
    assert!(parse_graphql_zkapp("zkapp", execute).is_ok());
    let result = parse_graphql_zkapp("dummy", execute);
    assert_eq!(result.unwrap_err(), ParseError::NoTransaction);
    let result = parse_graphql_zkapp("signed", execute);
    assert_eq!(result.unwrap_err(), ParseError::NotZkappCommand);
    let result = parse_graphql_zkapp("zkap", execute);
    assert_eq!(result.unwrap_err(), ParseError::GraphqlExecution(String::from("syntax")));
    assert_eq!(parse_graphql_zkapp("zkapp", execute).unwrap().proof, 9);
}

#[test]
fn a_repeated_call_gives_the_same() {
    let first = parse_graphql_zkapp("zkapp", execute).unwrap();
    assert!(parse_graphql_zkapp("signed", execute).is_err());
    let later = parse_graphql_zkapp("zkapp", execute).unwrap();
    assert_eq!(format!("{first:?}"), format!("{later:?}"));
}

#[test]
fn the_response_plays_no_part() {
    let zkapp = || -> Context<Sent> {
        Context { result: Some(UserCommand::ZkappCommand(command(vec![Control::Proof(1)]))) }
    };
    let first = take_transaction((Ok((3u8, vec![])), zkapp())).unwrap();
    let second = take_transaction((Ok((String::from("other"), vec![])), zkapp())).unwrap();
    assert_eq!(first.proof, second.proof);
    assert_eq!(first.zkapp_command.command, second.zkapp_command.command);
}

#[test]
fn each_step_of_a_mutation_reports_its_error() {
    let zkapp = || -> Context<Sent> {
        Context { result: Some(UserCommand::ZkappCommand(command(vec![Control::Proof(1)]))) }
    };

    let failed: Result<((), Vec<String>), String> = Err(String::from("syntax"));
    let result = take_transaction((failed, zkapp()));
    assert_eq!(result.unwrap_err(), ParseError::GraphqlExecution(String::from("syntax")));

    let result = take_transaction((Ok(((), vec![String::from("field")])), zkapp()));
    assert_eq!(result.unwrap_err(), ParseError::GraphqlFields(vec![String::from("field")]));

    let empty: Context<Sent> = Context::new();
    let result = take_transaction((Ok(((), vec![])), empty));
    assert_eq!(result.unwrap_err(), ParseError::NoTransaction);

    let signed: Sent = UserCommand::SignedCommand(5);
    let result = take_transaction((Ok(((), vec![])), Context { result: Some(signed) }));
    assert_eq!(result.unwrap_err(), ParseError::NotZkappCommand);

    let unproved: Sent = UserCommand::ZkappCommand(command(vec![Control::Signature]));
    let result = take_transaction((Ok(((), vec![])), Context { result: Some(unproved) }));
    assert_eq!(result.unwrap_err(), ParseError::NoProof);
}

#[test]
fn a_sent_transaction_is_kept_and_answered() {
    let mut context: Context<u32> = Context { result: None };
    let respond = |wire: u32| -> Result<u32, String> { Ok(wire + 1) };
    assert_eq!(Mutation::send_zkapp(&mut context, Ok(4), respond), Ok(5));
    assert_eq!(context.result, Some(4));
}

#[test]
fn a_transaction_is_kept_though_the_answer_fails() {
    let mut context: Context<u32> = Context { result: Some(1) };
    let respond = |_wire: u32| -> Result<u32, String> { Err(String::from("answer")) };
    let result = Mutation::send_zkapp(&mut context, Ok(4), respond);
    assert_eq!(result, Err(String::from("answer")));
    assert_eq!(context.result, Some(4));
}

#[test]
fn an_input_that_does_not_convert_is_not_kept() {
    let mut context: Context<u32> = Context { result: Some(1) };
    let respond = |wire: u32| -> Result<u32, String> { Ok(wire) };
    let result = Mutation::send_zkapp(&mut context, Err(String::from("input")), respond);
    assert_eq!(result, Err(String::from("input")));
    assert_eq!(context.result, Some(1));
}

#[test]
fn the_dummy_query_answers_true() {
    assert!(Query::dummy());
}
