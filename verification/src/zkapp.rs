//! The zkApp transactions that a `sendZkapp` mutation sends.
use vstd::prelude::*;

use crate::error::ParseError;

verus! {

/// How an account update is authorized.
#[derive(Debug)]
pub enum Control<P> {
    Proof(P),
    Signature,
    NoneGiven,
}

/// A zkApp command: the command itself, and how each account update of its top level
/// is authorized, in their order.
#[derive(Debug)]
pub struct ZkappCommand<C, P> {
    pub command: C,
    pub authorizations: Vec<Control<P>>,
}

/// A transaction that a user sends.
#[derive(Debug)]
pub enum UserCommand<S, C, P> {
    SignedCommand(S),
    ZkappCommand(ZkappCommand<C, P>),
}

/// What a `sendZkapp` mutation holds.
#[derive(Debug)]
pub struct ParsedZkappTransaction<S, C, P> {
    /// The whole transaction (fee payer, account updates and memo).
    pub wire_command: UserCommand<S, C, P>,
    /// The zkApp command in the transaction.
    pub zkapp_command: ZkappCommand<C, P>,
    /// The proof of the first account update that carries one.
    pub proof: P,
}

/// The account update at `i` is the first that a proof authorizes.
pub open spec fn is_first_proof<P>(authorizations: Seq<Control<P>>, i: int) -> bool {
    &&& 0 <= i < authorizations.len()
    &&& authorizations[i] is Proof
    &&& forall|j: int| 0 <= j < i ==> !(#[trigger] authorizations[j] is Proof)
}

/// A proof authorizes some account update.
pub open spec fn has_proof<P>(authorizations: Seq<Control<P>>) -> bool {
    exists|i: int| 0 <= i < authorizations.len() && #[trigger] authorizations[i] is Proof
}

/// `proof` is a clone of the first proof.
pub open spec fn clones_first_proof<P: Clone>(authorizations: Seq<Control<P>>, proof: P) -> bool {
    exists|i: int|
        #[trigger] is_first_proof(authorizations, i) && cloned(authorizations[i]->Proof_0, proof)
}

/// `result` can come of extracting the first proof of `zkapp`: a clone of it, or the
/// error that there is none.
pub open spec fn first_proof_outcome<C, P: Clone>(
    zkapp: ZkappCommand<C, P>,
    result: Result<P, ParseError>,
) -> bool {
    match result {
        Ok(proof) => clones_first_proof(zkapp.authorizations@, proof),
        Err(e) => !has_proof(zkapp.authorizations@) && e == ParseError::NoProof,
    }
}

/// `copy` is of the same kind as `control`, and holds a clone of its proof.
pub open spec fn clones_control<P: Clone>(control: Control<P>, copy: Control<P>) -> bool {
    match control {
        Control::Proof(proof) => copy matches Control::Proof(other) && cloned(proof, other),
        Control::Signature => copy is Signature,
        Control::NoneGiven => copy is NoneGiven,
    }
}

/// `copy` is a clone of `zkapp`, part by part.
pub open spec fn clones_command<C: Clone, P: Clone>(
    zkapp: ZkappCommand<C, P>,
    copy: ZkappCommand<C, P>,
) -> bool {
    &&& cloned(zkapp.command, copy.command)
    &&& copy.authorizations@.len() == zkapp.authorizations@.len()
    &&& forall|i: int|
        0 <= i < zkapp.authorizations@.len() ==> clones_control(
            zkapp.authorizations@[i],
            #[trigger] copy.authorizations@[i],
        )
}

/// No two account updates are both the first that a proof authorizes.
pub proof fn first_proof_is_unique<P>(authorizations: Seq<Control<P>>, i: int, j: int)
    requires
        is_first_proof(authorizations, i),
        is_first_proof(authorizations, j),
    ensures
        i == j,
{
}

/// Where a proof authorizes some account update, there is a first one.
pub proof fn first_proof_exists<P>(authorizations: Seq<Control<P>>) -> (i: int)
    requires
        has_proof(authorizations),
    ensures
        is_first_proof(authorizations, i),
    decreases authorizations.len(),
{
    let rest = authorizations.drop_last();
    if has_proof(rest) {
        let i = first_proof_exists(rest);
        assert forall|j: int| 0 <= j < i implies !(#[trigger] authorizations[j] is Proof) by {
            assert(!(rest[j] is Proof));
        }
        i
    } else {
        let i = authorizations.len() - 1;
        assert forall|j: int| 0 <= j < i implies !(#[trigger] authorizations[j] is Proof) by {
            assert(rest[j] == authorizations[j]);
        }
        i
    }
}

/// Updates without a proof in front, and any updates behind, leave the first proof as it
/// is.
pub proof fn first_proof_is_kept<P: Clone>(
    front: Seq<Control<P>>,
    middle: Seq<Control<P>>,
    back: Seq<Control<P>>,
    proof: P,
)
    requires
        !has_proof(front),
        has_proof(middle),
    ensures
        clones_first_proof(front + middle + back, proof) <==> clones_first_proof(middle, proof),
{
    let whole = front + middle + back;
    let i = first_proof_exists(middle);
    let k = front.len() + i;
    assert(whole[k] == middle[i]);
    assert forall|j: int| 0 <= j < k implies !(#[trigger] whole[j] is Proof) by {
        if j < front.len() {
            assert(whole[j] == front[j]);
        } else {
            assert(whole[j] == middle[j - front.len()]);
        }
    }
    assert(is_first_proof(whole, k));
    if clones_first_proof(whole, proof) {
        let other = choose|j: int| #[trigger]
            is_first_proof(whole, j) && cloned(whole[j]->Proof_0, proof);
        first_proof_is_unique(whole, other, k);
    }
    if clones_first_proof(middle, proof) {
        let other = choose|j: int| #[trigger]
            is_first_proof(middle, j) && cloned(middle[j]->Proof_0, proof);
        first_proof_is_unique(middle, other, i);
    }
}

/// Nothing but the authorizations of a command decides which proof is extracted of it.
pub proof fn only_authorizations_are_consulted<C, D, P: Clone>(
    zkapp: ZkappCommand<C, P>,
    other: ZkappCommand<D, P>,
    result: Result<P, ParseError>,
)
    requires
        zkapp.authorizations@ == other.authorizations@,
    ensures
        first_proof_outcome(zkapp, result) <==> first_proof_outcome(other, result),
{
}

/// The proof that is extracted is a clone of the first one: updates without a proof in
/// front of it are passed over, and whatever is behind it plays no part.
pub proof fn the_first_proof_is_extracted<C, P: Clone>(
    zkapp: ZkappCommand<C, P>,
    front: Seq<Control<P>>,
    proof: P,
    back: Seq<Control<P>>,
    result: Result<P, ParseError>,
)
    requires
        zkapp.authorizations@ == front + seq![Control::Proof(proof)] + back,
        forall|i: int| 0 <= i < front.len() ==> !(#[trigger] front[i] is Proof),
    ensures
        first_proof_outcome(zkapp, result) <==> (result matches Ok(extracted) && cloned(
            proof,
            extracted,
        )),
        first_proof_outcome(zkapp, result) ==> result is Ok && clones_first_proof(
            zkapp.authorizations@,
            result->Ok_0,
        ),
{
    let all = zkapp.authorizations@;
    let at = front.len() as int;
    assert(all[at] == Control::Proof(proof));
    assert forall|j: int| 0 <= j < at implies !(#[trigger] all[j] is Proof) by {
        assert(all[j] == front[j]);
    }
    assert(is_first_proof(all, at));
    if let Ok(extracted) = result {
        if clones_first_proof(all, extracted) {
            let i = choose|i: int| #[trigger]
                is_first_proof(all, i) && cloned(all[i]->Proof_0, extracted);
            first_proof_is_unique(all, i, at);
        }
    }
}

/// Where no account update carries a proof, none is extracted, and the error says so.
pub proof fn without_a_proof_none_is_extracted<C, P: Clone>(
    zkapp: ZkappCommand<C, P>,
    result: Result<P, ParseError>,
)
    requires
        forall|i: int|
            0 <= i < zkapp.authorizations@.len() ==> !(#[trigger] zkapp.authorizations@[i] is Proof),
    ensures
        first_proof_outcome(zkapp, result) <==> result == Err::<P, ParseError>(ParseError::NoProof),
{
}

/// A clone of an authorization is of the same kind, and clones its proof.
pub proof fn clone_of_a_control_keeps_its_kind<P: Clone>(control: Control<P>, copy: Control<P>)
    requires
        clones_control(control, copy),
    ensures
        match (control, copy) {
            (Control::Proof(proof), Control::Proof(other)) => cloned(proof, other),
            (Control::Signature, Control::Signature) => true,
            (Control::NoneGiven, Control::NoneGiven) => true,
            _ => false,
        },
{
}

/// A clone of a command is a clone of each of its parts, every authorization at its
/// place.
pub proof fn clone_of_a_command_keeps_every_part<C: Clone, P: Clone>(
    zkapp: ZkappCommand<C, P>,
    copy: ZkappCommand<C, P>,
)
    requires
        clones_command(zkapp, copy),
    ensures
        cloned(zkapp.command, copy.command),
        copy.authorizations@.len() == zkapp.authorizations@.len(),
        forall|i: int|
            #![trigger zkapp.authorizations@[i]]
            #![trigger copy.authorizations@[i]]
            0 <= i < zkapp.authorizations@.len() ==> match (
                zkapp.authorizations@[i],
                copy.authorizations@[i],
            ) {
                (Control::Proof(proof), Control::Proof(other)) => cloned(proof, other),
                (Control::Signature, Control::Signature) => true,
                (Control::NoneGiven, Control::NoneGiven) => true,
                _ => false,
            },
{
    assert forall|i: int|
        #![trigger zkapp.authorizations@[i]]
        #![trigger copy.authorizations@[i]]
        0 <= i < zkapp.authorizations@.len() implies match (
        zkapp.authorizations@[i],
        copy.authorizations@[i],
    ) {
        (Control::Proof(proof), Control::Proof(other)) => cloned(proof, other),
        (Control::Signature, Control::Signature) => true,
        (Control::NoneGiven, Control::NoneGiven) => true,
        _ => false,
    } by {
        assert(clones_control(zkapp.authorizations@[i], copy.authorizations@[i]));
    }
}

impl<P: Clone> Clone for Control<P> {
    fn clone(&self) -> (copy: Self)
        ensures
            clones_control(*self, copy),
    {
        match self {
            Control::Proof(proof) => Control::Proof(proof.clone()),
            Control::Signature => Control::Signature,
            Control::NoneGiven => Control::NoneGiven,
        }
    }
}

impl<C: Clone, P: Clone> Clone for ZkappCommand<C, P> {
    fn clone(&self) -> (copy: Self)
        ensures
            clones_command(*self, copy),
    {
        let command = self.command.clone();
        let mut authorizations: Vec<Control<P>> = Vec::new();
        let mut i: usize = 0;
        while i < self.authorizations.len()
            invariant
                i <= self.authorizations.len(),
                authorizations@.len() == i,
                forall|j: int|
                    0 <= j < i ==> clones_control(
                        self.authorizations@[j],
                        #[trigger] authorizations@[j],
                    ),
            decreases self.authorizations.len() - i,
        {
            let copy = self.authorizations[i].clone();
            authorizations.push(copy);
            i += 1;
        }
        ZkappCommand { command, authorizations }
    }
}

impl<S: Clone, C: Clone, P: Clone> Clone for UserCommand<S, C, P> {
    fn clone(&self) -> (copy: Self)
        ensures
            match *self {
                UserCommand::SignedCommand(signed) => copy matches UserCommand::SignedCommand(other)
                    && cloned(signed, other),
                UserCommand::ZkappCommand(zkapp) => copy matches UserCommand::ZkappCommand(other)
                    && clones_command(zkapp, other),
            },
    {
        match self {
            UserCommand::SignedCommand(signed) => UserCommand::SignedCommand(signed.clone()),
            UserCommand::ZkappCommand(zkapp) => UserCommand::ZkappCommand(zkapp.clone()),
        }
    }
}

/// Walks the account updates and returns the first proof found.
pub fn extract_first_proof<C, P: Clone>(zkapp: &ZkappCommand<C, P>) -> (result: Result<
    P,
    ParseError,
>)
    ensures
        first_proof_outcome(*zkapp, result),
{
    let mut i: usize = 0;
    while i < zkapp.authorizations.len()
        invariant
            i <= zkapp.authorizations.len(),
            forall|j: int| 0 <= j < i ==> !(#[trigger] zkapp.authorizations@[j] is Proof),
        decreases zkapp.authorizations.len() - i,
    {
        if let Control::Proof(proof) = &zkapp.authorizations[i] {
            assert(is_first_proof(zkapp.authorizations@, i as int));
            return Ok(proof.clone());
        }
        i += 1;
    }
    Err(ParseError::NoProof)
}

/// What the mutations of one document leave behind: the transaction that was sent last.
#[derive(Debug)]
pub struct Context<W> {
    pub result: Option<W>,
}

impl<W> Context<W> {
    /// The context in which a document is executed: nothing was sent yet.
    pub fn new() -> (context: Self)
        ensures
            context.result is None,
    {
        Context { result: None }
    }
}

/// What an execution gives: the response and what is said of each error, or what is said
/// of a document that was not executed; and what its mutations left behind.
pub type Executed<V, W> = (Result<(V, Vec<String>), String>, Context<W>);

/// `result` can come of an execution. The response plays no part.
pub open spec fn transaction_outcome<V, S, C: Clone, P: Clone>(
    executed: Executed<V, UserCommand<S, C, P>>,
    result: Result<ParsedZkappTransaction<S, C, P>, ParseError>,
) -> bool {
    match executed.0 {
        Err(cause) => result == Err::<ParsedZkappTransaction<S, C, P>, ParseError>(
            ParseError::GraphqlExecution(cause),
        ),
        Ok((_, errors)) => if errors@.len() > 0 {
            result == Err::<ParsedZkappTransaction<S, C, P>, ParseError>(
                ParseError::GraphqlFields(errors),
            )
        } else {
            match executed.1.result {
                None => result == Err::<ParsedZkappTransaction<S, C, P>, ParseError>(
                    ParseError::NoTransaction,
                ),
                Some(UserCommand::SignedCommand(_)) => result == Err::<
                    ParsedZkappTransaction<S, C, P>,
                    ParseError,
                >(ParseError::NotZkappCommand),
                Some(UserCommand::ZkappCommand(zkapp)) => match result {
                    Ok(parsed) => {
                        &&& parsed.wire_command == UserCommand::<S, C, P>::ZkappCommand(zkapp)
                        &&& clones_command(zkapp, parsed.zkapp_command)
                        &&& clones_first_proof(
                            parsed.zkapp_command.authorizations@,
                            parsed.proof,
                        )
                    },
                    Err(e) => !has_proof(zkapp.authorizations@) && e == ParseError::NoProof,
                },
            }
        },
    }
}

/// `result` can come of `graphql_str`: of an execution in a context of its own, in which
/// nothing was sent yet.
pub open spec fn graphql_outcome<
    V,
    S,
    C: Clone,
    P: Clone,
    F: Fn(&str, Context<UserCommand<S, C, P>>) -> Executed<V, UserCommand<S, C, P>>,
>(
    graphql_str: &str,
    execute: F,
    result: Result<ParsedZkappTransaction<S, C, P>, ParseError>,
) -> bool {
    exists|fresh: Context<UserCommand<S, C, P>>, executed: Executed<V, UserCommand<S, C, P>>|
        fresh.result is None && #[trigger] call_ensures(execute, (graphql_str, fresh), executed)
            && transaction_outcome(executed, result)
}

/// Every clone of a value is that value.
pub open spec fn clones_faithfully<T: Clone>() -> bool {
    forall|value: T, copy: T| #[trigger] cloned(value, copy) ==> value == copy
}

/// Two results are the same error, or hold the same transaction, command and proof.
pub open spec fn same_transaction<S, C, P>(
    first: Result<ParsedZkappTransaction<S, C, P>, ParseError>,
    second: Result<ParsedZkappTransaction<S, C, P>, ParseError>,
) -> bool {
    match (first, second) {
        (Ok(a), Ok(b)) => {
            &&& a.wire_command == b.wire_command
            &&& a.zkapp_command.command == b.zkapp_command.command
            &&& a.zkapp_command.authorizations@ == b.zkapp_command.authorizations@
            &&& a.proof == b.proof
        },
        (Err(a), Err(b)) => a == b,
        _ => false,
    }
}

/// Two executions gave the same in all but the response.
pub open spec fn executed_alike<V, W>(first: Executed<V, W>, second: Executed<V, W>) -> bool {
    &&& first.1 == second.1
    &&& match (first.0, second.0) {
        (Ok((_, a)), Ok((_, b))) => a == b,
        (Err(a), Err(b)) => a == b,
        _ => false,
    }
}

/// Whenever the two documents are executed, each where nothing was sent yet, the
/// executions give the same in all but the response.
pub open spec fn execute_alike<
    V,
    W,
    F: Fn(&str, Context<W>) -> Executed<V, W>,
>(execute: F, first_str: &str, second_str: &str) -> bool {
    forall|c: Context<W>, first: Executed<V, W>, d: Context<W>, second: Executed<V, W>|
        #![trigger call_ensures(execute, (first_str, c), first), call_ensures(
            execute,
            (second_str, d),
            second,
        )]
        c.result is None && call_ensures(execute, (first_str, c), first) && d.result is None
            && call_ensures(execute, (second_str, d), second) ==> executed_alike(first, second)
}

/// Takes the transaction out of an executed `sendZkapp` mutation.
pub fn take_transaction<V, S, C: Clone, P: Clone>(
    executed: Executed<V, UserCommand<S, C, P>>,
) -> (result: Result<ParsedZkappTransaction<S, C, P>, ParseError>)
    ensures
        transaction_outcome(executed, result),
{
    let (response, context) = executed;
    let errors = match response {
        Ok((_value, errors)) => errors,
        Err(cause) => {
            return Err(ParseError::GraphqlExecution(cause));
        },
    };
    if errors.len() > 0 {
        return Err(ParseError::GraphqlFields(errors));
    }
    let wire_command = match context.result {
        Some(wire_command) => wire_command,
        None => {
            return Err(ParseError::NoTransaction);
        },
    };
    let zkapp_command = match &wire_command {
        UserCommand::ZkappCommand(zkapp) => zkapp.clone(),
        UserCommand::SignedCommand(_) => {
            return Err(ParseError::NotZkappCommand);
        },
    };
    let proof = match extract_first_proof(&zkapp_command) {
        Ok(proof) => proof,
        Err(e) => {
            proof {
                let zkapp = wire_command->ZkappCommand_0;
                assert forall|i: int| 0 <= i < zkapp.authorizations@.len() implies !(
                #[trigger] zkapp.authorizations@[i] is Proof) by {
                    assert(clones_control(
                        zkapp.authorizations@[i],
                        zkapp_command.authorizations@[i],
                    ));
                }
            }
            return Err(e);
        },
    };
    Ok(ParsedZkappTransaction { wire_command, zkapp_command, proof })
}

/// Parses a GraphQL `sendZkapp` mutation: executes it in a context of its own, and takes
/// out the transaction that was sent, the zkApp command in it and its first proof.
/// `execute` executes a document in the context that it is given.
pub fn parse_graphql_zkapp<
    V,
    S,
    C: Clone,
    P: Clone,
    F: Fn(&str, Context<UserCommand<S, C, P>>) -> Executed<V, UserCommand<S, C, P>>,
>(graphql_str: &str, execute: F) -> (result: Result<ParsedZkappTransaction<S, C, P>, ParseError>)
    requires
        forall|fresh: Context<UserCommand<S, C, P>>|
            fresh.result is None ==> #[trigger] call_requires(execute, (graphql_str, fresh)),
    ensures
        graphql_outcome(graphql_str, execute, result),
{
    let fresh = Context::new();
    take_transaction(execute(graphql_str, fresh))
}

/// The response of an execution, and so what the document asks of it, plays no part in
/// what can come of it.
pub proof fn response_plays_no_part<V, U, S, C: Clone, P: Clone>(
    response: V,
    other: U,
    errors: Vec<String>,
    context: Context<UserCommand<S, C, P>>,
    result: Result<ParsedZkappTransaction<S, C, P>, ParseError>,
)
    ensures
        transaction_outcome::<V, S, C, P>((Ok((response, errors)), context), result)
            <==> transaction_outcome::<U, S, C, P>((Ok((other, errors)), context), result),
{
}

/// A call gives nothing of an earlier one: where the execution of a document in which
/// nothing was sent yet leaves nothing behind, no transaction comes of the document.
pub proof fn nothing_earlier_comes_out<
    V,
    S,
    C: Clone,
    P: Clone,
    F: Fn(&str, Context<UserCommand<S, C, P>>) -> Executed<V, UserCommand<S, C, P>>,
>(
    graphql_str: &str,
    execute: F,
    result: Result<ParsedZkappTransaction<S, C, P>, ParseError>,
)
    requires
        forall|
            fresh: Context<UserCommand<S, C, P>>,
            executed: Executed<V, UserCommand<S, C, P>>,
        |
            fresh.result is None && #[trigger] call_ensures(
                execute,
                (graphql_str, fresh),
                executed,
            ) ==> executed.1.result is None,
        graphql_outcome(graphql_str, execute, result),
    ensures
        result is Err,
{
}

/// Where one execution alone can be had of a document, what can come of a call is what
/// can come of that execution, whatever was called before.
pub proof fn a_call_is_as_the_first<
    V,
    S,
    C: Clone,
    P: Clone,
    F: Fn(&str, Context<UserCommand<S, C, P>>) -> Executed<V, UserCommand<S, C, P>>,
>(
    graphql_str: &str,
    execute: F,
    only: Executed<V, UserCommand<S, C, P>>,
    result: Result<ParsedZkappTransaction<S, C, P>, ParseError>,
)
    requires
        forall|
            fresh: Context<UserCommand<S, C, P>>,
            executed: Executed<V, UserCommand<S, C, P>>,
        |
            fresh.result is None && #[trigger] call_ensures(
                execute,
                (graphql_str, fresh),
                executed,
            ) ==> executed == only,
        graphql_outcome(graphql_str, execute, result),
    ensures
        transaction_outcome(only, result),
{
}

/// Where clones are faithful, one proof alone can be extracted of a command.
pub proof fn first_proof_outcome_is_unique<C, P: Clone>(
    zkapp: ZkappCommand<C, P>,
    first: Result<P, ParseError>,
    second: Result<P, ParseError>,
)
    requires
        clones_faithfully::<P>(),
        first_proof_outcome(zkapp, first),
        first_proof_outcome(zkapp, second),
    ensures
        first == second,
{
    if let (Ok(p), Ok(q)) = (first, second) {
        let i = choose|i: int| #[trigger]
            is_first_proof(zkapp.authorizations@, i) && cloned(
                zkapp.authorizations@[i]->Proof_0,
                p,
            );
        let j = choose|j: int| #[trigger]
            is_first_proof(zkapp.authorizations@, j) && cloned(
                zkapp.authorizations@[j]->Proof_0,
                q,
            );
        first_proof_is_unique(zkapp.authorizations@, i, j);
    }
}

/// Where clones are faithful, a clone of a command has its parts.
pub proof fn faithful_clone_has_the_same_parts<C: Clone, P: Clone>(
    zkapp: ZkappCommand<C, P>,
    copy: ZkappCommand<C, P>,
)
    requires
        clones_faithfully::<C>(),
        clones_faithfully::<P>(),
        clones_command(zkapp, copy),
    ensures
        copy.command == zkapp.command,
        copy.authorizations@ == zkapp.authorizations@,
{
    assert forall|i: int| 0 <= i < zkapp.authorizations@.len() implies copy.authorizations@[i]
        == zkapp.authorizations@[i] by {
        assert(clones_control(zkapp.authorizations@[i], copy.authorizations@[i]));
    }
    assert(copy.authorizations@ =~= zkapp.authorizations@);
}

/// Where clones are faithful, one result alone can come of an execution.
pub proof fn transaction_outcome_is_unique<V, S, C: Clone, P: Clone>(
    executed: Executed<V, UserCommand<S, C, P>>,
    first: Result<ParsedZkappTransaction<S, C, P>, ParseError>,
    second: Result<ParsedZkappTransaction<S, C, P>, ParseError>,
)
    requires
        clones_faithfully::<C>(),
        clones_faithfully::<P>(),
        transaction_outcome(executed, first),
        transaction_outcome(executed, second),
    ensures
        same_transaction(first, second),
{
    if let Some(UserCommand::ZkappCommand(zkapp)) = executed.1.result {
        if let Ok(a) = first {
            faithful_clone_has_the_same_parts(zkapp, a.zkapp_command);
        }
        if let Ok(b) = second {
            faithful_clone_has_the_same_parts(zkapp, b.zkapp_command);
        }
        if let (Ok(a), Ok(b)) = (first, second) {
            first_proof_outcome_is_unique(zkapp, Ok(a.proof), Ok(b.proof));
        }
    }
}

/// Where clones are faithful, two documents that execute alike in all but the response
/// give the same, whatever was called before either.
pub proof fn documents_that_execute_alike_give_the_same<
    V,
    S,
    C: Clone,
    P: Clone,
    F: Fn(&str, Context<UserCommand<S, C, P>>) -> Executed<V, UserCommand<S, C, P>>,
>(
    first_str: &str,
    second_str: &str,
    execute: F,
    first: Result<ParsedZkappTransaction<S, C, P>, ParseError>,
    second: Result<ParsedZkappTransaction<S, C, P>, ParseError>,
)
    requires
        clones_faithfully::<C>(),
        clones_faithfully::<P>(),
        execute_alike(execute, first_str, second_str),
        graphql_outcome(first_str, execute, first),
        graphql_outcome(second_str, execute, second),
    ensures
        same_transaction(first, second),
{
    let (c, e) = choose|
        c: Context<UserCommand<S, C, P>>,
        e: Executed<V, UserCommand<S, C, P>>,
    |
        c.result is None && #[trigger] call_ensures(execute, (first_str, c), e)
            && transaction_outcome(e, first);
    let (d, f) = choose|
        d: Context<UserCommand<S, C, P>>,
        f: Executed<V, UserCommand<S, C, P>>,
    |
        d.result is None && #[trigger] call_ensures(execute, (second_str, d), f)
            && transaction_outcome(f, second);
    assert(executed_alike(e, f));
    transaction_outcome_is_unique(e, first, second);
}

/// A call gives what the very first call with its document would give: where clones are
/// faithful and a document executes alike each time, the results are the same.
pub proof fn a_repeated_call_gives_the_same<
    V,
    S,
    C: Clone,
    P: Clone,
    F: Fn(&str, Context<UserCommand<S, C, P>>) -> Executed<V, UserCommand<S, C, P>>,
>(
    graphql_str: &str,
    execute: F,
    first: Result<ParsedZkappTransaction<S, C, P>, ParseError>,
    later: Result<ParsedZkappTransaction<S, C, P>, ParseError>,
)
    requires
        clones_faithfully::<C>(),
        clones_faithfully::<P>(),
        execute_alike(execute, graphql_str, graphql_str),
        graphql_outcome(graphql_str, execute, first),
        graphql_outcome(graphql_str, execute, later),
    ensures
        same_transaction(first, later),
{
    documents_that_execute_alike_give_the_same(graphql_str, graphql_str, execute, first, later);
}

/// Of a document that was not executed comes the cause, whatever was sent.
pub proof fn failed_execution_gives_its_cause<V, S, C: Clone, P: Clone>(
    cause: String,
    context: Context<UserCommand<S, C, P>>,
    result: Result<ParsedZkappTransaction<S, C, P>, ParseError>,
)
    ensures
        transaction_outcome::<V, S, C, P>((Err(cause), context), result) <==> result == Err::<
            ParsedZkappTransaction<S, C, P>,
            ParseError,
        >(ParseError::GraphqlExecution(cause)),
{
}

/// Of an execution with errors come all of them, whatever was sent.
pub proof fn errors_of_an_execution_are_given<V, S, C: Clone, P: Clone>(
    response: V,
    errors: Vec<String>,
    context: Context<UserCommand<S, C, P>>,
    result: Result<ParsedZkappTransaction<S, C, P>, ParseError>,
)
    requires
        errors@.len() > 0,
    ensures
        transaction_outcome::<V, S, C, P>((Ok((response, errors)), context), result) <==> result
            == Err::<ParsedZkappTransaction<S, C, P>, ParseError>(
            ParseError::GraphqlFields(errors),
        ),
{
}

/// Of an execution without errors that sent nothing comes the error that says so, and of
/// one that sent another transaction than a zkApp command the error that says that.
pub proof fn execution_without_a_zkapp_is_refused<V, S, C: Clone, P: Clone>(
    response: V,
    errors: Vec<String>,
    signed: S,
    result: Result<ParsedZkappTransaction<S, C, P>, ParseError>,
)
    requires
        errors@.len() == 0,
    ensures
        transaction_outcome::<V, S, C, P>(
            (Ok((response, errors)), Context { result: None }),
            result,
        ) <==> result == Err::<ParsedZkappTransaction<S, C, P>, ParseError>(
            ParseError::NoTransaction,
        ),
        transaction_outcome::<V, S, C, P>(
            (
                Ok((response, errors)),
                Context { result: Some(UserCommand::SignedCommand(signed)) },
            ),
            result,
        ) <==> result == Err::<ParsedZkappTransaction<S, C, P>, ParseError>(
            ParseError::NotZkappCommand,
        ),
{
}

/// Of a zkApp command none of whose account updates carries a proof comes the error that
/// says so.
pub proof fn zkapp_without_a_proof_is_refused<V, S, C: Clone, P: Clone>(
    response: V,
    errors: Vec<String>,
    zkapp: ZkappCommand<C, P>,
    result: Result<ParsedZkappTransaction<S, C, P>, ParseError>,
)
    requires
        errors@.len() == 0,
        forall|i: int|
            0 <= i < zkapp.authorizations@.len() ==> !(#[trigger] zkapp.authorizations@[i] is Proof),
    ensures
        transaction_outcome::<V, S, C, P>(
            (
                Ok((response, errors)),
                Context { result: Some(UserCommand::ZkappCommand(zkapp)) },
            ),
            result,
        ) <==> result == Err::<ParsedZkappTransaction<S, C, P>, ParseError>(ParseError::NoProof),
{
    if let Ok(parsed) = result {
        if clones_command(zkapp, parsed.zkapp_command) {
            clone_of_a_command_keeps_every_part(zkapp, parsed.zkapp_command);
            assert(!has_proof(parsed.zkapp_command.authorizations@));
        }
    }
}

/// Of a zkApp command that carries a proof come the transaction as it was sent, a clone of
/// the command, and, as its proof, a clone of the first one in that clone. What is behind
/// the first proof, other proofs among it, plays no part in which one it is.
pub proof fn zkapp_is_taken_with_its_first_proof<V, S, C: Clone, P: Clone>(
    response: V,
    errors: Vec<String>,
    zkapp: ZkappCommand<C, P>,
    front: Seq<Control<P>>,
    proof: P,
    back: Seq<Control<P>>,
    result: Result<ParsedZkappTransaction<S, C, P>, ParseError>,
)
    requires
        errors@.len() == 0,
        zkapp.authorizations@ == front + seq![Control::Proof(proof)] + back,
        forall|i: int| 0 <= i < front.len() ==> !(#[trigger] front[i] is Proof),
        transaction_outcome::<V, S, C, P>(
            (
                Ok((response, errors)),
                Context { result: Some(UserCommand::ZkappCommand(zkapp)) },
            ),
            result,
        ),
    ensures
        result matches Ok(parsed) && {
            &&& parsed.wire_command == UserCommand::<S, C, P>::ZkappCommand(zkapp)
            &&& cloned(zkapp.command, parsed.zkapp_command.command)
            &&& parsed.zkapp_command.authorizations@.len() == zkapp.authorizations@.len()
            &&& forall|i: int|
                0 <= i < zkapp.authorizations@.len() ==> match (
                    zkapp.authorizations@[i],
                    #[trigger] parsed.zkapp_command.authorizations@[i],
                ) {
                    (Control::Proof(sent), Control::Proof(copy)) => cloned(sent, copy),
                    (Control::Signature, Control::Signature) => true,
                    (Control::NoneGiven, Control::NoneGiven) => true,
                    _ => false,
                }
            &&& parsed.zkapp_command.authorizations@[front.len() as int] matches Control::Proof(
                copy,
            ) && cloned(proof, copy) && cloned(copy, parsed.proof)
            &&& first_proof_outcome(parsed.zkapp_command, Ok(parsed.proof))
        },
{
    let all = zkapp.authorizations@;
    let at = front.len() as int;
    assert(all[at] == Control::Proof(proof));
    assert(has_proof(all));
    let parsed = result->Ok_0;
    let copies = parsed.zkapp_command.authorizations@;
    clone_of_a_command_keeps_every_part(zkapp, parsed.zkapp_command);
    assert forall|j: int| 0 <= j < at implies !(#[trigger] copies[j] is Proof) by {
        assert(all[j] == front[j]);
    }
    assert(copies[at] is Proof);
    assert(copies =~= copies.take(at) + seq![Control::Proof(copies[at]->Proof_0)] + copies.skip(
        at + 1,
    ));
    the_first_proof_is_extracted(
        parsed.zkapp_command,
        copies.take(at),
        copies[at]->Proof_0,
        copies.skip(at + 1),
        Ok(parsed.proof),
    );
}

/// A transaction comes of an execution without errors that sent a zkApp command, and of no
/// other. It is that command as it was sent, and its proof is one that can be extracted of
/// the command beside it.
pub proof fn taken_proof_is_the_one_that_is_extracted<V, S, C: Clone, P: Clone>(
    executed: Executed<V, UserCommand<S, C, P>>,
    parsed: ParsedZkappTransaction<S, C, P>,
)
    requires
        transaction_outcome(executed, Ok(parsed)),
    ensures
        executed.0 matches Ok((_, errors)) && errors@.len() == 0,
        executed.1.result == Some(parsed.wire_command),
        parsed.wire_command is ZkappCommand,
        first_proof_outcome(parsed.zkapp_command, Ok(parsed.proof)),
{
}

/// Where clones are faithful, the parts that are taken out of a sent zkApp command are its
/// own: its command, its authorizations and its first proof.
pub proof fn taken_parts_are_those_that_were_sent<V, S, C: Clone, P: Clone>(
    response: V,
    errors: Vec<String>,
    zkapp: ZkappCommand<C, P>,
    front: Seq<Control<P>>,
    proof: P,
    back: Seq<Control<P>>,
    result: Result<ParsedZkappTransaction<S, C, P>, ParseError>,
)
    requires
        forall|value: C, copy: C| #[trigger] cloned(value, copy) ==> value == copy,
        forall|value: P, copy: P| #[trigger] cloned(value, copy) ==> value == copy,
        errors@.len() == 0,
        zkapp.authorizations@ == front + seq![Control::Proof(proof)] + back,
        forall|i: int| 0 <= i < front.len() ==> !(#[trigger] front[i] is Proof),
        transaction_outcome::<V, S, C, P>(
            (
                Ok((response, errors)),
                Context { result: Some(UserCommand::ZkappCommand(zkapp)) },
            ),
            result,
        ),
    ensures
        result matches Ok(parsed) && {
            &&& parsed.wire_command == UserCommand::<S, C, P>::ZkappCommand(zkapp)
            &&& parsed.zkapp_command.command == zkapp.command
            &&& parsed.zkapp_command.authorizations@ == zkapp.authorizations@
            &&& parsed.proof == proof
        },
{
    zkapp_is_taken_with_its_first_proof::<V, S, C, P>(
        response,
        errors,
        zkapp,
        front,
        proof,
        back,
        result,
    );
    faithful_clone_has_the_same_parts(zkapp, result->Ok_0.zkapp_command);
}

/// What can come of a document is what can come of executing it, once, where nothing was
/// sent yet.
pub proof fn call_gives_what_its_execution_gives<
    V,
    S,
    C: Clone,
    P: Clone,
    F: Fn(&str, Context<UserCommand<S, C, P>>) -> Executed<V, UserCommand<S, C, P>>,
>(
    graphql_str: &str,
    execute: F,
    result: Result<ParsedZkappTransaction<S, C, P>, ParseError>,
)
    ensures
        graphql_outcome(graphql_str, execute, result) <==> exists|
            fresh: Context<UserCommand<S, C, P>>,
            executed: Executed<V, UserCommand<S, C, P>>,
        |
            fresh.result is None && #[trigger] call_ensures(
                execute,
                (graphql_str, fresh),
                executed,
            ) && transaction_outcome(executed, result),
{
}

/// A call gives the transaction that its document sends: where executing the document with
/// nothing sent yet gives no errors and leaves a zkApp command that carries a proof, the
/// call gives that command as it was sent, and a clone of a clone of its first proof.
pub proof fn call_gives_the_zkapp_that_is_sent<
    V,
    S,
    C: Clone,
    P: Clone,
    F: Fn(&str, Context<UserCommand<S, C, P>>) -> Executed<V, UserCommand<S, C, P>>,
>(
    graphql_str: &str,
    execute: F,
    zkapp: ZkappCommand<C, P>,
    front: Seq<Control<P>>,
    proof: P,
    back: Seq<Control<P>>,
    result: Result<ParsedZkappTransaction<S, C, P>, ParseError>,
)
    requires
        zkapp.authorizations@ == front + seq![Control::Proof(proof)] + back,
        forall|i: int| 0 <= i < front.len() ==> !(#[trigger] front[i] is Proof),
        forall|
            fresh: Context<UserCommand<S, C, P>>,
            executed: Executed<V, UserCommand<S, C, P>>,
        |
            fresh.result is None && #[trigger] call_ensures(
                execute,
                (graphql_str, fresh),
                executed,
            ) ==> {
                &&& executed.0 matches Ok((_, errors)) && errors@.len() == 0
                &&& executed.1.result == Some(UserCommand::<S, C, P>::ZkappCommand(zkapp))
            },
        graphql_outcome(graphql_str, execute, result),
    ensures
        result matches Ok(parsed) && {
            &&& parsed.wire_command == UserCommand::<S, C, P>::ZkappCommand(zkapp)
            &&& cloned(zkapp.command, parsed.zkapp_command.command)
            &&& parsed.zkapp_command.authorizations@.len() == zkapp.authorizations@.len()
            &&& parsed.zkapp_command.authorizations@[front.len() as int] matches Control::Proof(
                copy,
            ) && cloned(proof, copy) && cloned(copy, parsed.proof)
        },
{
    let (fresh, executed) = choose|
        fresh: Context<UserCommand<S, C, P>>,
        executed: Executed<V, UserCommand<S, C, P>>,
    |
        fresh.result is None && #[trigger] call_ensures(execute, (graphql_str, fresh), executed)
            && transaction_outcome(executed, result);
    let (response, errors) = executed.0->Ok_0;
    assert(executed == (
        Ok::<(V, Vec<String>), String>((response, errors)),
        Context { result: Some(UserCommand::<S, C, P>::ZkappCommand(zkapp)) },
    ));
    zkapp_is_taken_with_its_first_proof::<V, S, C, P>(
        response,
        errors,
        zkapp,
        front,
        proof,
        back,
        result,
    );
}

/// The queries of the schema: a schema has to have one.
pub struct Query;

impl Query {
    pub fn dummy() -> (answer: bool)
        ensures
            answer,
    {
        true
    }
}

/// The mutations of the schema.
pub struct Mutation;

impl Mutation {
    /// Sends a transaction: keeps a clone of it in `context`, and answers with what
    /// `respond` makes of it. `converted` is the transaction that the mutation's input
    /// was converted to; where that failed, nothing is kept.
    pub fn send_zkapp<W: Clone, R, E, F: Fn(W) -> Result<R, E>>(
        context: &mut Context<W>,
        converted: Result<W, E>,
        respond: F,
    ) -> (result: Result<R, E>)
        requires
            converted matches Ok(wire) ==> call_requires(respond, (wire,)),
        ensures
            match converted {
                Err(e) => *final(context) == *old(context) && result == Err::<R, E>(e),
                Ok(wire) => {
                    &&& final(context).result matches Some(kept) && cloned(wire, kept)
                    &&& call_ensures(respond, (wire,), result)
                },
            },
    {
        match converted {
            Err(e) => Err(e),
            Ok(wire) => {
                context.result = Some(wire.clone());
                respond(wire)
            },
        }
    }
}

} // verus!
