//! What can go wrong, and how it is told.
use vstd::prelude::*;

verus! {

/// Why a text is not base64.
#[derive(Debug, PartialEq, Eq, Clone, Copy, Structural)]
pub enum Base64Error {
    /// A byte that cannot stand where it stands: its offset, and the byte.
    InvalidByte(usize, u8),
    /// A length that no encoding has, counted in symbols.
    InvalidLength(usize),
    /// A last symbol with bits set that no byte takes up: its offset, and the symbol.
    InvalidLastSymbol(usize, u8),
    /// Padding that is missing or of the wrong length.
    InvalidPadding,
}

/// Why bytes are not an S-expression.
#[derive(Debug, PartialEq, Eq, Clone, Copy, Structural)]
pub enum SexpError {
    /// A byte that an atom without quotes cannot hold where it stands.
    UnexpectedCharInString(u8),
    /// The bytes end inside quotes.
    UnexpectedEofInString,
    /// A list is not closed, or something follows the expression.
    UnexpectedEof,
    /// Nothing stands where an expression should.
    EmptyAtom,
}

/// Why no proof, or no transaction, was read.
#[derive(Debug, PartialEq, Eq)]
pub enum ParseError {
    /// The JSON does not hold an o1js proof; what the JSON reader says of it.
    Json(String),
    /// The proof's text is not base64.
    Base64(Base64Error),
    /// The proof's bytes are not an S-expression.
    Sexp(SexpError),
    /// No list of challenges was found to pad.
    NoChallenges,
    /// The S-expression does not hold a proof; what the decoder says of it.
    ProofDecode(String),
    /// The GraphQL document was not executed; what the executor says of it.
    GraphqlExecution(String),
    /// The GraphQL document was executed with errors; what is said of each.
    GraphqlFields(Vec<String>),
    /// The GraphQL document sent no transaction.
    NoTransaction,
    /// The transaction is not a zkApp command.
    NotZkappCommand,
    /// No account update is authorized by a proof.
    NoProof,
}

/// The decimal digit for a number below ten.
pub open spec fn digit(value: nat) -> char {
    ('0' as int + value) as char
}

/// A number in decimal.
pub open spec fn decimal(value: nat) -> Seq<char>
    decreases value,
{
    if value < 10 {
        seq![digit(value)]
    } else {
        decimal(value / 10).push(digit(value % 10))
    }
}

/// The texts of a row, separated by a comma and a blank.
pub open spec fn comma_separated(texts: Seq<String>) -> Seq<char>
    decreases texts.len(),
{
    if texts.len() == 0 {
        Seq::empty()
    } else if texts.len() == 1 {
        texts[0]@
    } else {
        comma_separated(texts.drop_last()) + ", "@ + texts.last()@
    }
}

/// What is said of a text that is not base64.
pub open spec fn base64_error_text(e: Base64Error) -> Seq<char> {
    match e {
        Base64Error::InvalidByte(offset, byte) => "InvalidByte("@ + decimal(offset as nat) + ", "@
            + decimal(byte as nat) + ")"@,
        Base64Error::InvalidLength(length) => "InvalidLength("@ + decimal(length as nat) + ")"@,
        Base64Error::InvalidLastSymbol(offset, symbol) => "InvalidLastSymbol("@ + decimal(
            offset as nat,
        ) + ", "@ + decimal(symbol as nat) + ")"@,
        Base64Error::InvalidPadding => "InvalidPadding"@,
    }
}

/// What is said of bytes that are not an S-expression.
pub open spec fn sexp_error_text(e: SexpError) -> Seq<char> {
    match e {
        SexpError::UnexpectedCharInString(c) => "UnexpectedCharInString("@ + decimal(c as nat)
            + ")"@,
        SexpError::UnexpectedEofInString => "UnexpectedEofInString"@,
        SexpError::UnexpectedEof => "UnexpectedEof"@,
        SexpError::EmptyAtom => "EmptyAtom"@,
    }
}

/// What is said of an error.
pub open spec fn error_text(e: ParseError) -> Seq<char> {
    match e {
        ParseError::Json(cause) => "JSON parse: "@ + cause@,
        ParseError::Base64(cause) => "base64 decode proof: "@ + base64_error_text(cause),
        ParseError::Sexp(cause) => "parse proof S-exp: "@ + sexp_error_text(cause),
        ParseError::NoChallenges => "Could not find old_bulletproof_challenges to pad"@,
        ParseError::ProofDecode(cause) => "S-exp -> proof decode: "@ + cause@,
        ParseError::GraphqlExecution(cause) => "GraphQL execution error: "@ + cause@,
        ParseError::GraphqlFields(causes) => "GraphQL field errors: ["@ + comma_separated(causes@)
            + "]"@,
        ParseError::NoTransaction => "No transaction was parsed from the GraphQL mutation"@,
        ParseError::NotZkappCommand => "Expected ZkappCommand variant"@,
        ParseError::NoProof => "No proof found in any account update authorization"@,
    }
}

/// The number that a row of decimal digits stands for.
pub open spec fn decimal_value(text: Seq<char>) -> int
    decreases text.len(),
{
    if text.len() == 0 {
        0
    } else {
        10 * decimal_value(text.drop_last()) + (text.last() as int - '0' as int)
    }
}

/// A number in decimal is made of digits that stand for it, and starts with no zero but
/// where it is zero.
pub proof fn decimal_stands_for_its_number(value: nat)
    ensures
        decimal(value).len() > 0,
        forall|i: int| 0 <= i < decimal(value).len() ==> '0' <= #[trigger] decimal(value)[i] <= '9',
        decimal_value(decimal(value)) == value,
        decimal(value)[0] == '0' ==> value == 0 && decimal(value).len() == 1,
    decreases value,
{
    if value < 10 {
        let text = seq![digit(value)];
        assert(text.drop_last() =~= Seq::empty());
        assert(decimal_value(text.drop_last()) == 0);
        assert(decimal(value) == text);
    } else {
        let front = decimal(value / 10);
        decimal_stands_for_its_number(value / 10);
        assert(decimal(value).drop_last() =~= front);
    }
}

/// The texts of a row come in their order, with a comma and a blank between two.
pub proof fn texts_are_separated_in_their_order(first: String, rest: Seq<String>)
    ensures
        comma_separated(seq![first]) == first@,
        rest.len() > 0 ==> comma_separated(seq![first] + rest) == first@ + ", "@ + comma_separated(
            rest,
        ),
    decreases rest.len(),
{
    if rest.len() > 0 {
        let whole = seq![first] + rest;
        assert(whole.drop_last() =~= seq![first] + rest.drop_last());
        assert(whole.last() == rest.last());
        assert(comma_separated(whole) == comma_separated(whole.drop_last()) + ", "@
            + rest.last()@);
        if rest.len() > 1 {
            texts_are_separated_in_their_order(first, rest.drop_last());
            assert(comma_separated(rest) == comma_separated(rest.drop_last()) + ", "@
                + rest.last()@);
        } else {
            assert(whole.drop_last() =~= seq![first]);
            assert(comma_separated(seq![first]) == first@);
            assert(comma_separated(rest) == rest.last()@);
        }
        assert(comma_separated(whole) =~= first@ + ", "@ + comma_separated(rest));
    }
}

/// What is said of an error names the step that failed, and ends with what the step says of
/// its cause, where it says anything.
pub proof fn step_and_cause_are_told(cause: String, causes: Vec<String>)
    ensures
        error_text(ParseError::Json(cause)) == "JSON parse: "@ + cause@,
        error_text(ParseError::ProofDecode(cause)) == "S-exp -> proof decode: "@ + cause@,
        error_text(ParseError::GraphqlExecution(cause)) == "GraphQL execution error: "@ + cause@,
        error_text(ParseError::GraphqlFields(causes)) == "GraphQL field errors: ["@
            + comma_separated(causes@) + "]"@,
        error_text(ParseError::NoChallenges)
            == "Could not find old_bulletproof_challenges to pad"@,
        error_text(ParseError::NoTransaction)
            == "No transaction was parsed from the GraphQL mutation"@,
        error_text(ParseError::NotZkappCommand) == "Expected ZkappCommand variant"@,
        error_text(ParseError::NoProof) == "No proof found in any account update authorization"@,
{
}

/// What is said of a text or of bytes that cannot be read names the step that failed, the
/// error, and its numbers in decimal, in their order.
pub proof fn errors_of_reading_are_told(offset: usize, byte: u8)
    ensures
        error_text(ParseError::Base64(Base64Error::InvalidByte(offset, byte)))
            == "base64 decode proof: "@ + ("InvalidByte("@ + decimal(offset as nat) + ", "@
            + decimal(byte as nat) + ")"@),
        error_text(ParseError::Base64(Base64Error::InvalidLength(offset)))
            == "base64 decode proof: "@ + ("InvalidLength("@ + decimal(offset as nat) + ")"@),
        error_text(ParseError::Base64(Base64Error::InvalidLastSymbol(offset, byte)))
            == "base64 decode proof: "@ + ("InvalidLastSymbol("@ + decimal(offset as nat) + ", "@
            + decimal(byte as nat) + ")"@),
        error_text(ParseError::Base64(Base64Error::InvalidPadding)) == "base64 decode proof: "@
            + "InvalidPadding"@,
        error_text(ParseError::Sexp(SexpError::UnexpectedCharInString(byte)))
            == "parse proof S-exp: "@ + ("UnexpectedCharInString("@ + decimal(byte as nat) + ")"@),
        error_text(ParseError::Sexp(SexpError::UnexpectedEofInString)) == "parse proof S-exp: "@
            + "UnexpectedEofInString"@,
        error_text(ParseError::Sexp(SexpError::UnexpectedEof)) == "parse proof S-exp: "@
            + "UnexpectedEof"@,
        error_text(ParseError::Sexp(SexpError::EmptyAtom)) == "parse proof S-exp: "@
            + "EmptyAtom"@,
{
}

fn digit_text(value: usize) -> (text: &'static str)
    requires
        value < 10,
    ensures
        text@ == seq![digit(value as nat)],
{
    proof {
        reveal_strlit("0");
        reveal_strlit("1");
        reveal_strlit("2");
        reveal_strlit("3");
        reveal_strlit("4");
        reveal_strlit("5");
        reveal_strlit("6");
        reveal_strlit("7");
        reveal_strlit("8");
        reveal_strlit("9");
    }
    match value {
        0 => "0",
        1 => "1",
        2 => "2",
        3 => "3",
        4 => "4",
        5 => "5",
        6 => "6",
        7 => "7",
        8 => "8",
        _ => "9",
    }
}

fn append_decimal(out: &mut String, value: usize)
    ensures
        final(out)@ == old(out)@ + decimal(value as nat),
    decreases value,
{
    if value >= 10 {
        append_decimal(out, value / 10);
    }
    out.append(digit_text(value % 10));
}

fn append_comma_separated(out: &mut String, texts: &Vec<String>)
    ensures
        final(out)@ == old(out)@ + comma_separated(texts@),
{
    let mut i: usize = 0;
    while i < texts.len()
        invariant
            i <= texts.len(),
            out@ == old(out)@ + comma_separated(texts@.take(i as int)),
        decreases texts.len() - i,
    {
        if i > 0 {
            out.append(", ");
        }
        out.append(texts[i].as_str());
        assert(texts@.take(i + 1).drop_last() =~= texts@.take(i as int));
        i += 1;
    }
    assert(texts@.take(i as int) =~= texts@);
}

impl Base64Error {
    fn append_to(&self, out: &mut String)
        ensures
            final(out)@ == old(out)@ + base64_error_text(*self),
    {
        match self {
            Base64Error::InvalidByte(offset, byte) => {
                out.append("InvalidByte(");
                append_decimal(out, *offset);
                out.append(", ");
                append_decimal(out, *byte as usize);
                out.append(")");
            },
            Base64Error::InvalidLength(length) => {
                out.append("InvalidLength(");
                append_decimal(out, *length);
                out.append(")");
            },
            Base64Error::InvalidLastSymbol(offset, symbol) => {
                out.append("InvalidLastSymbol(");
                append_decimal(out, *offset);
                out.append(", ");
                append_decimal(out, *symbol as usize);
                out.append(")");
            },
            Base64Error::InvalidPadding => {
                out.append("InvalidPadding");
            },
        }
        assert(out@ =~= old(out)@ + base64_error_text(*self));
    }
}

impl SexpError {
    fn append_to(&self, out: &mut String)
        ensures
            final(out)@ == old(out)@ + sexp_error_text(*self),
    {
        match self {
            SexpError::UnexpectedCharInString(c) => {
                out.append("UnexpectedCharInString(");
                append_decimal(out, *c as usize);
                out.append(")");
            },
            SexpError::UnexpectedEofInString => {
                out.append("UnexpectedEofInString");
            },
            SexpError::UnexpectedEof => {
                out.append("UnexpectedEof");
            },
            SexpError::EmptyAtom => {
                out.append("EmptyAtom");
            },
        }
        assert(out@ =~= old(out)@ + sexp_error_text(*self));
    }
}

impl ParseError {
    /// What is said of the error.
    pub fn message(&self) -> (text: String)
        ensures
            text@ == error_text(*self),
    {
        let mut out = String::new();
        match self {
            ParseError::Json(cause) => {
                out.append("JSON parse: ");
                out.append(cause.as_str());
            },
            ParseError::Base64(cause) => {
                out.append("base64 decode proof: ");
                cause.append_to(&mut out);
            },
            ParseError::Sexp(cause) => {
                out.append("parse proof S-exp: ");
                cause.append_to(&mut out);
            },
            ParseError::NoChallenges => {
                out.append("Could not find old_bulletproof_challenges to pad");
            },
            ParseError::ProofDecode(cause) => {
                out.append("S-exp -> proof decode: ");
                out.append(cause.as_str());
            },
            ParseError::GraphqlExecution(cause) => {
                out.append("GraphQL execution error: ");
                out.append(cause.as_str());
            },
            ParseError::GraphqlFields(causes) => {
                out.append("GraphQL field errors: [");
                append_comma_separated(&mut out, causes);
                out.append("]");
            },
            ParseError::NoTransaction => {
                out.append("No transaction was parsed from the GraphQL mutation");
            },
            ParseError::NotZkappCommand => {
                out.append("Expected ZkappCommand variant");
            },
            ParseError::NoProof => {
                out.append("No proof found in any account update authorization");
            },
        }
        assert(out@ =~= error_text(*self));
        out
    }
}

} // verus!
