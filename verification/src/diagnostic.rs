//! What the parser reports when the tokens are not what the grammar asks for.

use vstd::prelude::*;
use vstd::string::StringExecFns;
use crate::lex::Token;
use crate::lex::TokenView;

verus! {

/// The five kinds of error that the parser tells apart.
#[derive(Debug, Clone, Copy, PartialEq, Eq, Structural)]
pub enum ErrorKind {
    UnexpectedTopLevel,
    MalformedFunctionHeader,
    MalformedStatement,
    MalformedExpression,
    UnknownDataType,
}

/// What exactly was wrong.
#[derive(Debug, Clone, Copy, PartialEq, Eq, Structural)]
pub enum Problem {
    /// A token other than `func` where a declaration should start.
    UnknownGlobalToken,
    ExpectedFunctionName,
    ExpectedArgumentColon,
    ExpectedArgumentName,
    /// Neither `,` nor `)` behind a parameter.
    ExpectedArgumentEnd,
    ExpectedIs,
    ExpectedStructVariableName,
    ExpectedStructColon,
    ExpectedStructName,
    ExpectedStructItemName,
    ExpectedStructItemColon,
    /// No member name behind the `.` of a member access.
    ExpectedItemName,
    /// No `;` behind `break` or `continue`.
    ExpectedTerminator,
    /// No `;` behind the `]` of an array declaration.
    ExpectedDeclarationEnd,
    InvalidStatementToken,
    ExpectedVariableName,
    ExpectedColon,
    ExpectedAssign,
    InvalidExpressionToken,
    /// An operator or a `,` that found no operand to take.
    MissingOperand,
    UnknownDataType,
}

impl Problem {
    /// The kind of error that a problem belongs to.
    pub open spec fn spec_kind(self) -> ErrorKind {
        match self {
            Problem::UnknownGlobalToken => ErrorKind::UnexpectedTopLevel,
            Problem::ExpectedFunctionName
            | Problem::ExpectedArgumentColon
            | Problem::ExpectedArgumentName
            | Problem::ExpectedArgumentEnd
            | Problem::ExpectedIs => ErrorKind::MalformedFunctionHeader,
            Problem::ExpectedStructVariableName
            | Problem::ExpectedStructColon
            | Problem::ExpectedStructName
            | Problem::ExpectedStructItemName
            | Problem::ExpectedStructItemColon
            | Problem::ExpectedTerminator
            | Problem::ExpectedDeclarationEnd
            | Problem::InvalidStatementToken
            | Problem::ExpectedVariableName
            | Problem::ExpectedColon
            | Problem::ExpectedAssign => ErrorKind::MalformedStatement,
            Problem::ExpectedItemName
            | Problem::InvalidExpressionToken
            | Problem::MissingOperand => ErrorKind::MalformedExpression,
            Problem::UnknownDataType => ErrorKind::UnknownDataType,
        }
    }

    #[verifier::when_used_as_spec(spec_kind)]
    pub fn kind(self) -> (kind: ErrorKind)
        ensures
            kind == self.spec_kind(),
    {
        match self {
            Problem::UnknownGlobalToken => ErrorKind::UnexpectedTopLevel,
            Problem::ExpectedFunctionName
            | Problem::ExpectedArgumentColon
            | Problem::ExpectedArgumentName
            | Problem::ExpectedArgumentEnd
            | Problem::ExpectedIs => ErrorKind::MalformedFunctionHeader,
            Problem::ExpectedStructVariableName
            | Problem::ExpectedStructColon
            | Problem::ExpectedStructName
            | Problem::ExpectedStructItemName
            | Problem::ExpectedStructItemColon
            | Problem::ExpectedTerminator
            | Problem::ExpectedDeclarationEnd
            | Problem::InvalidStatementToken
            | Problem::ExpectedVariableName
            | Problem::ExpectedColon
            | Problem::ExpectedAssign => ErrorKind::MalformedStatement,
            Problem::ExpectedItemName
            | Problem::InvalidExpressionToken
            | Problem::MissingOperand => ErrorKind::MalformedExpression,
            Problem::UnknownDataType => ErrorKind::UnknownDataType,
        }
    }

    /// The line that tells a reader of the problem.
    pub open spec fn spec_message(self) -> Seq<char> {
        match self {
            Problem::UnknownGlobalToken => "Error: Unknown token in global scope."@,
            Problem::ExpectedFunctionName => "Error: Expected function name."@,
            Problem::ExpectedArgumentColon => "Error: Expected colon in function argument."@,
            Problem::ExpectedArgumentName => "Error: Expected argument name."@,
            Problem::ExpectedArgumentEnd => "Error: Expected \',\' or \'(\' after argument."@,
            Problem::ExpectedIs => "Error: Expected \"is\"."@,
            Problem::ExpectedStructVariableName => "Error: Expected variable name in structure declaration."@,
            Problem::ExpectedStructColon => "Error: Expected \':\' between structure variable name and structure name."@,
            Problem::ExpectedStructName => "Error: Expected structure name."@,
            Problem::ExpectedStructItemName => "Error: Expected item name."@,
            Problem::ExpectedStructItemColon => "Error: Expected \':\' in structure item."@,
            Problem::ExpectedItemName => "Error: Expected item name in structure access."@,
            Problem::ExpectedTerminator => "Error: Expected terminator."@,
            Problem::ExpectedDeclarationEnd => "Error: Expected terminator."@,
            Problem::InvalidStatementToken => "Error: Invalid token statement."@,
            Problem::ExpectedVariableName => "Error: Expected name in variable declaration."@,
            Problem::ExpectedColon => "Error: Expected colon."@,
            Problem::ExpectedAssign => "Error: Expected assignment operator."@,
            Problem::InvalidExpressionToken => "Error: Invalid token in expression."@,
            Problem::MissingOperand => "Error: Missing operand in expression."@,
            Problem::UnknownDataType => "Error: Unknown data type token."@,
        }
    }

    pub fn message(self) -> (text: String)
        ensures
            text@ == self.spec_message(),
    {
        match self {
            Problem::UnknownGlobalToken => String::from_str("Error: Unknown token in global scope."),
            Problem::ExpectedFunctionName => String::from_str("Error: Expected function name."),
            Problem::ExpectedArgumentColon => String::from_str(
                "Error: Expected colon in function argument.",
            ),
            Problem::ExpectedArgumentName => String::from_str("Error: Expected argument name."),
            Problem::ExpectedArgumentEnd => String::from_str(
                "Error: Expected \',\' or \'(\' after argument.",
            ),
            Problem::ExpectedIs => String::from_str("Error: Expected \"is\"."),
            Problem::ExpectedStructVariableName => String::from_str(
                "Error: Expected variable name in structure declaration.",
            ),
            Problem::ExpectedStructColon => String::from_str(
                "Error: Expected \':\' between structure variable name and structure name.",
            ),
            Problem::ExpectedStructName => String::from_str("Error: Expected structure name."),
            Problem::ExpectedStructItemName => String::from_str("Error: Expected item name."),
            Problem::ExpectedStructItemColon => String::from_str(
                "Error: Expected \':\' in structure item.",
            ),
            Problem::ExpectedItemName => String::from_str(
                "Error: Expected item name in structure access.",
            ),
            Problem::ExpectedTerminator => String::from_str("Error: Expected terminator."),
            Problem::ExpectedDeclarationEnd => String::from_str("Error: Expected terminator."),
            Problem::InvalidStatementToken => String::from_str("Error: Invalid token statement."),
            Problem::ExpectedVariableName => String::from_str(
                "Error: Expected name in variable declaration.",
            ),
            Problem::ExpectedColon => String::from_str("Error: Expected colon."),
            Problem::ExpectedAssign => String::from_str("Error: Expected assignment operator."),
            Problem::InvalidExpressionToken => String::from_str(
                "Error: Invalid token in expression.",
            ),
            Problem::MissingOperand => String::from_str("Error: Missing operand in expression."),
            Problem::UnknownDataType => String::from_str("Error: Unknown data type token."),
        }
    }

    /// What stands before the token where the report shows it.
    pub open spec fn spec_token_lead(self) -> Seq<char> {
        match self {
            Problem::UnknownGlobalToken => "-> "@,
            Problem::ExpectedArgumentColon => " -> "@,
            _ => ""@,
        }
    }

    pub fn token_lead(self) -> (text: String)
        ensures
            text@ == self.spec_token_lead(),
    {
        match self {
            Problem::UnknownGlobalToken => String::from_str("-> "),
            Problem::ExpectedArgumentColon => String::from_str(" -> "),
            _ => String::from_str(""),
        }
    }

    /// Whether the report of the problem shows the token that it was found at.
    pub open spec fn spec_shows_token(self) -> bool {
        matches!(
            self,
            Problem::UnknownGlobalToken | Problem::ExpectedArgumentColon
                | Problem::ExpectedTerminator | Problem::InvalidStatementToken
                | Problem::InvalidExpressionToken | Problem::UnknownDataType
        )
    }

    #[verifier::when_used_as_spec(spec_shows_token)]
    pub fn shows_token(self) -> (res: bool)
        ensures
            res == self.spec_shows_token(),
    {
        matches!(
            self,
            Problem::UnknownGlobalToken | Problem::ExpectedArgumentColon
                | Problem::ExpectedTerminator | Problem::InvalidStatementToken
                | Problem::InvalidExpressionToken | Problem::UnknownDataType
        )
    }
}

/// One report: the problem and the token that it was found at (`Unknown`
/// where it was found at none).
pub struct Diagnostic {
    problem: Problem,
    token: Token,
}

/// What a report is.
pub struct DiagnosticView {
    pub problem: Problem,
    pub token: TokenView,
}

impl View for Diagnostic {
    type V = DiagnosticView;

    closed spec fn view(&self) -> DiagnosticView {
        DiagnosticView { problem: self.problem, token: self.token@ }
    }
}

/// The values of a sequence of reports.
pub open spec fn diagnostic_views(reports: Seq<Diagnostic>) -> Seq<DiagnosticView> {
    Seq::new(reports.len(), |i: int| reports[i]@)
}

/// Pushing a report onto a vector pushes its value onto the vector's values.
pub proof fn lemma_diagnostic_views_push(reports: Seq<Diagnostic>, report: Diagnostic)
    ensures
        diagnostic_views(reports.push(report)) == diagnostic_views(reports).push(report@),
{
    assert(diagnostic_views(reports.push(report)) =~= diagnostic_views(reports).push(report@));
}

impl Clone for Diagnostic {
    fn clone(&self) -> (res: Self)
        ensures
            res@ == self@,
    {
        Diagnostic { problem: self.problem, token: self.token.clone() }
    }
}

impl Diagnostic {
    pub fn new(problem: Problem, token: Token) -> (report: Diagnostic)
        ensures
            report@ == (DiagnosticView { problem, token: token@ }),
    {
        Diagnostic { problem, token }
    }

    pub fn get_problem(&self) -> (problem: Problem)
        ensures
            problem == self@.problem,
    {
        self.problem
    }

    pub fn get_token(&self) -> (token: &Token)
        ensures
            token@ == self@.token,
    {
        &self.token
    }

    pub fn get_kind(&self) -> (kind: ErrorKind)
        ensures
            kind == self@.problem.spec_kind(),
    {
        self.problem.kind()
    }

    pub fn get_message(&self) -> (text: String)
        ensures
            text@ == self@.problem.spec_message(),
    {
        self.problem.message()
    }
}

} // verus!
