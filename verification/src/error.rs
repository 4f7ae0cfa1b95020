use vstd::prelude::*;
use vstd::string::*;
use crate::text::decimal_u64;
use crate::text::spec_decimal;

verus! {

/// Error of the whole pipeline: parsing, elaboration, type checking,
/// unification and evaluation. Each variant renders a canned message
/// (see [`LofError::message`]) from the arguments of its constructor.
#[derive(Debug)]
pub enum LofError {
    UnboundName { kind: String, name: String },
    TypeMismatch { context: String, expected: String, found: String },
    TypeCheckError(String),
    ArityMismatch { context: String, expected: usize, found: usize },
    UnificationFailure { term1: String, term2: String },
    OccursCheckCyclic { subject: String },
    OccursCheckInTerm { variable: String, term: String },
    ConflictingSubstitution { variable: String, term1: String, term2: String },
    UnsupportedConstruct { theory: String, construct: String },
    InvalidAstNode { expected: String, found: String },
    ReservedKeyword(String),
    Nom { kind: String, remaining: String },
    IncompleteInput(String),
    LeftoverInput { filepath: String, remaining: String },
    Io(String),
    Yaml(String),
    InvalidConfigValue { field: String, value: String, allowed: String },
    Aggregate(String),
    Unsupported(String),
    Other(String),
}

/// The message a [`LofError`] renders to.
pub open spec fn spec_message(e: LofError) -> Seq<char> {
    match e {
        LofError::UnboundName { kind, name } => "Unbound "@ + kind@ + ": "@ + name@,
        LofError::TypeMismatch { context, expected, found } =>
            "Type mismatch in "@ + context@ + ": expected "@ + expected@ + ", found "@ + found@,
        LofError::TypeCheckError(s) => "Type check error: "@ + s@,
        LofError::ArityMismatch { context, expected, found } =>
            "Arity mismatch in "@ + context@ + ": expected "@ + spec_decimal(expected as nat)
                + " argument(s), found "@ + spec_decimal(found as nat),
        LofError::UnificationFailure { term1, term2 } =>
            "Unification error: "@ + term1@ + " and "@ + term2@ + " do not unify"@,
        LofError::OccursCheckCyclic { subject } =>
            "Occurs check failed: "@ + subject@ + " contains a cyclical reference to itself"@,
        LofError::OccursCheckInTerm { variable, term } =>
            "Occurs check failed: variable "@ + variable@ + " occurs in substitution body "@ + term@,
        LofError::ConflictingSubstitution { variable, term1, term2 } =>
            "Conflicting substitution for variable "@ + variable@ + ": "@ + term1@ + " vs "@ + term2@,
        LofError::UnsupportedConstruct { theory, construct } =>
            construct@ + " is not supported in "@ + theory@,
        LofError::InvalidAstNode { expected, found } =>
            "Expected "@ + expected@ + " AST node, found "@ + found@,
        LofError::ReservedKeyword(w) =>
            "'"@ + w@ + "' is a reserved keyword and cannot be used as an identifier"@,
        LofError::Nom { kind, remaining } => "Parse error ("@ + kind@ + ") near: "@ + remaining@,
        LofError::IncompleteInput(s) => "Parser needs more input: "@ + s@,
        LofError::LeftoverInput { filepath, remaining } =>
            "Error parsing file '"@ + filepath@ + "'. Unparsed remainder starting at: "@ + remaining@,
        LofError::Io(s) => "I/O error: "@ + s@,
        LofError::Yaml(s) => "Failed to parse config file: "@ + s@,
        LofError::InvalidConfigValue { field, value, allowed } =>
            "Invalid value '"@ + value@ + "' for config field '"@ + field@ + "'. Must be one of: "@ + allowed@,
        LofError::Aggregate(s) => s@,
        LofError::Unsupported(s) => s@,
        LofError::Other(s) => s@,
    }
}

/// The messages of `errors`, one per line.
pub open spec fn spec_join_messages(errors: Seq<LofError>) -> Seq<char>
    decreases errors.len(),
{
    if errors.len() == 0 {
        Seq::empty()
    } else if errors.len() == 1 {
        spec_message(errors[0])
    } else {
        spec_join_messages(errors.drop_last()) + "\n"@ + spec_message(errors.last())
    }
}

/// At most the first sixty characters of `input`, followed by `…` when cut.
pub open spec fn spec_excerpt(input: Seq<char>) -> Seq<char> {
    if input.len() <= 60 { input } else { input.subrange(0, 60) + "…"@ }
}

/// At most the first sixty characters of `input`, followed by `…` when cut.
fn excerpt(input: &str) -> (r: String)
    ensures
        r@ == spec_excerpt(input@),
{
    let n = input.unicode_len();
    if n <= 60 {
        String::from_str(input)
    } else {
        let mut s = String::from_str(input.substring_char(0, 60));
        s.append("…");
        s
    }
}

impl LofError {
    pub open spec fn is_invalid_config_value(&self, field: Seq<char>, value: Seq<char>, allowed: Seq<char>) -> bool {
        self matches LofError::InvalidConfigValue { field: f, value: v, allowed: a } && f@ == field && v@ == value
            && a@ == allowed
    }

    /// `name` is not bound as a variable.
    pub fn unbound_variable(name: &str) -> (r: Self)
        ensures
            r matches LofError::UnboundName { kind, name: n } && kind@ == "variable"@ && n@ == name@,
    {
        LofError::UnboundName { kind: String::from_str("variable"), name: String::from_str(name) }
    }

    /// `name` is not bound as a predicate.
    pub fn unbound_predicate(name: &str) -> (r: Self)
        ensures
            r matches LofError::UnboundName { kind, name: n } && kind@ == "predicate"@ && n@ == name@,
    {
        LofError::UnboundName { kind: String::from_str("predicate"), name: String::from_str(name) }
    }

    /// In `context`, `found` was met where `expected` was required.
    pub fn type_mismatch(context: &str, expected: &str, found: &str) -> (r: Self)
        ensures
            r matches LofError::TypeMismatch { context: c, expected: e, found: f }
                && c@ == context@ && e@ == expected@ && f@ == found@,
    {
        LofError::TypeMismatch {
            context: String::from_str(context),
            expected: String::from_str(expected),
            found: String::from_str(found),
        }
    }

    /// The rendered `term` does not type check.
    pub fn type_check_error(term: &str) -> (r: Self)
        ensures
            r matches LofError::TypeCheckError(t) && t@ == term@,
    {
        LofError::TypeCheckError(String::from_str(term))
    }

    /// In `context`, `found` arguments were given where `expected` were required.
    pub fn arity_mismatch(context: &str, expected: usize, found: usize) -> (r: Self)
        ensures
            r matches LofError::ArityMismatch { context: c, expected: e, found: f }
                && c@ == context@ && e == expected && f == found,
    {
        LofError::ArityMismatch { context: String::from_str(context), expected, found }
    }

    /// The rendered terms `term1` and `term2` do not unify.
    pub fn unification_failure(term1: &str, term2: &str) -> (r: Self)
        ensures
            r matches LofError::UnificationFailure { term1: a, term2: b } && a@ == term1@ && b@ == term2@,
    {
        LofError::UnificationFailure { term1: String::from_str(term1), term2: String::from_str(term2) }
    }

    /// `subject` refers to itself through the substitution.
    pub fn occurs_check_cyclic(subject: &str) -> (r: Self)
        ensures
            r matches LofError::OccursCheckCyclic { subject: s } && s@ == subject@,
    {
        LofError::OccursCheckCyclic { subject: String::from_str(subject) }
    }

    /// `variable` occurs in the rendered term it would be bound to.
    pub fn occurs_check_in_term(variable: &str, term: &str) -> (r: Self)
        ensures
            r matches LofError::OccursCheckInTerm { variable: v, term: t } && v@ == variable@ && t@ == term@,
    {
        LofError::OccursCheckInTerm { variable: String::from_str(variable), term: String::from_str(term) }
    }

    /// `variable` is bound to two different rendered terms.
    pub fn conflicting_substitution(variable: &str, term1: &str, term2: &str) -> (r: Self)
        ensures
            r matches LofError::ConflictingSubstitution { variable: v, term1: a, term2: b }
                && v@ == variable@ && a@ == term1@ && b@ == term2@,
    {
        LofError::ConflictingSubstitution {
            variable: String::from_str(variable),
            term1: String::from_str(term1),
            term2: String::from_str(term2),
        }
    }

    /// The rendered `construct` has no meaning in `theory`.
    pub fn unsupported_construct(theory: &str, construct: &str) -> (r: Self)
        ensures
            r matches LofError::UnsupportedConstruct { theory: t, construct: c } && t@ == theory@ && c@ == construct@,
    {
        LofError::UnsupportedConstruct { theory: String::from_str(theory), construct: String::from_str(construct) }
    }

    /// An AST node `found` stands where a node of kind `expected` was required.
    pub fn invalid_ast_node(expected: &str, found: &str) -> (r: Self)
        ensures
            r matches LofError::InvalidAstNode { expected: e, found: f } && e@ == expected@ && f@ == found@,
    {
        LofError::InvalidAstNode { expected: String::from_str(expected), found: String::from_str(found) }
    }

    /// `word` is reserved and cannot name anything.
    pub fn reserved_keyword(word: &str) -> (r: Self)
        ensures
            r matches LofError::ReservedKeyword(w) && w@ == word@,
    {
        LofError::ReservedKeyword(String::from_str(word))
    }

    /// The parser failed with `kind` on `input`; the message keeps an excerpt of it.
    pub fn parse_error(input: &str, kind: &str) -> (r: Self)
        ensures
            r matches LofError::Nom { kind: k, remaining } && k@ == kind@ && remaining@ == spec_excerpt(input@),
    {
        LofError::Nom { kind: String::from_str(kind), remaining: excerpt(input) }
    }

    /// The file at `filepath` was not parsed to its end.
    pub fn leftover_input(filepath: &str, remaining: &str) -> (r: Self)
        ensures
            r matches LofError::LeftoverInput { filepath: f, remaining: m } && f@ == filepath@ && m@ == remaining@,
    {
        LofError::LeftoverInput { filepath: String::from_str(filepath), remaining: String::from_str(remaining) }
    }

    /// `value` is not one of the `allowed` values of the configuration `field`.
    pub fn invalid_config_value(field: &str, value: &str, allowed: &str) -> (r: Self)
        ensures
            r matches LofError::InvalidConfigValue { field: f, value: v, allowed: a }
                && f@ == field@ && v@ == value@ && a@ == allowed@,
    {
        LofError::InvalidConfigValue {
            field: String::from_str(field),
            value: String::from_str(value),
            allowed: String::from_str(allowed),
        }
    }

    /// One error standing for all of `errors`, their messages one per line.
    pub fn aggregate(errors: &Vec<LofError>) -> (r: Self)
        ensures
            r matches LofError::Aggregate(s) && s@ == spec_join_messages(errors@),
    {
        let mut out = String::new();
        let mut i: usize = 0;
        while i < errors.len()
            invariant
                i <= errors@.len(),
                out@ == spec_join_messages(errors@.subrange(0, i as int)),
            decreases errors@.len() - i,
        {
            proof {
                let pre = errors@.subrange(0, i + 1);
                assert(pre.drop_last() =~= errors@.subrange(0, i as int));
                assert(pre.last() == errors@[i as int]);
            }
            if i > 0 {
                out.append("\n");
            }
            let m = errors[i].message();
            out.append(m.as_str());
            i = i + 1;
        }
        assert(errors@.subrange(0, errors@.len() as int) =~= errors@);
        LofError::Aggregate(out)
    }

    /// An operation that is not supported, described by `msg`.
    pub fn unsupported(msg: &str) -> (r: Self)
        ensures
            r matches LofError::Unsupported(s) && s@ == msg@,
    {
        LofError::Unsupported(String::from_str(msg))
    }

    /// Any other failure, described by `msg`.
    pub fn custom(msg: &str) -> (r: Self)
        ensures
            r matches LofError::Other(s) && s@ == msg@,
    {
        LofError::Other(String::from_str(msg))
    }

    /// The message this error renders to.
    pub fn message(&self) -> (r: String)
        ensures
            r@ == spec_message(*self),
    {
        match self {
            LofError::UnboundName { kind, name } =>
                { let mut s = String::from_str("Unbound "); s.append(kind.as_str()); s.append(": "); s.append(name.as_str()); s },
            LofError::TypeMismatch { context, expected, found } =>
                { let mut s = String::from_str("Type mismatch in "); s.append(context.as_str()); s.append(": expected "); s.append(expected.as_str()); s.append(", found "); s.append(found.as_str()); s },
            LofError::TypeCheckError(t) => { let mut s = String::from_str("Type check error: "); s.append(t.as_str()); s },
            LofError::ArityMismatch { context, expected, found } => {
                let e = decimal_u64(*expected as u64);
                let f = decimal_u64(*found as u64);
                { let mut s = String::from_str("Arity mismatch in "); s.append(context.as_str()); s.append(": expected "); s.append(e.as_str()); s.append(" argument(s), found "); s.append(f.as_str()); s }
            },
            LofError::UnificationFailure { term1, term2 } =>
                { let mut s = String::from_str("Unification error: "); s.append(term1.as_str()); s.append(" and "); s.append(term2.as_str()); s.append(" do not unify"); s },
            LofError::OccursCheckCyclic { subject } =>
                { let mut s = String::from_str("Occurs check failed: "); s.append(subject.as_str()); s.append(" contains a cyclical reference to itself"); s },
            LofError::OccursCheckInTerm { variable, term } =>
                { let mut s = String::from_str("Occurs check failed: variable "); s.append(variable.as_str()); s.append(" occurs in substitution body "); s.append(term.as_str()); s },
            LofError::ConflictingSubstitution { variable, term1, term2 } =>
                { let mut s = String::from_str("Conflicting substitution for variable "); s.append(variable.as_str()); s.append(": "); s.append(term1.as_str()); s.append(" vs "); s.append(term2.as_str()); s },
            LofError::UnsupportedConstruct { theory, construct } =>
                { let mut s = String::from_str(construct.as_str()); s.append(" is not supported in "); s.append(theory.as_str()); s },
            LofError::InvalidAstNode { expected, found } =>
                { let mut s = String::from_str("Expected "); s.append(expected.as_str()); s.append(" AST node, found "); s.append(found.as_str()); s },
            LofError::ReservedKeyword(w) =>
                { let mut s = String::from_str("'"); s.append(w.as_str()); s.append("' is a reserved keyword and cannot be used as an identifier"); s },
            LofError::Nom { kind, remaining } =>
                { let mut s = String::from_str("Parse error ("); s.append(kind.as_str()); s.append(") near: "); s.append(remaining.as_str()); s },
            LofError::IncompleteInput(t) => { let mut s = String::from_str("Parser needs more input: "); s.append(t.as_str()); s },
            LofError::LeftoverInput { filepath, remaining } =>
                { let mut s = String::from_str("Error parsing file '"); s.append(filepath.as_str()); s.append("'. Unparsed remainder starting at: "); s.append(remaining.as_str()); s },
            LofError::Io(t) => { let mut s = String::from_str("I/O error: "); s.append(t.as_str()); s },
            LofError::Yaml(t) => { let mut s = String::from_str("Failed to parse config file: "); s.append(t.as_str()); s },
            LofError::InvalidConfigValue { field, value, allowed } =>
                { let mut s = String::from_str("Invalid value '"); s.append(value.as_str()); s.append("' for config field '"); s.append(field.as_str()); s.append("'. Must be one of: "); s.append(allowed.as_str()); s },
            LofError::Aggregate(s) => s.clone(),
            LofError::Unsupported(s) => s.clone(),
            LofError::Other(s) => s.clone(),
        }
    }
}

impl PartialEq for LofError {
    /// Two errors are equal when they render the same message.
    fn eq(&self, other: &Self) -> (r: bool) {
        let a = self.message();
        let b = other.message();
        a == b
    }
}

impl vstd::std_specs::cmp::PartialEqSpecImpl for LofError {
    open spec fn obeys_eq_spec() -> bool {
        true
    }

    open spec fn eq_spec(&self, other: &Self) -> bool {
        spec_message(*self) == spec_message(*other)
    }
}

} // verus!
