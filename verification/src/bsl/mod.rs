//! BSL source models: callable symbols, case-insensitive names, and the
//! line-oriented extractors for declarations, calls and static queries.

pub mod calls;
pub mod cross_module_resolution;
pub mod declarations;
pub mod lexical;
pub mod line_endings;
pub mod queries;
pub mod resolution;
pub mod source_map;

pub use calls::{BslCall, BslCallError, BslCallExtractor, BslCallKind, LineBslCallExtractor};
pub use cross_module_resolution::{
    BslModuleSymbols, CrossModuleCallResolution, CrossModuleCallResolver, QualifiedBslCallResolver,
    ResolvedCrossModuleCall, UnresolvedCrossModuleCall, UnresolvedCrossModuleCallReason,
};
pub use declarations::{BslDeclarationExtractor, LineBslDeclarationExtractor};
pub use queries::{BslQuery, BslQueryError, BslQueryExtractor, LineBslQueryExtractor};
pub use resolution::{
    BslCallResolution, BslCallResolver, LocalBslCallResolver, ResolvedBslCall, UnresolvedBslCall,
    UnresolvedCallReason,
};

use vstd::prelude::*;

use crate::entity::{EntityId, EntityIdError, EntityName};
use crate::text::{all_ws, decimal, push_decimal, push_str};

verus! {

/// Non-empty half-open identifier range in raw BSL UTF-8 bytes.
#[derive(Debug, Clone, Copy, PartialEq, Eq, PartialOrd, Ord, Hash)]
pub struct BslIdentifierRange {
    start_byte: usize,
    end_byte: usize,
}

impl View for BslIdentifierRange {
    type V = (int, int);

    closed spec fn view(&self) -> (int, int) {
        (self.start_byte as int, self.end_byte as int)
    }
}

impl BslIdentifierRange {
    /// Creates a non-empty half-open byte range; `None` when `start_byte >= end_byte`.
    pub fn new(start_byte: usize, end_byte: usize) -> (r: Option<Self>)
        ensures
            r is Some <==> start_byte < end_byte,
            r matches Some(range) ==> range@ == (start_byte as int, end_byte as int),
    {
        if start_byte < end_byte {
            Some(BslIdentifierRange { start_byte, end_byte })
        } else {
            None
        }
    }

    /// Returns the inclusive raw UTF-8 byte offset.
    pub fn start_byte(self) -> (r: usize)
        ensures
            r as int == self@.0,
    {
        self.start_byte
    }

    /// Returns the exclusive raw UTF-8 byte offset.
    pub fn end_byte(self) -> (r: usize)
        ensures
            r as int == self@.1,
    {
        self.end_byte
    }
}

/// Name for what `str::to_lowercase` returns: the Unicode lowercase mapping of
/// every scalar value, with the context-sensitive final-sigma rule.
pub uninterp spec fn lowercase(s: Seq<char>) -> Seq<char>;

/// Calls `str::to_lowercase`; the result is `lowercase` of the argument.
#[verifier::external_body]
pub(crate) fn to_lowercase(value: &str) -> (r: String)
    ensures
        r@ == lowercase(value@),
{
    value.to_lowercase()
}

/// Two BSL names denote the same symbol when their lowercase forms agree.
pub open spec fn names_equal(left: Seq<char>, right: Seq<char>) -> bool {
    lowercase(left) == lowercase(right)
}

/// Returns the canonical case-insensitive BSL name key.
pub fn bsl_name_key(value: &str) -> (r: String)
    ensures
        r@ == lowercase(value@),
{
    to_lowercase(value)
}

/// Returns whether two BSL names are equivalent for resolution.
pub fn bsl_names_equal(left: &str, right: &str) -> (r: bool)
    ensures
        r == names_equal(left@, right@),
{
    let l = bsl_name_key(left);
    let r = bsl_name_key(right);
    l == r
}

/// Supported BSL symbol kinds.
#[derive(Debug, Clone, Copy, PartialEq, Eq, PartialOrd, Ord, Hash, Structural)]
pub enum BslSymbolKind {
    /// BSL procedure.
    Procedure,
    /// BSL function.
    Function,
}

/// Stable machine-readable name of a symbol kind.
pub open spec fn symbol_kind_code(kind: BslSymbolKind) -> Seq<char> {
    match kind {
        BslSymbolKind::Procedure => "procedure"@,
        BslSymbolKind::Function => "function"@,
    }
}

impl BslSymbolKind {
    /// Returns a stable machine-readable name.
    pub fn as_str(self) -> (r: &'static str)
        ensures
            r@ == symbol_kind_code(self),
    {
        proof {
            reveal_strlit("procedure");
            reveal_strlit("function");
        }
        match self {
            BslSymbolKind::Procedure => "procedure",
            BslSymbolKind::Function => "function",
        }
    }
}

/// Text of the identifier `{module}:{kind}:{name}` of one callable declaration.
pub open spec fn callable_id_text(module_id: Seq<char>, kind: BslSymbolKind, name: Seq<char>) -> Seq<
    char,
> {
    module_id + ":"@ + symbol_kind_code(kind) + ":"@ + name
}

/// Creates the stable identifier used for one BSL callable declaration.
///
/// Fails when the composed identifier is blank.
pub fn bsl_callable_id(module_id: &EntityId, kind: BslSymbolKind, name: &str) -> (r: Result<
    EntityId,
    EntityIdError,
>)
    ensures
        r is Err <==> all_ws(callable_id_text(module_id@, kind, name@)),
        r matches Ok(id) ==> id@ == callable_id_text(module_id@, kind, name@),
{
    let mut text = String::new();
    push_str(&mut text, module_id.as_str());
    push_str(&mut text, ":");
    push_str(&mut text, kind.as_str());
    push_str(&mut text, ":");
    push_str(&mut text, name);
    proof {
        reveal_strlit(":");
    }
    EntityId::from_string(text)
}

/// Abstract value of a symbol: identifier, name, kind, line, export flag and range.
pub struct SymbolView {
    pub id: Seq<char>,
    pub name: Seq<char>,
    pub kind: BslSymbolKind,
    pub line: int,
    pub exported: bool,
    pub range: Option<(int, int)>,
}

/// A top-level declaration found in a BSL module.
#[derive(Debug, Clone, PartialEq, Eq)]
pub struct BslSymbol {
    id: EntityId,
    name: EntityName,
    kind: BslSymbolKind,
    line: usize,
    exported: bool,
    identifier_range: Option<BslIdentifierRange>,
}

impl View for BslSymbol {
    type V = SymbolView;

    closed spec fn view(&self) -> SymbolView {
        SymbolView {
            id: self.id@,
            name: self.name@,
            kind: self.kind,
            line: self.line as int,
            exported: self.exported,
            range: match self.identifier_range {
                Some(r) => Some(r@),
                None => None,
            },
        }
    }
}

impl BslSymbol {
    /// Creates a BSL symbol without an identifier range.
    pub fn new(id: EntityId, name: EntityName, kind: BslSymbolKind, line: usize, exported: bool) -> (r:
        Self)
        ensures
            r@ == (SymbolView {
                id: id@,
                name: name@,
                kind,
                line: line as int,
                exported,
                range: None,
            }),
    {
        BslSymbol { id, name, kind, line, exported, identifier_range: None }
    }

    /// Creates an extracted BSL symbol with its exact raw identifier range.
    pub fn new_with_identifier_range(
        id: EntityId,
        name: EntityName,
        kind: BslSymbolKind,
        line: usize,
        exported: bool,
        identifier_range: BslIdentifierRange,
    ) -> (r: Self)
        ensures
            r@ == (SymbolView {
                id: id@,
                name: name@,
                kind,
                line: line as int,
                exported,
                range: Some(identifier_range@),
            }),
    {
        BslSymbol { id, name, kind, line, exported, identifier_range: Some(identifier_range) }
    }

    /// Returns an identical copy of the symbol.
    pub fn duplicate(&self) -> (r: Self)
        ensures
            r@ == self@,
    {
        BslSymbol {
            id: self.id.duplicate(),
            name: self.name.duplicate(),
            kind: self.kind,
            line: self.line,
            exported: self.exported,
            identifier_range: self.identifier_range,
        }
    }

    /// Returns the stable symbol identifier.
    pub fn id(&self) -> (r: &EntityId)
        ensures
            r@ == self@.id,
    {
        &self.id
    }

    /// Returns the symbol name.
    pub fn name(&self) -> (r: &EntityName)
        ensures
            r@ == self@.name,
    {
        &self.name
    }

    /// Returns the symbol kind.
    pub fn kind(&self) -> (r: BslSymbolKind)
        ensures
            r == self@.kind,
    {
        self.kind
    }

    /// Returns the one-based source line.
    pub fn line(&self) -> (r: usize)
        ensures
            r as int == self@.line,
    {
        self.line
    }

    /// Returns whether the declaration is exported.
    pub fn is_exported(&self) -> (r: bool)
        ensures
            r == self@.exported,
    {
        self.exported
    }

    /// Returns the exact identifier range when the symbol came from an extractor.
    pub fn identifier_range(&self) -> (r: Option<BslIdentifierRange>)
        ensures
            r is Some <==> self@.range is Some,
            r matches Some(range) ==> self@.range == Some(range@),
    {
        self.identifier_range
    }
}

/// Abstract value of a declaration error.
pub enum ParseErrorView {
    Malformed { line: int, text: Seq<char> },
    Nested(int),
    InvalidName(int),
    InvalidIdentifier(int),
    BoundExceeded { actual: int, maximum: int },
}

/// Error produced while extracting BSL declarations.
#[derive(Debug, Clone, PartialEq, Eq)]
pub enum BslParseError {
    /// A declaration line has invalid syntax.
    MalformedDeclaration {
        /// One-based line number.
        line: usize,
        /// The source text of the line.
        text: String,
    },
    /// A callable declaration appeared inside another callable scope.
    NestedDeclaration(usize),
    /// A symbol name could not be represented.
    InvalidName(usize),
    /// A symbol identifier could not be represented.
    InvalidIdentifier(usize),
    /// The declaration collection exceeded an inclusive caller-supplied bound.
    BoundExceeded {
        /// First rejected collection size.
        actual: usize,
        /// Accepted maximum.
        maximum: usize,
    },
}

impl View for BslParseError {
    type V = ParseErrorView;

    open spec fn view(&self) -> ParseErrorView {
        match self {
            BslParseError::MalformedDeclaration { line, text } => ParseErrorView::Malformed {
                line: *line as int,
                text: text@,
            },
            BslParseError::NestedDeclaration(line) => ParseErrorView::Nested(*line as int),
            BslParseError::InvalidName(line) => ParseErrorView::InvalidName(*line as int),
            BslParseError::InvalidIdentifier(line) => ParseErrorView::InvalidIdentifier(
                *line as int,
            ),
            BslParseError::BoundExceeded { actual, maximum } => ParseErrorView::BoundExceeded {
                actual: *actual as int,
                maximum: *maximum as int,
            },
        }
    }
}

/// Human-readable text of a declaration error.
pub open spec fn parse_error_message(e: ParseErrorView) -> Seq<char> {
    match e {
        ParseErrorView::Malformed { line, text } => "malformed BSL declaration at line "@ + decimal(
            line as nat,
        ) + ": "@ + text,
        ParseErrorView::Nested(line) => "nested BSL declaration at line "@ + decimal(line as nat),
        ParseErrorView::InvalidName(line) => "invalid BSL symbol name at line "@ + decimal(
            line as nat,
        ),
        ParseErrorView::InvalidIdentifier(line) => "invalid BSL symbol identifier at line "@
            + decimal(line as nat),
        ParseErrorView::BoundExceeded { actual, maximum } => "BSL declaration count "@ + decimal(
            actual as nat,
        ) + " exceeds maximum "@ + decimal(maximum as nat),
    }
}

impl BslParseError {
    /// Returns the human-readable error text.
    pub fn message(&self) -> (r: String)
        ensures
            r@ == parse_error_message(self@),
    {
        let mut out = String::new();
        match self {
            BslParseError::MalformedDeclaration { line, text } => {
                push_str(&mut out, "malformed BSL declaration at line ");
                push_decimal(&mut out, *line);
                push_str(&mut out, ": ");
                push_str(&mut out, text.as_str());
            },
            BslParseError::NestedDeclaration(line) => {
                push_str(&mut out, "nested BSL declaration at line ");
                push_decimal(&mut out, *line);
            },
            BslParseError::InvalidName(line) => {
                push_str(&mut out, "invalid BSL symbol name at line ");
                push_decimal(&mut out, *line);
            },
            BslParseError::InvalidIdentifier(line) => {
                push_str(&mut out, "invalid BSL symbol identifier at line ");
                push_decimal(&mut out, *line);
            },
            BslParseError::BoundExceeded { actual, maximum } => {
                push_str(&mut out, "BSL declaration count ");
                push_decimal(&mut out, *actual);
                push_str(&mut out, " exceeds maximum ");
                push_decimal(&mut out, *maximum);
            },
        }
        out
    }
}

} // verus!
