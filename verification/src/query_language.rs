//! Minimum typed parsing for repository-backed 1C query-language forms.
//!
//! The accepted grammar is `SELECT [TOP n] path FROM Namespace.Name [AS alias]`
//! (or `ВЫБРАТЬ path ИЗ Namespace.Name`), where the namespace is `Catalog`,
//! `Справочник` or `InformationRegister`. Locations are raw UTF-8 byte offsets.

use vstd::prelude::*;

use crate::text::{
    byte_at, char_width, utf8_len, utf8_width, chars_of, is_alphabetic, is_alphanumeric, is_whitespace, range_eq, string_of_range,
    unicode_alphabetic, unicode_alphanumeric, unicode_whitespace,
};

verus! {

/// Half-open range of zero-based UTF-8 byte offsets inside the raw query text.
#[derive(Debug, Clone, Copy, PartialEq, Eq, PartialOrd, Ord, Hash)]
pub struct QueryTextRange {
    start_byte: usize,
    end_byte: usize,
}

impl View for QueryTextRange {
    type V = (int, int);

    closed spec fn view(&self) -> (int, int) {
        (self.start_byte as int, self.end_byte as int)
    }
}

impl QueryTextRange {
    fn new(start_byte: usize, end_byte: usize) -> (r: Self)
        ensures
            r@ == (start_byte as int, end_byte as int),
    {
        QueryTextRange { start_byte, end_byte }
    }

    /// Returns the inclusive zero-based UTF-8 byte offset at which the range starts.
    pub fn start_byte(self) -> (r: usize)
        ensures
            r as int == self@.0,
    {
        self.start_byte
    }

    /// Returns the exclusive zero-based UTF-8 byte offset at which the range ends.
    pub fn end_byte(self) -> (r: usize)
        ensures
            r as int == self@.1,
    {
        self.end_byte
    }
}

/// Statement categories recognized by the minimum query-language slice.
#[derive(Debug, Clone, Copy, PartialEq, Eq, PartialOrd, Ord, Hash)]
pub enum QueryStatementKind {
    /// One top-level `SELECT` or Russian `ВЫБРАТЬ` statement.
    Select,
}

/// Normalized persistent source categories admitted by the parser.
#[derive(Debug, Clone, Copy, PartialEq, Eq, PartialOrd, Ord, Hash)]
pub enum QuerySourceCategory {
    /// A direct Catalog source, including the `Справочник` spelling.
    Catalog,
    /// A direct Information Register source.
    InformationRegister,
}

/// Typed query-language diagnostic categories.
#[derive(Debug, Clone, Copy, PartialEq, Eq, PartialOrd, Ord, Hash)]
pub enum QueryLanguageDiagnosticKind {
    /// The raw query text is empty, incomplete, invalid, or not fully consumed.
    MalformedSyntax,
    /// A qualified persistent namespace is outside the allowlist.
    UnsupportedPersistentNamespace,
    /// A parameter occupies a data-source position.
    ExternalOrParameterDataSource,
}

impl QueryLanguageDiagnosticKind {
    /// Returns the stable machine-readable diagnostic code.
    pub fn as_str(self) -> (r: &'static str)
        ensures
            r@ == diagnostic_kind_code(self),
    {
        match self {
            QueryLanguageDiagnosticKind::MalformedSyntax => "query_language.malformed_syntax",
            QueryLanguageDiagnosticKind::UnsupportedPersistentNamespace => {
                "query_language.unsupported_persistent_namespace"
            },
            QueryLanguageDiagnosticKind::ExternalOrParameterDataSource => {
                "query_language.external_or_parameter_data_source"
            },
        }
    }
}

/// Stable machine-readable code of a diagnostic kind.
pub open spec fn diagnostic_kind_code(kind: QueryLanguageDiagnosticKind) -> Seq<char> {
    match kind {
        QueryLanguageDiagnosticKind::MalformedSyntax => "query_language.malformed_syntax"@,
        QueryLanguageDiagnosticKind::UnsupportedPersistentNamespace => {
            "query_language.unsupported_persistent_namespace"@
        },
        QueryLanguageDiagnosticKind::ExternalOrParameterDataSource => {
            "query_language.external_or_parameter_data_source"@
        },
    }
}

/// Kinds of lexical tokens.
#[derive(Debug, Clone, Copy, PartialEq, Eq, Structural)]
pub enum TokenKind {
    /// Identifier or keyword.
    Word,
    /// Run of ASCII digits.
    Number,
    /// `.`
    Dot,
    /// `&`
    Ampersand,
    /// Any other non-whitespace scalar.
    Invalid,
    /// End of the input.
    EndOfInput,
}

/// Lexical token: kind and half-open scalar range, with matching byte offsets.
#[derive(Debug, Clone, Copy)]
pub struct Token {
    pub kind: TokenKind,
    pub start: usize,
    pub end: usize,
    pub start_byte: usize,
    pub end_byte: usize,
}

/// Token kind and scalar range.
pub open spec fn token_view(t: Token) -> (TokenKind, int, int) {
    (t.kind, t.start as int, t.end as int)
}

/// A scalar that may start an identifier.
pub open spec fn ident_start(c: char) -> bool {
    c == '_' || unicode_alphabetic(c)
}

/// A scalar that may continue an identifier.
pub open spec fn ident_continue(c: char) -> bool {
    c == '_' || unicode_alphanumeric(c)
}

/// ASCII decimal digit.
pub open spec fn ascii_digit(c: char) -> bool {
    '0' <= c && c <= '9'
}

/// End of the identifier-continue run starting at `i`.
pub open spec fn word_end(s: Seq<char>, i: int) -> int
    decreases s.len() - i,
{
    if 0 <= i < s.len() && ident_continue(s[i]) {
        word_end(s, i + 1)
    } else {
        i
    }
}

/// End of the ASCII-digit run starting at `i`.
pub open spec fn digits_end(s: Seq<char>, i: int) -> int
    decreases s.len() - i,
{
    if 0 <= i < s.len() && ascii_digit(s[i]) {
        digits_end(s, i + 1)
    } else {
        i
    }
}

/// Token kind of a single-scalar token.
pub open spec fn punct_kind(c: char) -> TokenKind {
    if c == '.' {
        TokenKind::Dot
    } else if c == '&' {
        TokenKind::Ampersand
    } else {
        TokenKind::Invalid
    }
}

pub proof fn lemma_word_end_bounds(s: Seq<char>, i: int)
    requires
        0 <= i <= s.len(),
    ensures
        i <= word_end(s, i) <= s.len(),
    decreases s.len() - i,
{
    if i < s.len() && ident_continue(s[i]) {
        lemma_word_end_bounds(s, i + 1);
    }
}

pub proof fn lemma_digits_end_bounds(s: Seq<char>, i: int)
    requires
        0 <= i <= s.len(),
    ensures
        i <= digits_end(s, i) <= s.len(),
    decreases s.len() - i,
{
    if i < s.len() && ascii_digit(s[i]) {
        lemma_digits_end_bounds(s, i + 1);
    }
}

/// Tokens of `s` from scalar index `i` on, always ending in one end-of-input token.
pub open spec fn lex_from(s: Seq<char>, i: int) -> Seq<(TokenKind, int, int)>
    decreases s.len() - i,
{
    if i < 0 || i >= s.len() {
        seq![(TokenKind::EndOfInput, s.len() as int, s.len() as int)]
    } else if unicode_whitespace(s[i]) {
        lex_from(s, i + 1)
    } else if ident_start(s[i]) {
        let e = word_end(s, i + 1);
        proof {
            lemma_word_end_bounds(s, i + 1);
        }
        seq![(TokenKind::Word, i, e)] + lex_from(s, e)
    } else if ascii_digit(s[i]) {
        let e = digits_end(s, i + 1);
        proof {
            lemma_digits_end_bounds(s, i + 1);
        }
        seq![(TokenKind::Number, i, e)] + lex_from(s, e)
    } else {
        seq![(punct_kind(s[i]), i, i + 1)] + lex_from(s, i + 1)
    }
}

/// Tokens of the whole query text.
pub open spec fn lex(s: Seq<char>) -> Seq<(TokenKind, int, int)> {
    lex_from(s, 0)
}

proof fn lemma_utf8_len_take_step(s: Seq<char>, i: int)
    requires
        0 <= i < s.len(),
    ensures
        utf8_len(s.take(i + 1)) == utf8_len(s.take(i)) + utf8_width(s[i]),
{
    assert(s.take(i + 1).drop_last() == s.take(i));
}

proof fn lemma_utf8_len_take_mono(s: Seq<char>, i: int, j: int)
    requires
        0 <= i <= j <= s.len(),
    ensures
        utf8_len(s.take(i)) <= utf8_len(s.take(j)),
    decreases j - i,
{
    if i < j {
        lemma_utf8_len_take_mono(s, i, j - 1);
        lemma_utf8_len_take_step(s, j - 1);
    }
}

proof fn lemma_lex_from_shape(s: Seq<char>, i: int)
    requires
        0 <= i <= s.len(),
    ensures
        lex_from(s, i).len() >= 1,
        lex_from(s, i).last() == (TokenKind::EndOfInput, s.len() as int, s.len() as int),
        forall|k: int|
            0 <= k < lex_from(s, i).len() - 1 ==> (#[trigger] lex_from(s, i)[k]).0
                != TokenKind::EndOfInput,
        forall|k: int|
            0 <= k < lex_from(s, i).len() ==> i <= (#[trigger] lex_from(s, i)[k]).1 <= lex_from(
                s,
                i,
            )[k].2 <= s.len(),
        forall|k1: int, k2: int|
            0 <= k1 < k2 < lex_from(s, i).len() ==> (#[trigger] lex_from(s, i)[k1]).2 <= (
            #[trigger] lex_from(s, i)[k2]).1,
    decreases s.len() - i,
{
    if i < s.len() {
        if unicode_whitespace(s[i]) {
            lemma_lex_from_shape(s, i + 1);
        } else if ident_start(s[i]) {
            lemma_word_end_bounds(s, i + 1);
            lemma_lex_from_shape(s, word_end(s, i + 1));
            let rest = lex_from(s, word_end(s, i + 1));
            assert(lex_from(s, i) == seq![(TokenKind::Word, i, word_end(s, i + 1))] + rest);
            assert forall|k: int| 0 <= k < lex_from(s, i).len() implies i <= (#[trigger] lex_from(
                s,
                i,
            )[k]).1 <= lex_from(s, i)[k].2 <= s.len() by {
                if k > 0 {
                    assert(lex_from(s, i)[k] == rest[k - 1]);
                }
            }
            assert forall|k1: int, k2: int|
                0 <= k1 < k2 < lex_from(s, i).len() implies (#[trigger] lex_from(s, i)[k1]).2 <= (
                #[trigger] lex_from(s, i)[k2]).1 by {
                assert(lex_from(s, i)[k2] == rest[k2 - 1]);
                if k1 > 0 {
                    assert(lex_from(s, i)[k1] == rest[k1 - 1]);
                }
            }
        } else if ascii_digit(s[i]) {
            lemma_digits_end_bounds(s, i + 1);
            lemma_lex_from_shape(s, digits_end(s, i + 1));
            let rest = lex_from(s, digits_end(s, i + 1));
            assert(lex_from(s, i) == seq![(TokenKind::Number, i, digits_end(s, i + 1))] + rest);
            assert forall|k: int| 0 <= k < lex_from(s, i).len() implies i <= (#[trigger] lex_from(
                s,
                i,
            )[k]).1 <= lex_from(s, i)[k].2 <= s.len() by {
                if k > 0 {
                    assert(lex_from(s, i)[k] == rest[k - 1]);
                }
            }
            assert forall|k1: int, k2: int|
                0 <= k1 < k2 < lex_from(s, i).len() implies (#[trigger] lex_from(s, i)[k1]).2 <= (
                #[trigger] lex_from(s, i)[k2]).1 by {
                assert(lex_from(s, i)[k2] == rest[k2 - 1]);
                if k1 > 0 {
                    assert(lex_from(s, i)[k1] == rest[k1 - 1]);
                }
            }
        } else {
            lemma_lex_from_shape(s, i + 1);
            let rest = lex_from(s, i + 1);
            assert(lex_from(s, i) == seq![(punct_kind(s[i]), i, i + 1)] + rest);
            assert forall|k: int| 0 <= k < lex_from(s, i).len() implies i <= (#[trigger] lex_from(
                s,
                i,
            )[k]).1 <= lex_from(s, i)[k].2 <= s.len() by {
                if k > 0 {
                    assert(lex_from(s, i)[k] == rest[k - 1]);
                }
            }
            assert forall|k1: int, k2: int|
                0 <= k1 < k2 < lex_from(s, i).len() implies (#[trigger] lex_from(s, i)[k1]).2 <= (
                #[trigger] lex_from(s, i)[k2]).1 by {
                assert(lex_from(s, i)[k2] == rest[k2 - 1]);
                if k1 > 0 {
                    assert(lex_from(s, i)[k1] == rest[k1 - 1]);
                }
            }
        }
    }
}

/// Well-formed token vector for the scalar sequence `s`.
pub open spec fn tokens_wf(s: Seq<char>, tokens: Seq<Token>) -> bool {
    &&& tokens.map_values(|t: Token| token_view(t)) == lex(s)
    &&& forall|k: int|
        0 <= k < tokens.len() ==> {
            &&& (#[trigger] tokens[k]).start_byte as int == byte_at(s, tokens[k].start as int)
            &&& tokens[k].end_byte as int == byte_at(s, tokens[k].end as int)
        }
}

/// Splits raw query text into tokens with scalar ranges and UTF-8 byte offsets.
fn tokenize(chars: &Vec<char>) -> (tokens: Vec<Token>)
    requires
        utf8_len(chars@) <= usize::MAX,
    ensures
        tokens_wf(chars@, tokens@),
{
    let ghost s = chars@;
    let mut tokens: Vec<Token> = Vec::new();
    let mut i: usize = 0;
    let mut byte: usize = 0;
    proof {
        lemma_utf8_len_take_mono(s, 0, s.len() as int);
        assert(s.take(s.len() as int) == s);
    }
    while i < chars.len()
        invariant
            s == chars@,
            i <= s.len(),
            utf8_len(s) <= usize::MAX,
            byte as int == byte_at(s, i as int),
            tokens@.map_values(|t: Token| token_view(t)) + lex_from(s, i as int) == lex(s),
            forall|k: int|
                0 <= k < tokens@.len() ==> {
                    &&& (#[trigger] tokens@[k]).start_byte as int == byte_at(
                        s,
                        tokens@[k].start as int,
                    )
                    &&& tokens@[k].end_byte as int == byte_at(s, tokens@[k].end as int)
                },
        decreases s.len() - i,
    {
        let c = chars[i];
        let width = char_width(c);
        proof {
            lemma_utf8_len_take_step(s, i as int);
            lemma_utf8_len_take_mono(s, i + 1, s.len() as int);
            assert(s.take(s.len() as int) == s);
        }
        let ghost before = tokens@.map_values(|t: Token| token_view(t));
        if is_whitespace(c) {
            i = i + 1;
            byte = byte + width;
        } else if c == '_' || is_alphabetic(c) {
            let start = i;
            let start_byte = byte;
            i = i + 1;
            byte = byte + width;
            while i < chars.len() && (chars[i] == '_' || is_alphanumeric(chars[i]))
                invariant
                    s == chars@,
                    start < i <= s.len(),
                    utf8_len(s) <= usize::MAX,
                    byte as int == byte_at(s, i as int),
                    word_end(s, i as int) == word_end(s, start + 1),
                decreases s.len() - i,
            {
                proof {
                    lemma_utf8_len_take_step(s, i as int);
                    lemma_utf8_len_take_mono(s, i + 1, s.len() as int);
                    assert(s.take(s.len() as int) == s);
                }
                byte = byte + char_width(chars[i]);
                i = i + 1;
            }
            let token = Token { kind: TokenKind::Word, start, end: i, start_byte, end_byte: byte };
            tokens.push(token);
            proof {
                assert(tokens@.map_values(|t: Token| token_view(t)) == before.push(
                    token_view(token),
                ));
                assert(lex_from(s, start as int) == seq![token_view(token)] + lex_from(s, i as int));
            }
        } else if '0' <= c && c <= '9' {
            let start = i;
            let start_byte = byte;
            i = i + 1;
            byte = byte + width;
            while i < chars.len() && '0' <= chars[i] && chars[i] <= '9'
                invariant
                    s == chars@,
                    start < i <= s.len(),
                    utf8_len(s) <= usize::MAX,
                    byte as int == byte_at(s, i as int),
                    digits_end(s, i as int) == digits_end(s, start + 1),
                decreases s.len() - i,
            {
                proof {
                    lemma_utf8_len_take_step(s, i as int);
                    lemma_utf8_len_take_mono(s, i + 1, s.len() as int);
                    assert(s.take(s.len() as int) == s);
                }
                byte = byte + char_width(chars[i]);
                i = i + 1;
            }
            let token = Token {
                kind: TokenKind::Number,
                start,
                end: i,
                start_byte,
                end_byte: byte,
            };
            tokens.push(token);
            proof {
                assert(tokens@.map_values(|t: Token| token_view(t)) == before.push(
                    token_view(token),
                ));
                assert(lex_from(s, start as int) == seq![token_view(token)] + lex_from(s, i as int));
            }
        } else {
            let kind = if c == '.' {
                TokenKind::Dot
            } else if c == '&' {
                TokenKind::Ampersand
            } else {
                TokenKind::Invalid
            };
            let token = Token { kind, start: i, end: i + 1, start_byte: byte, end_byte: byte + width };
            tokens.push(token);
            proof {
                assert(tokens@.map_values(|t: Token| token_view(t)) == before.push(
                    token_view(token),
                ));
                assert(lex_from(s, i as int) == seq![token_view(token)] + lex_from(s, i + 1));
            }
            i = i + 1;
            byte = byte + width;
        }
    }
    let ghost before = tokens@.map_values(|t: Token| token_view(t));
    let token = Token {
        kind: TokenKind::EndOfInput,
        start: chars.len(),
        end: chars.len(),
        start_byte: byte,
        end_byte: byte,
    };
    tokens.push(token);
    proof {
        assert(lex_from(s, i as int) == seq![token_view(token)]);
        assert(tokens@.map_values(|t: Token| token_view(t)) == before.push(token_view(token)));
        assert(before.push(token_view(token)) == before + lex_from(s, i as int));
        assert forall|k: int| 0 <= k < tokens@.len() implies {
            &&& (#[trigger] tokens@[k]).start_byte as int == byte_at(s, tokens@[k].start as int)
            &&& tokens@[k].end_byte as int == byte_at(s, tokens@[k].end as int)
        } by {}
    }
    tokens
}

} // verus!

verus! {

/// Diagnostic view: kind, message, start byte, end byte.
pub type DiagnosticView = (QueryLanguageDiagnosticKind, Seq<char>, int, int);

/// Source occurrence view: category, raw spelling, namespace, local name, alias,
/// start byte and end byte.
pub type OccurrenceView = (
    QuerySourceCategory,
    Seq<char>,
    Seq<char>,
    Seq<char>,
    Option<Seq<char>>,
    int,
    int,
);

pub open spec fn msg_start() -> Seq<char> {
    "expected the exact SELECT or ВЫБРАТЬ keyword at program start"@
}

pub open spec fn msg_top() -> Seq<char> {
    "expected a numeric TOP limit"@
}

pub open spec fn msg_projection() -> Seq<char> {
    "expected a projection identifier"@
}

pub open spec fn msg_after_dot() -> Seq<char> {
    "expected an identifier after '.'"@
}

pub open spec fn msg_source_keyword() -> Seq<char> {
    "expected the matching source-clause keyword"@
}

pub open spec fn msg_alias() -> Seq<char> {
    "expected a source alias after AS"@
}

pub open spec fn msg_unconsumed() -> Seq<char> {
    "unexpected unconsumed input after the data source"@
}

pub open spec fn msg_parameter_name() -> Seq<char> {
    "expected a parameter name after '&'"@
}

pub open spec fn msg_parameter_source() -> Seq<char> {
    "parameter data source is unsupported in the minimum query-language slice"@
}

pub open spec fn msg_namespace() -> Seq<char> {
    "expected a data-source namespace"@
}

pub open spec fn msg_dot() -> Seq<char> {
    "expected '.' in the qualified data-source name"@
}

pub open spec fn msg_local_name() -> Seq<char> {
    "expected a local metadata name"@
}

pub open spec fn msg_unsupported_namespace() -> Seq<char> {
    "persistent namespace is outside the minimum query-language slice"@
}

/// Cursor after one advance: it never moves past the end-of-input token.
pub open spec fn adv(t: Seq<(TokenKind, int, int)>, c: int) -> int {
    if c + 1 < t.len() {
        c + 1
    } else {
        c
    }
}

/// Token `c` is a word spelled exactly `w`.
pub open spec fn word_is(s: Seq<char>, t: Seq<(TokenKind, int, int)>, c: int, w: Seq<char>) -> bool {
    t[c].0 == TokenKind::Word && s.subrange(t[c].1, t[c].2) == w
}

/// Scalar text of token `c`.
pub open spec fn token_text(s: Seq<char>, t: Seq<(TokenKind, int, int)>, c: int) -> Seq<char> {
    s.subrange(t[c].1, t[c].2)
}

/// Malformed-syntax diagnostic located at token `c`.
pub open spec fn malformed_at(
    s: Seq<char>,
    t: Seq<(TokenKind, int, int)>,
    c: int,
    m: Seq<char>,
) -> DiagnosticView {
    (QueryLanguageDiagnosticKind::MalformedSyntax, m, byte_at(s, t[c].1), byte_at(s, t[c].2))
}

/// Optional `TOP n` after an English `SELECT`.
pub open spec fn top_clause(
    s: Seq<char>,
    t: Seq<(TokenKind, int, int)>,
    c: int,
    english: bool,
) -> Result<int, DiagnosticView> {
    if english && word_is(s, t, c, "TOP"@) {
        let c1 = adv(t, c);
        if t[c1].0 == TokenKind::Number {
            Ok(adv(t, c1))
        } else {
            Err(malformed_at(s, t, c1, msg_top()))
        }
    } else {
        Ok(c)
    }
}

/// Repeated `.identifier` components of a dotted path starting at token `c`.
pub open spec fn dot_tail(s: Seq<char>, t: Seq<(TokenKind, int, int)>, c: int) -> Result<
    int,
    DiagnosticView,
>
    decreases t.len() - c,
{
    if !(0 <= c < t.len()) || t[c].0 != TokenKind::Dot {
        Ok(c)
    } else {
        let c2 = adv(t, c);
        if t[c2].0 != TokenKind::Word {
            Err(malformed_at(s, t, c2, msg_after_dot()))
        } else if c2 <= c {
            Ok(c)
        } else {
            dot_tail(s, t, adv(t, c2))
        }
    }
}

/// A dotted identifier path starting at token `c`; returns the next cursor.
pub open spec fn identifier_path(
    s: Seq<char>,
    t: Seq<(TokenKind, int, int)>,
    c: int,
    m: Seq<char>,
) -> Result<int, DiagnosticView> {
    if t[c].0 != TokenKind::Word {
        Err(malformed_at(s, t, c, m))
    } else {
        dot_tail(s, t, adv(t, c))
    }
}

/// A data source `Namespace.Name`; returns category, namespace token,
/// local-name token and the next cursor.
pub open spec fn data_source(s: Seq<char>, t: Seq<(TokenKind, int, int)>, c: int) -> Result<
    (QuerySourceCategory, int, int, int),
    DiagnosticView,
> {
    if t[c].0 == TokenKind::Ampersand {
        let c1 = adv(t, c);
        if t[c1].0 != TokenKind::Word {
            Err(malformed_at(s, t, c1, msg_parameter_name()))
        } else {
            Err(
                (
                    QueryLanguageDiagnosticKind::ExternalOrParameterDataSource,
                    msg_parameter_source(),
                    byte_at(s, t[c].1),
                    byte_at(s, t[c1].2),
                ),
            )
        }
    } else if t[c].0 != TokenKind::Word {
        Err(malformed_at(s, t, c, msg_namespace()))
    } else {
        let c1 = adv(t, c);
        if t[c1].0 != TokenKind::Dot {
            Err(malformed_at(s, t, c1, msg_dot()))
        } else {
            let c2 = adv(t, c1);
            if t[c2].0 != TokenKind::Word {
                Err(malformed_at(s, t, c2, msg_local_name()))
            } else {
                let ns = token_text(s, t, c);
                if ns == "Catalog"@ || ns == "Справочник"@ {
                    Ok((QuerySourceCategory::Catalog, c, c2, adv(t, c2)))
                } else if ns == "InformationRegister"@ {
                    Ok((QuerySourceCategory::InformationRegister, c, c2, adv(t, c2)))
                } else {
                    Err(
                        (
                            QueryLanguageDiagnosticKind::UnsupportedPersistentNamespace,
                            msg_unsupported_namespace(),
                            byte_at(s, t[c].1),
                            byte_at(s, t[c].2),
                        ),
                    )
                }
            }
        }
    }
}

/// Optional `AS alias` after the source of an English query, then the end of input.
pub open spec fn alias_and_end(
    s: Seq<char>,
    t: Seq<(TokenKind, int, int)>,
    c: int,
    english: bool,
) -> Result<Option<int>, DiagnosticView> {
    if english && word_is(s, t, c, "AS"@) {
        let c1 = adv(t, c);
        if t[c1].0 != TokenKind::Word {
            Err(malformed_at(s, t, c1, msg_alias()))
        } else if t[adv(t, c1)].0 != TokenKind::EndOfInput {
            Err(malformed_at(s, t, adv(t, c1), msg_unconsumed()))
        } else {
            Ok(Some(c1))
        }
    } else if t[c].0 != TokenKind::EndOfInput {
        Err(malformed_at(s, t, c, msg_unconsumed()))
    } else {
        Ok(None)
    }
}

/// Parse verdict of the statement head (keyword, optional `TOP n`, projection
/// path and source keyword): the language flag and the cursor of the data source.
pub open spec fn head_parse(s: Seq<char>) -> Result<(bool, int), DiagnosticView> {
    let t = lex(s);
    let english = word_is(s, t, 0, "SELECT"@);
    let russian = word_is(s, t, 0, "ВЫБРАТЬ"@);
    if !english && !russian {
        Err(malformed_at(s, t, 0, msg_start()))
    } else {
        match top_clause(s, t, adv(t, 0), english) {
            Err(d) => Err(d),
            Ok(c1) => match identifier_path(s, t, c1, msg_projection()) {
                Err(d) => Err(d),
                Ok(c2) => {
                    let keyword = if english {
                        "FROM"@
                    } else {
                        "ИЗ"@
                    };
                    if !word_is(s, t, c2, keyword) {
                        Err(malformed_at(s, t, c2, msg_source_keyword()))
                    } else {
                        Ok((english, adv(t, c2)))
                    }
                },
            },
        }
    }
}

/// Parse verdict of a whole query text: the category, namespace token,
/// local-name token and optional alias token of its one source, or the first
/// diagnostic.
pub open spec fn program_parse(s: Seq<char>) -> Result<
    (QuerySourceCategory, int, int, Option<int>),
    DiagnosticView,
> {
    let t = lex(s);
    match head_parse(s) {
        Err(d) => Err(d),
        Ok((english, c3)) => match data_source(s, t, c3) {
            Err(d) => Err(d),
            Ok((category, ns, ln, c4)) => match alias_and_end(s, t, c4, english) {
                Err(d) => Err(d),
                Ok(alias) => Ok((category, ns, ln, alias)),
            },
        },
    }
}

/// The occurrence view of a parsed source.
pub open spec fn occurrence_of(
    s: Seq<char>,
    source: (QuerySourceCategory, int, int, Option<int>),
) -> OccurrenceView {
    let t = lex(s);
    let (category, ns, ln, alias) = source;
    (
        category,
        s.subrange(t[ns].1, t[ln].2),
        token_text(s, t, ns),
        token_text(s, t, ln),
        match alias {
            Some(a) => Some(token_text(s, t, a)),
            None => None,
        },
        byte_at(s, t[ns].1),
        byte_at(s, t[ln].2),
    )
}

/// The observable result of parsing `s`: the program (statement kind and
/// source occurrences), the diagnostics and the completeness flag.
pub open spec fn parse_outcome(s: Seq<char>) -> (
    Option<(QueryStatementKind, Seq<OccurrenceView>)>,
    Seq<DiagnosticView>,
    bool,
) {
    match program_parse(s) {
        Ok(source) => (
            Some((QueryStatementKind::Select, seq![occurrence_of(s, source)])),
            Seq::empty(),
            true,
        ),
        Err(d) => (None, seq![d], false),
    }
}

/// One direct persistent source occurrence parsed from raw query text.
#[derive(Debug, Clone, PartialEq, Eq)]
pub struct QuerySourceOccurrence {
    raw_spelling: String,
    category: QuerySourceCategory,
    namespace: String,
    local_name: String,
    alias: Option<String>,
    location: QueryTextRange,
}

impl View for QuerySourceOccurrence {
    type V = OccurrenceView;

    closed spec fn view(&self) -> OccurrenceView {
        (
            self.category,
            self.raw_spelling@,
            self.namespace@,
            self.local_name@,
            match self.alias {
                Some(a) => Some(a@),
                None => None,
            },
            self.location@.0,
            self.location@.1,
        )
    }
}

impl QuerySourceOccurrence {
    /// Returns the source spelling exactly as it appeared in the raw query text.
    pub fn raw_spelling(&self) -> (r: &str)
        ensures
            r@ == self@.1,
    {
        self.raw_spelling.as_str()
    }

    /// Returns the normalized persistent source category.
    pub fn category(&self) -> (r: QuerySourceCategory)
        ensures
            r == self@.0,
    {
        self.category
    }

    /// Returns the namespace spelling exactly as it appeared in the raw query text.
    pub fn namespace(&self) -> (r: &str)
        ensures
            r@ == self@.2,
    {
        self.namespace.as_str()
    }

    /// Returns the local metadata name exactly as it appeared in the raw query text.
    pub fn local_name(&self) -> (r: &str)
        ensures
            r@ == self@.3,
    {
        self.local_name.as_str()
    }

    /// Returns the optional source alias.
    pub fn alias(&self) -> (r: Option<&str>)
        ensures
            match r {
                Some(a) => self@.4 == Some(a@),
                None => self@.4 is None,
            },
    {
        match &self.alias {
            Some(a) => Some(a.as_str()),
            None => None,
        }
    }

    /// Returns the source range in the raw query text.
    pub fn location(&self) -> (r: QueryTextRange)
        ensures
            r@ == (self@.5, self@.6),
    {
        self.location
    }
}

/// Completely parsed program accepted by the parser.
#[derive(Debug, Clone, PartialEq, Eq)]
pub struct ParsedQueryProgram {
    statement_kind: QueryStatementKind,
    sources: Vec<QuerySourceOccurrence>,
}

impl View for ParsedQueryProgram {
    type V = (QueryStatementKind, Seq<OccurrenceView>);

    closed spec fn view(&self) -> (QueryStatementKind, Seq<OccurrenceView>) {
        (self.statement_kind, self.sources@.map_values(|o: QuerySourceOccurrence| o@))
    }
}

impl ParsedQueryProgram {
    /// Returns the parsed top-level statement category.
    pub fn statement_kind(&self) -> (r: QueryStatementKind)
        ensures
            r == self@.0,
    {
        self.statement_kind
    }

    /// Returns direct source occurrences in raw query-text order.
    pub fn sources(&self) -> (r: &[QuerySourceOccurrence])
        ensures
            r@.map_values(|o: QuerySourceOccurrence| o@) == self@.1,
    {
        self.sources.as_slice()
    }
}

/// Structured deterministic diagnostic for raw query-language input.
#[derive(Debug, Clone, Copy, PartialEq, Eq)]
pub struct QueryLanguageDiagnostic {
    kind: QueryLanguageDiagnosticKind,
    message: &'static str,
    location: QueryTextRange,
}

impl View for QueryLanguageDiagnostic {
    type V = DiagnosticView;

    closed spec fn view(&self) -> DiagnosticView {
        (self.kind, self.message@, self.location@.0, self.location@.1)
    }
}

impl QueryLanguageDiagnostic {
    fn new(kind: QueryLanguageDiagnosticKind, message: &'static str, location: QueryTextRange) -> (r:
        Self)
        ensures
            r@ == (kind, message@, location@.0, location@.1),
    {
        QueryLanguageDiagnostic { kind, message, location }
    }

    /// Returns the typed diagnostic category.
    pub fn kind(self) -> (r: QueryLanguageDiagnosticKind)
        ensures
            r == self@.0,
    {
        self.kind
    }

    /// Returns the stable English diagnostic message.
    pub fn message(self) -> (r: &'static str)
        ensures
            r@ == self@.1,
    {
        self.message
    }

    /// Returns the diagnostic range in the raw query text.
    pub fn location(self) -> (r: QueryTextRange)
        ensures
            r@ == (self@.2, self@.3),
    {
        self.location
    }
}

/// Result of parsing one raw query-language program: a program only when the
/// complete source set was proved, otherwise exactly one diagnostic.
#[derive(Debug, Clone, PartialEq, Eq)]
pub struct QueryLanguageParseResult {
    program: Option<ParsedQueryProgram>,
    diagnostics: Vec<QueryLanguageDiagnostic>,
    complete_source_set: bool,
}

impl View for QueryLanguageParseResult {
    type V = (Option<(QueryStatementKind, Seq<OccurrenceView>)>, Seq<DiagnosticView>, bool);

    closed spec fn view(&self) -> (
        Option<(QueryStatementKind, Seq<OccurrenceView>)>,
        Seq<DiagnosticView>,
        bool,
    ) {
        (
            match self.program {
                Some(p) => Some(p@),
                None => None,
            },
            self.diagnostics@.map_values(|d: QueryLanguageDiagnostic| d@),
            self.complete_source_set,
        )
    }
}

impl QueryLanguageParseResult {
    fn accepted(program: ParsedQueryProgram) -> (r: Self)
        ensures
            r@ == (Some(program@), Seq::<DiagnosticView>::empty(), true),
    {
        let r = QueryLanguageParseResult {
            program: Some(program),
            diagnostics: Vec::new(),
            complete_source_set: true,
        };
        assert(r.diagnostics@.map_values(|d: QueryLanguageDiagnostic| d@) =~= Seq::empty());
        r
    }

    fn rejected(diagnostic: QueryLanguageDiagnostic) -> (r: Self)
        ensures
            r@ == (None::<(QueryStatementKind, Seq<OccurrenceView>)>, seq![diagnostic@], false),
    {
        let mut diagnostics = Vec::new();
        diagnostics.push(diagnostic);
        let r = QueryLanguageParseResult { program: None, diagnostics, complete_source_set: false };
        assert(r.diagnostics@.map_values(|d: QueryLanguageDiagnostic| d@) =~= seq![diagnostic@]);
        r
    }

    /// Returns the parsed program only after complete proof of its source set.
    pub fn program(&self) -> (r: Option<&ParsedQueryProgram>)
        ensures
            match r {
                Some(p) => self@.0 == Some(p@),
                None => self@.0 is None,
            },
    {
        match &self.program {
            Some(p) => Some(p),
            None => None,
        }
    }

    /// Returns deterministic diagnostics in raw query-text order.
    pub fn diagnostics(&self) -> (r: &[QueryLanguageDiagnostic])
        ensures
            r@.map_values(|d: QueryLanguageDiagnostic| d@) == self@.1,
    {
        self.diagnostics.as_slice()
    }

    /// Returns whether the complete accepted source set was proved.
    pub fn is_source_set_complete(&self) -> (r: bool)
        ensures
            r == self@.2,
    {
        self.complete_source_set
    }
}

/// Parser for the minimum repository-backed 1C query-language slice.
#[derive(Debug, Default, Clone, Copy)]
pub struct QueryLanguageParser;

impl QueryLanguageParser {
    /// Parses one complete raw query-language program.
    pub fn parse(&self, source: &str) -> (r: QueryLanguageParseResult)
        ensures
            r@ == parse_outcome(source@),
    {
        let mut parser = Parser::new(source);
        match parser.parse_program() {
            Ok(program) => QueryLanguageParseResult::accepted(program),
            Err(diagnostic) => QueryLanguageParseResult::rejected(diagnostic),
        }
    }
}

struct Parser {
    chars: Vec<char>,
    tokens: Vec<Token>,
    cursor: usize,
}

impl Parser {
    spec fn toks(&self) -> Seq<(TokenKind, int, int)> {
        self.tokens@.map_values(|t: Token| token_view(t))
    }

    spec fn wf(&self) -> bool {
        &&& tokens_wf(self.chars@, self.tokens@)
        &&& self.cursor < self.tokens@.len()
    }

    proof fn lemma_shape(&self)
        requires
            self.wf(),
        ensures
            self.toks() == lex(self.chars@),
            self.toks().len() == self.tokens@.len(),
            self.tokens@.len() >= 1,
            self.toks().last().0 == TokenKind::EndOfInput,
            forall|k: int|
                0 <= k < self.tokens@.len() ==> #[trigger] self.toks()[k] == token_view(
                    self.tokens@[k],
                ),
            forall|k: int|
                0 <= k < self.tokens@.len() ==> {
                    &&& (#[trigger] self.tokens@[k]).start <= self.tokens@[k].end
                    &&& self.tokens@[k].end <= self.chars@.len()
                },
    {
        lemma_lex_from_shape(self.chars@, 0);
        assert forall|k: int| 0 <= k < self.tokens@.len() implies {
            &&& (#[trigger] self.tokens@[k]).start <= self.tokens@[k].end
            &&& self.tokens@[k].end <= self.chars@.len()
        } by {
            assert(self.toks()[k] == token_view(self.tokens@[k]));
        }
    }

    fn new(source: &str) -> (r: Self)
        ensures
            r.wf(),
            r.chars@ == source@,
            r.cursor == 0,
    {
        let chars = chars_of(source);
        let tokens = tokenize(&chars);
        proof {
            lemma_lex_from_shape(chars@, 0);
            assert(tokens@.map_values(|t: Token| token_view(t)).len() == tokens@.len());
        }
        Parser { chars, tokens, cursor: 0 }
    }

    fn current(&self) -> (r: Token)
        requires
            self.wf(),
        ensures
            r == self.tokens@[self.cursor as int],
            token_view(r) == self.toks()[self.cursor as int],
    {
        proof {
            self.lemma_shape();
        }
        self.tokens[self.cursor]
    }

    fn advance(&mut self)
        requires
            old(self).wf(),
        ensures
            final(self).wf(),
            final(self).chars == old(self).chars,
            final(self).tokens == old(self).tokens,
            final(self).cursor as int == adv(old(self).toks(), old(self).cursor as int),
    {
        proof {
            self.lemma_shape();
        }
        if self.cursor < self.tokens.len() - 1 {
            self.cursor = self.cursor + 1;
        }
    }

    fn word_matches(&self, expected: &str) -> (r: bool)
        requires
            self.wf(),
        ensures
            r == word_is(self.chars@, self.toks(), self.cursor as int, expected@),
    {
        proof {
            self.lemma_shape();
        }
        let token = self.current();
        match token.kind {
            TokenKind::Word => range_eq(&self.chars, token.start, token.end, expected),
            _ => false,
        }
    }

    fn consume_word(&mut self, expected: &str) -> (r: bool)
        requires
            old(self).wf(),
        ensures
            final(self).wf(),
            final(self).chars == old(self).chars,
            final(self).tokens == old(self).tokens,
            r == word_is(old(self).chars@, old(self).toks(), old(self).cursor as int, expected@),
            final(self).cursor as int == if r {
                adv(old(self).toks(), old(self).cursor as int)
            } else {
                old(self).cursor as int
            },
    {
        if self.word_matches(expected) {
            self.advance();
            true
        } else {
            false
        }
    }

    fn malformed_current(&self, message: &'static str) -> (r: QueryLanguageDiagnostic)
        requires
            self.wf(),
        ensures
            r@ == malformed_at(self.chars@, self.toks(), self.cursor as int, message@),
    {
        let token = self.current();
        QueryLanguageDiagnostic::new(
            QueryLanguageDiagnosticKind::MalformedSyntax,
            message,
            QueryTextRange::new(token.start_byte, token.end_byte),
        )
    }

    /// Consumes one word token and returns its index.
    fn expect_identifier(&mut self, message: &'static str) -> (r: Result<
        usize,
        QueryLanguageDiagnostic,
    >)
        requires
            old(self).wf(),
        ensures
            final(self).wf(),
            final(self).chars == old(self).chars,
            final(self).tokens == old(self).tokens,
            old(self).toks()[old(self).cursor as int].0 == TokenKind::Word ==> r == Ok::<
                usize,
                QueryLanguageDiagnostic,
            >(old(self).cursor) && final(self).cursor as int == adv(
                old(self).toks(),
                old(self).cursor as int,
            ),
            old(self).toks()[old(self).cursor as int].0 != TokenKind::Word ==> r is Err && r->Err_0@ == malformed_at(
                old(self).chars@,
                old(self).toks(),
                old(self).cursor as int,
                message@,
            ),
    {
        let token = self.current();
        match token.kind {
            TokenKind::Word => {
                let index = self.cursor;
                self.advance();
                Ok(index)
            },
            _ => Err(self.malformed_current(message)),
        }
    }

    fn expect_kind(&mut self, kind: TokenKind, message: &'static str) -> (r: Result<
        (),
        QueryLanguageDiagnostic,
    >)
        requires
            old(self).wf(),
        ensures
            final(self).wf(),
            final(self).chars == old(self).chars,
            final(self).tokens == old(self).tokens,
            old(self).toks()[old(self).cursor as int].0 == kind ==> r is Ok && final(self).cursor as int
                == adv(old(self).toks(), old(self).cursor as int),
            old(self).toks()[old(self).cursor as int].0 != kind ==> r is Err && r->Err_0@ == malformed_at(old(self).chars@, old(self).toks(), old(self).cursor as int, message@),
    {
        let token = self.current();
        if token.kind == kind {
            self.advance();
            Ok(())
        } else {
            Err(self.malformed_current(message))
        }
    }

    fn expect_number(&mut self, message: &'static str) -> (r: Result<(), QueryLanguageDiagnostic>)
        requires
            old(self).wf(),
        ensures
            final(self).wf(),
            final(self).chars == old(self).chars,
            final(self).tokens == old(self).tokens,
            old(self).toks()[old(self).cursor as int].0 == TokenKind::Number ==> r is Ok
                && final(self).cursor as int == adv(old(self).toks(), old(self).cursor as int),
            old(self).toks()[old(self).cursor as int].0 != TokenKind::Number ==> r is Err && r->Err_0@ == malformed_at(
                old(self).chars@,
                old(self).toks(),
                old(self).cursor as int,
                message@,
            ),
    {
        self.expect_kind(TokenKind::Number, message)
    }

    fn expect_dot(&mut self, message: &'static str) -> (r: Result<(), QueryLanguageDiagnostic>)
        requires
            old(self).wf(),
        ensures
            final(self).wf(),
            final(self).chars == old(self).chars,
            final(self).tokens == old(self).tokens,
            old(self).toks()[old(self).cursor as int].0 == TokenKind::Dot ==> r is Ok
                && final(self).cursor as int == adv(old(self).toks(), old(self).cursor as int),
            old(self).toks()[old(self).cursor as int].0 != TokenKind::Dot ==> r is Err && r->Err_0@ == malformed_at(
                old(self).chars@,
                old(self).toks(),
                old(self).cursor as int,
                message@,
            ),
    {
        self.expect_kind(TokenKind::Dot, message)
    }

    fn parse_identifier_path(&mut self, message: &'static str) -> (r: Result<
        (),
        QueryLanguageDiagnostic,
    >)
        requires
            old(self).wf(),
        ensures
            final(self).wf(),
            final(self).chars == old(self).chars,
            final(self).tokens == old(self).tokens,
            match identifier_path(
                old(self).chars@,
                old(self).toks(),
                old(self).cursor as int,
                message@,
            ) {
                Ok(c) => r is Ok && final(self).cursor as int == c,
                Err(d) => r is Err && r->Err_0@ == d,
            },
    {
        let ghost s = self.chars@;
        let ghost t = self.toks();
        self.expect_identifier(message)?;
        loop
            invariant
                self.wf(),
                self.chars == old(self).chars,
                self.tokens == old(self).tokens,
                self.chars@ == s,
                self.toks() == t,
                identifier_path(s, t, old(self).cursor as int, message@) == dot_tail(
                    s,
                    t,
                    self.cursor as int,
                ),
            decreases t.len() - self.cursor,
        {
            proof {
                self.lemma_shape();
            }
            let token = self.current();
            if token.kind != TokenKind::Dot {
                return Ok(());
            }
            let before = self.cursor;
            self.advance();
            self.expect_identifier("expected an identifier after '.'")?;
            assert(self.cursor > before);
        }
    }

    fn parse_source(&mut self) -> (r: Result<QuerySourceOccurrence, QueryLanguageDiagnostic>)
        requires
            old(self).wf(),
        ensures
            final(self).wf(),
            final(self).chars == old(self).chars,
            final(self).tokens == old(self).tokens,
            match data_source(old(self).chars@, old(self).toks(), old(self).cursor as int) {
                Ok((category, ns, ln, c)) => r is Ok && final(self).cursor as int == c
                    && r->Ok_0@ == occurrence_of(old(self).chars@, (category, ns, ln, None)),
                Err(d) => r is Err && r->Err_0@ == d,
            },
    {
        proof {
            self.lemma_shape();
        }
        let ghost s = self.chars@;
        let ghost t = self.toks();
        let first = self.current();
        if first.kind == TokenKind::Ampersand {
            let start = first.start_byte;
            self.advance();
            let name = self.current();
            match name.kind {
                TokenKind::Word => {},
                _ => {
                    return Err(self.malformed_current("expected a parameter name after '&'"));
                },
            }
            let end = name.end_byte;
            self.advance();
            return Err(
                QueryLanguageDiagnostic::new(
                    QueryLanguageDiagnosticKind::ExternalOrParameterDataSource,
                    "parameter data source is unsupported in the minimum query-language slice",
                    QueryTextRange::new(start, end),
                ),
            );
        }
        let namespace_index = self.expect_identifier("expected a data-source namespace")?;
        self.expect_dot("expected '.' in the qualified data-source name")?;
        let local_index = self.expect_identifier("expected a local metadata name")?;
        let namespace_token = self.tokens[namespace_index];
        let local_token = self.tokens[local_index];
        proof {
            self.lemma_shape();
            assert(t[namespace_index as int] == token_view(namespace_token));
            assert(t[local_index as int] == token_view(local_token));
        }
        let category = if range_eq(&self.chars, namespace_token.start, namespace_token.end, "Catalog")
            || range_eq(&self.chars, namespace_token.start, namespace_token.end, "Справочник") {
            QuerySourceCategory::Catalog
        } else if range_eq(
            &self.chars,
            namespace_token.start,
            namespace_token.end,
            "InformationRegister",
        ) {
            QuerySourceCategory::InformationRegister
        } else {
            return Err(
                QueryLanguageDiagnostic::new(
                    QueryLanguageDiagnosticKind::UnsupportedPersistentNamespace,
                    "persistent namespace is outside the minimum query-language slice",
                    QueryTextRange::new(namespace_token.start_byte, namespace_token.end_byte),
                ),
            );
        };
        proof {
            lemma_lex_from_shape(s, 0);
            assert(namespace_token.start <= local_token.end);
        }
        let raw_spelling = string_of_range(&self.chars, namespace_token.start, local_token.end);
        let namespace = string_of_range(&self.chars, namespace_token.start, namespace_token.end);
        let local_name = string_of_range(&self.chars, local_token.start, local_token.end);
        Ok(
            QuerySourceOccurrence {
                raw_spelling,
                category,
                namespace,
                local_name,
                alias: None,
                location: QueryTextRange::new(namespace_token.start_byte, local_token.end_byte),
            },
        )
    }

    fn parse_head(&mut self) -> (r: Result<bool, QueryLanguageDiagnostic>)
        requires
            old(self).wf(),
            old(self).cursor == 0,
        ensures
            final(self).wf(),
            final(self).chars == old(self).chars,
            final(self).tokens == old(self).tokens,
            match head_parse(old(self).chars@) {
                Ok((english, c)) => r == Ok::<bool, QueryLanguageDiagnostic>(english)
                    && final(self).cursor as int == c,
                Err(d) => r is Err && r->Err_0@ == d,
            },
    {
        proof {
            self.lemma_shape();
        }
        let english = self.word_matches("SELECT");
        let russian = self.word_matches("ВЫБРАТЬ");
        if !english && !russian {
            return Err(
                self.malformed_current(
                    "expected the exact SELECT or ВЫБРАТЬ keyword at program start",
                ),
            );
        }
        self.advance();
        if english && self.consume_word("TOP") {
            self.expect_number("expected a numeric TOP limit")?;
        }
        self.parse_identifier_path("expected a projection identifier")?;
        let source_keyword = if english {
            "FROM"
        } else {
            "ИЗ"
        };
        if !self.consume_word(source_keyword) {
            return Err(self.malformed_current("expected the matching source-clause keyword"));
        }
        Ok(english)
    }

    fn parse_program(&mut self) -> (r: Result<ParsedQueryProgram, QueryLanguageDiagnostic>)
        requires
            old(self).wf(),
            old(self).cursor == 0,
        ensures
            match program_parse(old(self).chars@) {
                Ok(source) => r is Ok && r->Ok_0@ == (
                    QueryStatementKind::Select,
                    seq![occurrence_of(old(self).chars@, source)],
                ),
                Err(d) => r is Err && r->Err_0@ == d,
            },
    {
        let ghost s = self.chars@;
        let ghost t = self.toks();
        let english = self.parse_head()?;
        let mut source = self.parse_source()?;
        if english && self.consume_word("AS") {
            let alias_index = self.expect_identifier("expected a source alias after AS")?;
            let alias_token = self.tokens[alias_index];
            proof {
                self.lemma_shape();
                assert(t[alias_index as int] == token_view(alias_token));
            }
            source.alias = Some(string_of_range(&self.chars, alias_token.start, alias_token.end));
        }
        let last = self.current();
        if last.kind != TokenKind::EndOfInput {
            return Err(self.malformed_current("unexpected unconsumed input after the data source"));
        }
        let mut sources = Vec::new();
        sources.push(source);
        let program = ParsedQueryProgram { statement_kind: QueryStatementKind::Select, sources };
        assert(program.sources@.map_values(|o: QuerySourceOccurrence| o@) =~= seq![source@]);
        Ok(program)
    }
}

/// A parse is accepted exactly when it proves the complete source set, and a
/// rejected parse carries exactly one diagnostic and no partial program.
pub proof fn law_parse_outcome_is_all_or_nothing(s: Seq<char>)
    ensures
        parse_outcome(s).2 <==> parse_outcome(s).0 is Some,
        parse_outcome(s).2 <==> parse_outcome(s).1.len() == 0,
        !parse_outcome(s).2 ==> parse_outcome(s).1.len() == 1,
        parse_outcome(s).0 matches Some(p) ==> p.1.len() == 1,
{
}

/// An accepted source's raw spelling is exactly the query text between its
/// namespace start and local-name end, and it is `Namespace.Name`.
pub proof fn law_raw_spelling_is_source_text(s: Seq<char>)
    requires
        program_parse(s) is Ok,
    ensures
        ({
            let t = lex(s);
            let (category, ns, ln, alias) = program_parse(s)->Ok_0;
            &&& occurrence_of(s, (category, ns, ln, alias)).1 == s.subrange(t[ns].1, t[ln].2)
            &&& occurrence_of(s, (category, ns, ln, alias)).5 == byte_at(s, t[ns].1)
            &&& occurrence_of(s, (category, ns, ln, alias)).6 == byte_at(s, t[ln].2)
        }),
{
}

} // verus!
