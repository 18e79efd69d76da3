//! Translation of a concrete syntax tree, as the grammar's parser produces it,
//! into the syntax tree of the language.
//!
//! Where the concrete tree does not have the shape that the grammar gives it
//! (a child missing, a range outside the source), the translation has no
//! result: the functions return `None`.

use vstd::prelude::*;
use vstd::utf8::{valid_utf8, decode_utf8, encode_utf8};

use crate::ast::{Span, Spanned, Expression, StructField, Pattern, PatternField, CaseBranch,
    BinaryOperator, UnaryOperator, SpanV, SpannedV, ExpressionV, StructFieldV, PatternV, PatternFieldV,
    CaseBranchV, struct_fields_view, pattern_fields_view, spanned_expression_view, branches_view};
use crate::text::{same_text, decimal, decimal_string, debug_quoted, debug_quoted_string, utf8_string,
    parse_i64, parse_i64_spec};

verus! {

// ------------------------------------------------------------------
// The concrete syntax tree
// ------------------------------------------------------------------

/// A position in the source: a row and a column, both from zero.
#[derive(Debug, Clone, Copy, PartialEq, Eq, Structural)]
pub struct Point {
    pub row: usize,
    pub column: usize,
}

/// A node of the concrete syntax tree.
#[derive(Debug)]
pub struct SyntaxNode {
    /// The grammar rule or token that the node stands for.
    pub kind: String,
    /// The byte range of the node in the source.
    pub start_byte: usize,
    pub end_byte: usize,
    pub start_position: Point,
    pub end_position: Point,
    /// The bit pattern of the 64-bit float that the node's text reads as, if
    /// it reads as one.
    pub float_bits: Option<u64>,
    /// The named children, in order.
    pub children: Vec<SyntaxNode>,
    /// The kinds of the anonymous children (the tokens), in order.
    pub tokens: Vec<String>,
}

/// The bit pattern of positive infinity.
pub const INFINITY_BITS: u64 = 0x7ff0_0000_0000_0000;

/// The bit pattern of the quiet NaN.
pub const NAN_BITS: u64 = 0x7ff8_0000_0000_0000;

// ------------------------------------------------------------------
// Escape sequences
// ------------------------------------------------------------------

/// What `unescaper::unescape` gives for a text: the text with its escape
/// sequences replaced, or the message of the error it reports.
pub uninterp spec fn unescaped(s: Seq<char>) -> Result<Seq<char>, Seq<char>>;

/// Whether a text holds a backslash.
pub open spec fn has_backslash(s: Seq<char>) -> bool {
    s.contains('\\')
}

/// A text that comes through as it is.
pub open spec fn plain_text(s: Seq<char>) -> Result<Seq<char>, Seq<char>> {
    Ok(s)
}

/// The model of a result that holds a text or a message.
pub open spec fn text_result(r: &Result<String, String>) -> Result<Seq<char>, Seq<char>> {
    match r {
        Ok(t) => Ok(t@),
        Err(m) => Err(m@),
    }
}

/// `unescaper::unescape`, with the error turned into its message.  Its
/// contract names the result, and states that a text without a backslash
/// comes back unchanged (the crate copies every character other than a
/// backslash as it is).
#[verifier::external_body]
fn unescape(s: &str) -> (r: Result<String, String>)
    ensures
        text_result(&r) == unescaped(s@),
        !has_backslash(s@) ==> text_result(&r) == plain_text(s@),
{
    match unescaper::unescape(s) {
        Ok(t) => Ok(t),
        Err(e) => Err(e.to_string()),
    }
}

// ------------------------------------------------------------------
// The translation in the model
// ------------------------------------------------------------------

/// The span of a node.
pub open spec fn node_span(file: Seq<char>, n: SyntaxNode) -> SpanV {
    SpanV {
        file,
        start_line: n.start_position.row,
        start_col: n.start_position.column,
        end_line: n.end_position.row,
        end_col: n.end_position.column,
    }
}

/// The text of a node: the characters its bytes encode, or nothing when
/// they are not well-formed UTF-8; no text when its range is not within the
/// source.
pub open spec fn node_text(src: Seq<u8>, n: SyntaxNode) -> Option<Seq<char>> {
    if n.start_byte <= n.end_byte && n.end_byte <= src.len() {
        let b = src.subrange(n.start_byte as int, n.end_byte as int);
        Some(if valid_utf8(b) { decode_utf8(b) } else { Seq::empty() })
    } else {
        None
    }
}

/// What `Debug` writes for a span, its file written as a path.
pub open spec fn span_debug(s: SpanV) -> Seq<char> {
    "Span { file: "@ + debug_quoted(s.file) + ", start_line: "@ + decimal(s.start_line as nat)
        + ", start_col: "@ + decimal(s.start_col as nat) + ", end_line: "@ + decimal(
        s.end_line as nat,
    ) + ", end_col: "@ + decimal(s.end_col as nat) + " }"@
}

/// The text between the outer double quotes of a string literal, when it has them.
pub open spec fn strip_quotes(raw: Seq<char>) -> Seq<char> {
    if raw.len() >= 2 && raw[0] == '"' && raw.last() == '"' {
        raw.subrange(1, raw.len() - 1)
    } else {
        raw
    }
}

/// The binary operator that a node kind stands for.
pub open spec fn binary_kind(k: Seq<char>) -> Option<BinaryOperator> {
    if k == "add"@ {
        Some(BinaryOperator::Add)
    } else if k == "subtract"@ {
        Some(BinaryOperator::Subtract)
    } else if k == "multiply"@ {
        Some(BinaryOperator::Multiply)
    } else if k == "divide"@ {
        Some(BinaryOperator::Divide)
    } else if k == "modulo"@ {
        Some(BinaryOperator::Modulo)
    } else if k == "greater_than"@ {
        Some(BinaryOperator::GreaterThan)
    } else if k == "greater_than_or_equal"@ {
        Some(BinaryOperator::GreaterThanOrEqual)
    } else if k == "equal"@ {
        Some(BinaryOperator::Equal)
    } else if k == "less_than"@ {
        Some(BinaryOperator::LessThan)
    } else if k == "less_than_or_equal"@ {
        Some(BinaryOperator::LessThanOrEqual)
    } else if k == "and"@ {
        Some(BinaryOperator::And)
    } else if k == "or"@ {
        Some(BinaryOperator::Or)
    } else if k == "set_all"@ {
        Some(BinaryOperator::PutAll)
    } else if k == "pass_as_argument"@ {
        Some(BinaryOperator::PassAsArgument)
    } else {
        None
    }
}

/// The unary operator that a node kind stands for.
pub open spec fn unary_kind(k: Seq<char>) -> Option<UnaryOperator> {
    if k == "negate"@ {
        Some(UnaryOperator::Negate)
    } else if k == "not"@ {
        Some(UnaryOperator::Not)
    } else {
        None
    }
}

/// A node of the syntax tree with the given span.
pub open spec fn spanned<T>(node: T, span: SpanV) -> SpannedV<T> {
    SpannedV { node, span }
}

/// A translated expression.
pub open spec fn done(span: SpanV, e: ExpressionV) -> Option<Result<SpannedV<ExpressionV>, Seq<char>>> {
    Some(Ok(spanned(e, span)))
}

/// Whether a node has a `=` among its children.
pub open spec fn has_eq_child(n: SyntaxNode) -> bool {
    (exists|i: int| 0 <= i < n.children@.len() && (#[trigger] n.children@[i]).kind@ == "="@)
        || (exists|i: int| 0 <= i < n.tokens@.len() && (#[trigger] n.tokens@[i])@ == "="@)
}

/// The translation of the first named child of a node.
pub open spec fn first_spec(src: Seq<u8>, file: Seq<char>, n: SyntaxNode) -> Option<Result<SpannedV<ExpressionV>, Seq<char>>>
    decreases n, 3int, 0int,
{
    if n.children@.len() < 1 {
        None
    } else {
        expr_spec(src, file, n.children@[0])
    }
}

/// The translations of the first two named children of a node, in order.
pub open spec fn pair_spec(src: Seq<u8>, file: Seq<char>, n: SyntaxNode) -> Option<
    Result<(SpannedV<ExpressionV>, SpannedV<ExpressionV>), Seq<char>>,
>
    decreases n, 3int, 0int,
{
    if n.children@.len() < 1 {
        None
    } else {
        match expr_spec(src, file, n.children@[0]) {
            None => None,
            Some(Err(m)) => Some(Err(m)),
            Some(Ok(a)) => if n.children@.len() < 2 {
                None
            } else {
                match expr_spec(src, file, n.children@[1]) {
                    None => None,
                    Some(Err(m)) => Some(Err(m)),
                    Some(Ok(b)) => Some(Ok((a, b))),
                }
            },
        }
    }
}

/// The translation of an expression node.
pub open spec fn expr_spec(src: Seq<u8>, file: Seq<char>, n: SyntaxNode) -> Option<Result<SpannedV<ExpressionV>, Seq<char>>>
    decreases n, 4int, 0int,
{
    let span = node_span(file, n);
    let k = n.kind@;
    let cs = n.children@;
    if k == "identifier"@ {
        match node_text(src, n) {
            None => None,
            Some(t) => done(span, ExpressionV::Identifier(t)),
        }
    } else if k == "bool"@ {
        match node_text(src, n) {
            None => None,
            Some(t) => done(span, ExpressionV::Boolean(t == "true"@)),
        }
    } else if k == "integer"@ {
        match node_text(src, n) {
            None => None,
            Some(t) => match parse_i64_spec(encode_utf8(t)) {
                Some(i) => done(span, ExpressionV::Integer(i)),
                None => Some(Err("Invalid integer at "@ + span_debug(span))),
            },
        }
    } else if k == "float"@ {
        match node_text(src, n) {
            None => None,
            Some(t) => if t == "inf"@ || t == "infinity"@ {
                done(span, ExpressionV::Float(INFINITY_BITS))
            } else if t == "NaN"@ {
                done(span, ExpressionV::Float(NAN_BITS))
            } else {
                match n.float_bits {
                    Some(b) => done(span, ExpressionV::Float(b)),
                    None => Some(Err("Invalid float at "@ + span_debug(span))),
                }
            },
        }
    } else if k == "string"@ {
        match node_text(src, n) {
            None => None,
            Some(t) => match unescaped(strip_quotes(t)) {
                Ok(u) => done(span, ExpressionV::Str(u)),
                Err(m) => Some(Err("Malformed string: "@ + m + "."@)),
            },
        }
    } else if k == "path"@ {
        match node_text(src, n) {
            None => None,
            Some(t) => done(span, ExpressionV::Path(t)),
        }
    } else if k == "structure"@ {
        match struct_fields_spec(src, file, n, cs.len() as int) {
            None => None,
            Some(Err(m)) => Some(Err(m)),
            Some(Ok(fields)) => done(span, ExpressionV::Structure(fields)),
        }
    } else if k == "function"@ {
        match pattern_spec(src, file, n) {
            None => None,
            Some(Err(m)) => Some(Err(m)),
            Some(Ok((pattern, consumed))) => if consumed < cs.len() {
                match expr_spec(src, file, cs[consumed as int]) {
                    None => None,
                    Some(Err(m)) => Some(Err(m)),
                    Some(Ok(body)) => done(span, ExpressionV::Function { pattern, body: Box::new(body) }),
                }
            } else {
                None
            },
        }
    } else if k == "if"@ {
        match pair_spec(src, file, n) {
            None => None,
            Some(Err(m)) => Some(Err(m)),
            Some(Ok((c, t))) => if cs.len() < 3 {
                None
            } else {
                match expr_spec(src, file, cs[2]) {
                    None => None,
                    Some(Err(m)) => Some(Err(m)),
                    Some(Ok(e)) => done(
                        span,
                        ExpressionV::If {
                            condition: Box::new(c),
                            then_branch: Box::new(t),
                            else_branch: Box::new(e),
                        },
                    ),
                }
            },
        }
    } else if k == "cases"@ {
        match first_spec(src, file, n) {
            None => None,
            Some(Err(m)) => Some(Err(m)),
            Some(Ok(target)) => match cases_spec(src, file, n, cs.len() as int) {
                None => None,
                Some(Err(m)) => Some(Err(m)),
                Some(Ok((branches, default))) => done(
                    span,
                    ExpressionV::Cases { target: Box::new(target), branches, default },
                ),
            },
        }
    } else if k == "field_get"@ {
        match first_spec(src, file, n) {
            None => None,
            Some(Err(m)) => Some(Err(m)),
            Some(Ok(target)) => if cs.len() < 2 {
                None
            } else {
                match node_text(src, cs[1]) {
                    None => None,
                    Some(field) => done(span, ExpressionV::FieldGet { target: Box::new(target), field }),
                }
            },
        }
    } else if k == "get"@ {
        match pair_spec(src, file, n) {
            None => None,
            Some(Err(m)) => Some(Err(m)),
            Some(Ok((target, index))) => done(
                span,
                ExpressionV::IndexGet { target: Box::new(target), index: Box::new(index) },
            ),
        }
    } else if k == "call"@ {
        match pair_spec(src, file, n) {
            None => None,
            Some(Err(m)) => Some(Err(m)),
            Some(Ok((func, arg))) => done(span, ExpressionV::Call { func: Box::new(func), arg: Box::new(arg) }),
        }
    } else if k == "include"@ {
        match first_spec(src, file, n) {
            None => None,
            Some(Err(m)) => Some(Err(m)),
            Some(Ok(target)) => done(span, ExpressionV::Include(Box::new(target))),
        }
    } else if binary_kind(k) is Some {
        match pair_spec(src, file, n) {
            None => None,
            Some(Err(m)) => Some(Err(m)),
            Some(Ok((lhs, rhs))) => done(
                span,
                ExpressionV::BinaryOp { op: binary_kind(k)->0, lhs: Box::new(lhs), rhs: Box::new(rhs) },
            ),
        }
    } else if unary_kind(k) is Some {
        match first_spec(src, file, n) {
            None => None,
            Some(Err(m)) => Some(Err(m)),
            Some(Ok(e)) => done(span, ExpressionV::UnaryOp { op: unary_kind(k)->0, expr: Box::new(e) }),
        }
    } else if cs.len() == 1 {
        expr_spec(src, file, cs[0])
    } else {
        Some(Err("Unrecognized syntax node: "@ + k))
    }
}

/// The node kinds that stand for an expression of their own.
pub open spec fn expression_kind(k: Seq<char>) -> bool {
    ||| k == "identifier"@
    ||| k == "bool"@
    ||| k == "integer"@
    ||| k == "float"@
    ||| k == "string"@
    ||| k == "path"@
    ||| k == "structure"@
    ||| k == "function"@
    ||| k == "if"@
    ||| k == "cases"@
    ||| k == "field_get"@
    ||| k == "get"@
    ||| k == "call"@
    ||| k == "include"@
    ||| binary_kind(k) is Some
    ||| unary_kind(k) is Some
}

/// Law: a node of another kind with a single named child, such as the node
/// of the whole source, translates as that child, span included.
pub proof fn law_transparent_wrapper(src: Seq<u8>, file: Seq<char>, n: SyntaxNode)
    requires
        !expression_kind(n.kind@),
        n.children@.len() == 1,
    ensures
        expr_spec(src, file, n) == expr_spec(src, file, n.children@[0]),
{
}

/// Law: an `if` node translates to the conditional whose condition is the
/// translation of its first named child, whose then-branch is that of its
/// second and whose else-branch is that of its third, spanning the node.
pub proof fn law_if_translation(
    src: Seq<u8>,
    file: Seq<char>,
    n: SyntaxNode,
    c: SpannedV<ExpressionV>,
    t: SpannedV<ExpressionV>,
    e: SpannedV<ExpressionV>,
)
    requires
        n.kind@ == "if"@,
        n.children@.len() >= 3,
        expr_spec(src, file, n.children@[0]) == Some(Ok::<SpannedV<ExpressionV>, Seq<char>>(c)),
        expr_spec(src, file, n.children@[1]) == Some(Ok::<SpannedV<ExpressionV>, Seq<char>>(t)),
        expr_spec(src, file, n.children@[2]) == Some(Ok::<SpannedV<ExpressionV>, Seq<char>>(e)),
    ensures
        expr_spec(src, file, n) == Some(Ok::<SpannedV<ExpressionV>, Seq<char>>(SpannedV {
            node: ExpressionV::If {
                condition: Box::new(c),
                then_branch: Box::new(t),
                else_branch: Box::new(e),
            },
            span: node_span(file, n),
        })),
{
    reveal_strlit("if");
    reveal_strlit("identifier");
    reveal_strlit("bool");
    reveal_strlit("integer");
    reveal_strlit("float");
    reveal_strlit("string");
    reveal_strlit("path");
    reveal_strlit("structure");
    reveal_strlit("function");
    assert(pair_spec(src, file, n) == Some(Ok::<(SpannedV<ExpressionV>, SpannedV<ExpressionV>), Seq<char>>((c, t))));
    assert(n.kind@.len() == 2);
    assert("identifier"@.len() == 10);
    assert("bool"@.len() == 4);
    assert("integer"@.len() == 7);
    assert("float"@.len() == 5);
    assert("string"@.len() == 6);
    assert("path"@.len() == 4);
    assert("structure"@.len() == 9);
    assert("function"@.len() == 8);
}

/// The fields of a structure among its first `count` named children.
pub open spec fn struct_fields_spec(src: Seq<u8>, file: Seq<char>, n: SyntaxNode, count: int) -> Option<
    Result<Seq<SpannedV<StructFieldV>>, Seq<char>>,
>
    decreases n, 3int, count,
{
    if count <= 0 || count > n.children@.len() {
        Some(Ok(Seq::empty()))
    } else {
        match struct_fields_spec(src, file, n, count - 1) {
            None => None,
            Some(Err(m)) => Some(Err(m)),
            Some(Ok(fields)) => {
                let c = n.children@[count - 1];
                if c.kind@ == "structure_field"@ {
                    match field_spec(src, file, c) {
                        None => None,
                        Some(Err(m)) => Some(Err(m)),
                        Some(Ok(f)) => Some(Ok(fields.push(f))),
                    }
                } else {
                    Some(Ok(fields))
                }
            },
        }
    }
}

/// The translation of a structure field node.
pub open spec fn field_spec(src: Seq<u8>, file: Seq<char>, n: SyntaxNode) -> Option<Result<SpannedV<StructFieldV>, Seq<char>>>
    decreases n, 4int, 0int,
{
    let span = node_span(file, n);
    if n.children@.len() == 2 {
        match pair_spec(src, file, n) {
            None => None,
            Some(Err(m)) => Some(Err(m)),
            Some(Ok((key, value))) => Some(Ok(spanned(StructFieldV::KeyValue(key, value), span))),
        }
    } else {
        match first_spec(src, file, n) {
            None => None,
            Some(Err(m)) => Some(Err(m)),
            Some(Ok(e)) => Some(
                Ok(
                    spanned(
                        if has_eq_child(n) {
                            StructFieldV::ValueOnly(e)
                        } else {
                            StructFieldV::Identifier(e)
                        },
                        span,
                    ),
                ),
            ),
        }
    }
}

/// The pattern that the named children of `n` begin with, and how many of
/// them it takes.
pub open spec fn pattern_spec(src: Seq<u8>, file: Seq<char>, n: SyntaxNode) -> Option<
    Result<(SpannedV<PatternV>, int), Seq<char>>,
>
    decreases n, 2int, 0int,
{
    let cs = n.children@;
    if cs.len() == 0 {
        Some(Err("Expected pattern, found nothing"@))
    } else {
        let first = cs[0];
        let span = node_span(file, first);
        if first.kind@ == "identifier"@ {
            if cs.len() > 1 && cs[1].kind@ == "structural_pattern"@ {
                match node_text(src, first) {
                    None => None,
                    Some(identifier) => match structural_spec(src, file, cs[1]) {
                        None => None,
                        Some(Err(m)) => Some(Err(m)),
                        Some(Ok(structure)) => {
                            let s = node_span(file, cs[1]);
                            let combined = SpanV { end_line: s.end_line, end_col: s.end_col, ..span };
                            Some(Ok((spanned(PatternV::BoundStructural { identifier, structure }, combined), 2)))
                        },
                    },
                }
            } else {
                match node_text(src, first) {
                    None => None,
                    Some(t) => Some(Ok((spanned(PatternV::Identifier(t), span), 1))),
                }
            }
        } else if first.kind@ == "structural_pattern"@ {
            match structural_spec(src, file, first) {
                None => None,
                Some(Err(m)) => Some(Err(m)),
                Some(Ok(fields)) => Some(Ok((spanned(PatternV::Structured(fields), span), 1))),
            }
        } else {
            Some(Err("Unexpected pattern starting node: "@ + first.kind@))
        }
    }
}

/// The fields of a structural pattern node.
pub open spec fn structural_spec(src: Seq<u8>, file: Seq<char>, n: SyntaxNode) -> Option<
    Result<Seq<SpannedV<PatternFieldV>>, Seq<char>>,
>
    decreases n, 4int, 0int,
{
    pattern_fields_spec(src, file, n, n.children@.len() as int)
}

/// The fields of a structural pattern among its first `count` named children.
pub open spec fn pattern_fields_spec(src: Seq<u8>, file: Seq<char>, n: SyntaxNode, count: int) -> Option<
    Result<Seq<SpannedV<PatternFieldV>>, Seq<char>>,
>
    decreases n, 3int, count,
{
    if count <= 0 || count > n.children@.len() {
        Some(Ok(Seq::empty()))
    } else {
        match pattern_fields_spec(src, file, n, count - 1) {
            None => None,
            Some(Err(m)) => Some(Err(m)),
            Some(Ok(fields)) => {
                let c = n.children@[count - 1];
                let gs = c.children@;
                let span = node_span(file, c);
                if c.kind@ != "pattern_field"@ {
                    Some(Ok(fields))
                } else if gs.len() == 2 {
                    match node_text(src, gs[0]) {
                        None => None,
                        Some(identifier) => match structural_spec(src, file, gs[1]) {
                            None => None,
                            Some(Err(m)) => Some(Err(m)),
                            Some(Ok(structure)) => Some(
                                Ok(fields.push(spanned(PatternFieldV::BoundStructural { identifier, structure }, span))),
                            ),
                        },
                    }
                } else if gs.len() == 0 {
                    None
                } else if gs[0].kind@ == "structural_pattern"@ {
                    match structural_spec(src, file, gs[0]) {
                        None => None,
                        Some(Err(m)) => Some(Err(m)),
                        Some(Ok(structure)) => Some(Ok(fields.push(spanned(PatternFieldV::Structured(structure), span)))),
                    }
                } else {
                    match node_text(src, gs[0]) {
                        None => None,
                        Some(t) => Some(Ok(fields.push(spanned(PatternFieldV::Identifier(t), span)))),
                    }
                }
            },
        }
    }
}

/// The branches and the default of a `cases` node among its first `count`
/// named children.
pub open spec fn cases_spec(src: Seq<u8>, file: Seq<char>, n: SyntaxNode, count: int) -> Option<
    Result<(Seq<SpannedV<CaseBranchV>>, Option<Box<SpannedV<ExpressionV>>>), Seq<char>>,
>
    decreases n, 3int, count,
{
    if count <= 0 || count > n.children@.len() {
        Some(Ok((Seq::empty(), None)))
    } else {
        match cases_spec(src, file, n, count - 1) {
            None => None,
            Some(Err(m)) => Some(Err(m)),
            Some(Ok((branches, default))) => {
                let c = n.children@[count - 1];
                if c.kind@ == "case"@ {
                    match case_spec(src, file, c) {
                        None => None,
                        Some(Err(m)) => Some(Err(m)),
                        Some(Ok(b)) => Some(Ok((branches.push(b), default))),
                    }
                } else if c.kind@ == "default"@ {
                    match first_spec(src, file, c) {
                        None => None,
                        Some(Err(m)) => Some(Err(m)),
                        Some(Ok(d)) => Some(Ok((branches, Some(Box::new(d))))),
                    }
                } else {
                    Some(Ok((branches, default)))
                }
            },
        }
    }
}

/// The translation of a `case` node.
pub open spec fn case_spec(src: Seq<u8>, file: Seq<char>, n: SyntaxNode) -> Option<Result<SpannedV<CaseBranchV>, Seq<char>>>
    decreases n, 4int, 0int,
{
    let span = node_span(file, n);
    let cs = n.children@;
    match pattern_spec(src, file, n) {
        None => None,
        Some(Err(m)) => Some(Err(m)),
        Some(Ok((pattern, consumed))) => {
            if cs.len() - consumed == 2 {
                match expr_spec(src, file, cs[consumed]) {
                    None => None,
                    Some(Err(m)) => Some(Err(m)),
                    Some(Ok(guard)) => match expr_spec(src, file, cs[consumed + 1]) {
                        None => None,
                        Some(Err(m)) => Some(Err(m)),
                        Some(Ok(body)) => Some(
                            Ok(spanned(CaseBranchV { pattern, guard: Some(Box::new(guard)), body: Box::new(body) }, span)),
                        ),
                    },
                }
            } else if consumed < cs.len() {
                match expr_spec(src, file, cs[consumed]) {
                    None => None,
                    Some(Err(m)) => Some(Err(m)),
                    Some(Ok(body)) => Some(Ok(spanned(CaseBranchV { pattern, guard: None, body: Box::new(body) }, span))),
                }
            } else {
                None
            }
        },
    }
}

// ------------------------------------------------------------------
// Models of the translator's results
// ------------------------------------------------------------------

pub open spec fn text_outcome(r: &Option<String>) -> Option<Seq<char>> {
    match r {
        Some(t) => Some(t@),
        None => None,
    }
}

pub open spec fn expr_outcome(r: &Option<Result<Spanned<Expression>, String>>) -> Option<
    Result<SpannedV<ExpressionV>, Seq<char>>,
> {
    match r {
        None => None,
        Some(Ok(e)) => Some(Ok(e@)),
        Some(Err(m)) => Some(Err(m@)),
    }
}

pub open spec fn pair_outcome(r: &Option<Result<(Spanned<Expression>, Spanned<Expression>), String>>) -> Option<
    Result<(SpannedV<ExpressionV>, SpannedV<ExpressionV>), Seq<char>>,
> {
    match r {
        None => None,
        Some(Ok((a, b))) => Some(Ok((a@, b@))),
        Some(Err(m)) => Some(Err(m@)),
    }
}

pub open spec fn fields_outcome(r: &Option<Result<Vec<Spanned<StructField>>, String>>) -> Option<
    Result<Seq<SpannedV<StructFieldV>>, Seq<char>>,
> {
    match r {
        None => None,
        Some(Ok(fs)) => Some(Ok(struct_fields_view(fs@))),
        Some(Err(m)) => Some(Err(m@)),
    }
}

pub open spec fn field_outcome(r: &Option<Result<Spanned<StructField>, String>>) -> Option<
    Result<SpannedV<StructFieldV>, Seq<char>>,
> {
    match r {
        None => None,
        Some(Ok(f)) => Some(Ok(f@)),
        Some(Err(m)) => Some(Err(m@)),
    }
}

pub open spec fn pattern_outcome(r: &Option<Result<(Spanned<Pattern>, usize), String>>) -> Option<
    Result<(SpannedV<PatternV>, int), Seq<char>>,
> {
    match r {
        None => None,
        Some(Ok((p, c))) => Some(Ok((p@, c as int))),
        Some(Err(m)) => Some(Err(m@)),
    }
}

pub open spec fn pattern_fields_outcome(r: &Option<Result<Vec<Spanned<PatternField>>, String>>) -> Option<
    Result<Seq<SpannedV<PatternFieldV>>, Seq<char>>,
> {
    match r {
        None => None,
        Some(Ok(fs)) => Some(Ok(pattern_fields_view(fs@))),
        Some(Err(m)) => Some(Err(m@)),
    }
}

pub open spec fn default_view(d: &Option<Box<Spanned<Expression>>>) -> Option<Box<SpannedV<ExpressionV>>> {
    match d {
        Some(e) => Some(Box::new(spanned_expression_view(&**e))),
        None => None,
    }
}

pub open spec fn cases_outcome(
    r: &Option<Result<(Vec<Spanned<CaseBranch>>, Option<Box<Spanned<Expression>>>), String>>,
) -> Option<Result<(Seq<SpannedV<CaseBranchV>>, Option<Box<SpannedV<ExpressionV>>>), Seq<char>>> {
    match r {
        None => None,
        Some(Ok((bs, d))) => Some(Ok((branches_view(bs@), default_view(d)))),
        Some(Err(m)) => Some(Err(m@)),
    }
}

pub open spec fn case_outcome(r: &Option<Result<Spanned<CaseBranch>, String>>) -> Option<
    Result<SpannedV<CaseBranchV>, Seq<char>>,
> {
    match r {
        None => None,
        Some(Ok(b)) => Some(Ok(b@)),
        Some(Err(m)) => Some(Err(m@)),
    }
}

// ------------------------------------------------------------------
// Once a step fails, the steps after it do not run
// ------------------------------------------------------------------

proof fn lemma_struct_fields_stop(src: Seq<u8>, file: Seq<char>, n: SyntaxNode, k: int, count: int)
    requires
        0 < k <= count <= n.children@.len(),
        !(struct_fields_spec(src, file, n, k) is Some && struct_fields_spec(src, file, n, k)->0 is Ok),
    ensures
        struct_fields_spec(src, file, n, count) == struct_fields_spec(src, file, n, k),
    decreases count - k,
{
    if count > k {
        lemma_struct_fields_stop(src, file, n, k, count - 1);
    }
}

proof fn lemma_pattern_fields_stop(src: Seq<u8>, file: Seq<char>, n: SyntaxNode, k: int, count: int)
    requires
        0 < k <= count <= n.children@.len(),
        !(pattern_fields_spec(src, file, n, k) is Some && pattern_fields_spec(src, file, n, k)->0 is Ok),
    ensures
        pattern_fields_spec(src, file, n, count) == pattern_fields_spec(src, file, n, k),
    decreases count - k,
{
    if count > k {
        lemma_pattern_fields_stop(src, file, n, k, count - 1);
    }
}

proof fn lemma_cases_stop(src: Seq<u8>, file: Seq<char>, n: SyntaxNode, k: int, count: int)
    requires
        0 < k <= count <= n.children@.len(),
        !(cases_spec(src, file, n, k) is Some && cases_spec(src, file, n, k)->0 is Ok),
    ensures
        cases_spec(src, file, n, count) == cases_spec(src, file, n, k),
    decreases count - k,
{
    if count > k {
        lemma_cases_stop(src, file, n, k, count - 1);
    }
}

// ------------------------------------------------------------------
// Small pieces of text
// ------------------------------------------------------------------

/// `prefix` followed by `rest`.
fn joined(prefix: &str, rest: &str) -> (r: String)
    ensures
        r@ == prefix@ + rest@,
{
    let mut r = prefix.to_owned();
    r.append(rest);
    r
}

/// What `Debug` writes for a span, its file written as a path.
pub fn span_debug_string(span: &Span) -> (r: String)
    ensures
        r@ == span_debug(span@),
{
    let mut r = "Span { file: ".to_owned();
    r.append(&debug_quoted_string(span.file.as_str()));
    r.append(", start_line: ");
    r.append(&decimal_string(span.start_line));
    r.append(", start_col: ");
    r.append(&decimal_string(span.start_col));
    r.append(", end_line: ");
    r.append(&decimal_string(span.end_line));
    r.append(", end_col: ");
    r.append(&decimal_string(span.end_col));
    r.append(" }");
    r
}

/// The text between the outer double quotes of a string literal, when it has them.
pub fn strip_quotes_string(raw: String) -> (r: String)
    ensures
        r@ == strip_quotes(raw@),
{
    let n = raw.as_str().unicode_len();
    if n >= 2 && raw.as_str().get_char(0) == '"' && raw.as_str().get_char(n - 1) == '"' {
        raw.as_str().substring_char(1, n - 1).to_owned()
    } else {
        raw
    }
}

/// The binary operator that a node kind stands for.
fn binary_kind_of(k: &str) -> (r: Option<BinaryOperator>)
    ensures
        r == binary_kind(k@),
{
    if same_text(k, "add") {
        Some(BinaryOperator::Add)
    } else if same_text(k, "subtract") {
        Some(BinaryOperator::Subtract)
    } else if same_text(k, "multiply") {
        Some(BinaryOperator::Multiply)
    } else if same_text(k, "divide") {
        Some(BinaryOperator::Divide)
    } else if same_text(k, "modulo") {
        Some(BinaryOperator::Modulo)
    } else if same_text(k, "greater_than") {
        Some(BinaryOperator::GreaterThan)
    } else if same_text(k, "greater_than_or_equal") {
        Some(BinaryOperator::GreaterThanOrEqual)
    } else if same_text(k, "equal") {
        Some(BinaryOperator::Equal)
    } else if same_text(k, "less_than") {
        Some(BinaryOperator::LessThan)
    } else if same_text(k, "less_than_or_equal") {
        Some(BinaryOperator::LessThanOrEqual)
    } else if same_text(k, "and") {
        Some(BinaryOperator::And)
    } else if same_text(k, "or") {
        Some(BinaryOperator::Or)
    } else if same_text(k, "set_all") {
        Some(BinaryOperator::PutAll)
    } else if same_text(k, "pass_as_argument") {
        Some(BinaryOperator::PassAsArgument)
    } else {
        None
    }
}

/// The unary operator that a node kind stands for.
fn unary_kind_of(k: &str) -> (r: Option<UnaryOperator>)
    ensures
        r == unary_kind(k@),
{
    if same_text(k, "negate") {
        Some(UnaryOperator::Negate)
    } else if same_text(k, "not") {
        Some(UnaryOperator::Not)
    } else {
        None
    }
}

/// Whether a node has a `=` among its children.
fn has_eq(node: &SyntaxNode) -> (r: bool)
    ensures
        r == has_eq_child(*node),
{
    let mut i: usize = 0;
    while i < node.children.len()
        invariant
            i <= node.children@.len(),
            forall|j: int| 0 <= j < i ==> (#[trigger] node.children@[j]).kind@ != "="@,
        decreases node.children.len() - i,
    {
        if same_text(node.children[i].kind.as_str(), "=") {
            return true;
        }
        i = i + 1;
    }
    let mut j: usize = 0;
    while j < node.tokens.len()
        invariant
            j <= node.tokens@.len(),
            forall|k: int| 0 <= k < j ==> (#[trigger] node.tokens@[k])@ != "="@,
        decreases node.tokens.len() - j,
    {
        if same_text(node.tokens[j].as_str(), "=") {
            return true;
        }
        j = j + 1;
    }
    false
}

// ------------------------------------------------------------------
// The translator
// ------------------------------------------------------------------

/// Translates the concrete syntax tree of a source into the syntax tree.
pub struct Translator<'a> {
    source: &'a [u8],
    file: String,
}

impl<'a> Translator<'a> {
    /// The source that the tree was parsed from.
    pub closed spec fn spec_source(&self) -> Seq<u8> {
        self.source@
    }

    /// The name of the source, which spans carry.
    pub closed spec fn spec_file(&self) -> Seq<char> {
        self.file@
    }

    pub fn new(source: &'a [u8], file: String) -> (r: Self)
        ensures
            r.spec_source() == source@,
            r.spec_file() == file@,
    {
        Self { source, file }
    }

    /// Entry point for translation: the tree's root.
    pub fn translate(&self, tree: &SyntaxNode) -> (r: Option<Result<Spanned<Expression>, String>>)
        ensures
            expr_outcome(&r) == expr_spec(self.spec_source(), self.spec_file(), *tree),
    {
        self.parse_expr(tree)
    }

    /// The span of a node.
    pub fn span(&self, node: &SyntaxNode) -> (r: Span)
        ensures
            r@ == node_span(self.spec_file(), *node),
    {
        Span {
            file: self.file.clone(),
            start_line: node.start_position.row,
            start_col: node.start_position.column,
            end_line: node.end_position.row,
            end_col: node.end_position.column,
        }
    }

    /// The text of a node; empty when its bytes are not well-formed UTF-8.
    pub fn text(&self, node: &SyntaxNode) -> (r: Option<String>)
        ensures
            text_outcome(&r) == node_text(self.spec_source(), *node),
    {
        if node.start_byte <= node.end_byte && node.end_byte <= self.source.len() {
            let bytes = &self.source[node.start_byte..node.end_byte];
            match utf8_string(bytes) {
                Some(t) => Some(t),
                None => Some(String::new()),
            }
        } else {
            None
        }
    }

    /// The translation of the first named child.
    fn first_expr(&self, node: &SyntaxNode) -> (r: Option<Result<Spanned<Expression>, String>>)
        ensures
            expr_outcome(&r) == first_spec(self.spec_source(), self.spec_file(), *node),
        decreases node, 3int,
    {
        if node.children.len() < 1 {
            None
        } else {
            self.parse_expr(&node.children[0])
        }
    }

    /// The translations of the first two named children.
    fn pair_expr(&self, node: &SyntaxNode) -> (r: Option<Result<(Spanned<Expression>, Spanned<Expression>), String>>)
        ensures
            pair_outcome(&r) == pair_spec(self.spec_source(), self.spec_file(), *node),
        decreases node, 3int,
    {
        if node.children.len() < 1 {
            return None;
        }
        match self.parse_expr(&node.children[0]) {
            None => None,
            Some(Err(m)) => Some(Err(m)),
            Some(Ok(a)) => {
                if node.children.len() < 2 {
                    return None;
                }
                match self.parse_expr(&node.children[1]) {
                    None => None,
                    Some(Err(m)) => Some(Err(m)),
                    Some(Ok(b)) => Some(Ok((a, b))),
                }
            },
        }
    }

    /// Core expression translation.
    pub fn parse_expr(&self, node: &SyntaxNode) -> (r: Option<Result<Spanned<Expression>, String>>)
        ensures
            expr_outcome(&r) == expr_spec(self.spec_source(), self.spec_file(), *node),
        decreases node, 4int,
    {
        let span = self.span(node);
        let k = node.kind.as_str();
        let expr = if same_text(k, "identifier") {
            match self.text(node) {
                None => return None,
                Some(t) => Expression::Identifier(t),
            }
        } else if same_text(k, "bool") {
            match self.text(node) {
                None => return None,
                Some(t) => Expression::Boolean(same_text(t.as_str(), "true")),
            }
        } else if same_text(k, "integer") {
            match self.text(node) {
                None => return None,
                Some(t) => match parse_i64(t.as_str().as_bytes()) {
                    Some(i) => Expression::Integer(i),
                    None => return Some(Err(joined("Invalid integer at ", span_debug_string(&span).as_str()))),
                },
            }
        } else if same_text(k, "float") {
            match self.text(node) {
                None => return None,
                Some(t) => if same_text(t.as_str(), "inf") || same_text(t.as_str(), "infinity") {
                    Expression::Float(INFINITY_BITS)
                } else if same_text(t.as_str(), "NaN") {
                    Expression::Float(NAN_BITS)
                } else {
                    match node.float_bits {
                        Some(b) => Expression::Float(b),
                        None => return Some(Err(joined("Invalid float at ", span_debug_string(&span).as_str()))),
                    }
                },
            }
        } else if same_text(k, "string") {
            match self.text(node) {
                None => return None,
                Some(t) => {
                    let content = strip_quotes_string(t);
                    match unescape(content.as_str()) {
                        Ok(u) => Expression::String(u),
                        Err(m) => {
                            let mut msg = joined("Malformed string: ", m.as_str());
                            msg.append(".");
                            return Some(Err(msg));
                        },
                    }
                },
            }
        } else if same_text(k, "path") {
            match self.text(node) {
                None => return None,
                Some(t) => Expression::Path(t),
            }
        } else if same_text(k, "structure") {
            match self.parse_structure_fields(node) {
                None => return None,
                Some(Err(m)) => return Some(Err(m)),
                Some(Ok(fields)) => Expression::Structure(fields),
            }
        } else if same_text(k, "function") {
            match self.parse_pattern(node) {
                None => return None,
                Some(Err(m)) => return Some(Err(m)),
                Some(Ok((pattern, consumed))) => {
                    if consumed >= node.children.len() {
                        return None;
                    }
                    match self.parse_expr(&node.children[consumed]) {
                        None => return None,
                        Some(Err(m)) => return Some(Err(m)),
                        Some(Ok(body)) => Expression::Function { pattern, body: Box::new(body) },
                    }
                },
            }
        } else if same_text(k, "if") {
            match self.pair_expr(node) {
                None => return None,
                Some(Err(m)) => return Some(Err(m)),
                Some(Ok((condition, then_branch))) => {
                    if node.children.len() < 3 {
                        return None;
                    }
                    match self.parse_expr(&node.children[2]) {
                        None => return None,
                        Some(Err(m)) => return Some(Err(m)),
                        Some(Ok(else_branch)) => Expression::If {
                            condition: Box::new(condition),
                            then_branch: Box::new(then_branch),
                            else_branch: Box::new(else_branch),
                        },
                    }
                },
            }
        } else if same_text(k, "cases") {
            match self.first_expr(node) {
                None => return None,
                Some(Err(m)) => return Some(Err(m)),
                Some(Ok(target)) => match self.parse_cases(node) {
                    None => return None,
                    Some(Err(m)) => return Some(Err(m)),
                    Some(Ok((branches, default))) => Expression::Cases { target: Box::new(target), branches, default },
                },
            }
        } else if same_text(k, "field_get") {
            match self.first_expr(node) {
                None => return None,
                Some(Err(m)) => return Some(Err(m)),
                Some(Ok(target)) => {
                    if node.children.len() < 2 {
                        return None;
                    }
                    match self.text(&node.children[1]) {
                        None => return None,
                        Some(field) => Expression::FieldGet { target: Box::new(target), field },
                    }
                },
            }
        } else if same_text(k, "get") {
            match self.pair_expr(node) {
                None => return None,
                Some(Err(m)) => return Some(Err(m)),
                Some(Ok((target, index))) => Expression::IndexGet { target: Box::new(target), index: Box::new(index) },
            }
        } else if same_text(k, "call") {
            match self.pair_expr(node) {
                None => return None,
                Some(Err(m)) => return Some(Err(m)),
                Some(Ok((func, arg))) => Expression::Call { func: Box::new(func), arg: Box::new(arg) },
            }
        } else if same_text(k, "include") {
            match self.first_expr(node) {
                None => return None,
                Some(Err(m)) => return Some(Err(m)),
                Some(Ok(target)) => Expression::Include(Box::new(target)),
            }
        } else {
            match binary_kind_of(k) {
                Some(op) => match self.pair_expr(node) {
                    None => return None,
                    Some(Err(m)) => return Some(Err(m)),
                    Some(Ok((lhs, rhs))) => Expression::BinaryOp { op, lhs: Box::new(lhs), rhs: Box::new(rhs) },
                },
                None => match unary_kind_of(k) {
                    Some(op) => match self.first_expr(node) {
                        None => return None,
                        Some(Err(m)) => return Some(Err(m)),
                        Some(Ok(e)) => Expression::UnaryOp { op, expr: Box::new(e) },
                    },
                    None => {
                        // Transparent wrappers (like the source file)
                        if node.children.len() == 1 {
                            return self.parse_expr(&node.children[0]);
                        }
                        return Some(Err(joined("Unrecognized syntax node: ", k)));
                    },
                },
            }
        };
        Some(Ok(Spanned::new(expr, span)))
    }

    /// The fields of a structure node.
    fn parse_structure_fields(&self, node: &SyntaxNode) -> (r: Option<Result<Vec<Spanned<StructField>>, String>>)
        ensures
            fields_outcome(&r) == struct_fields_spec(
                self.spec_source(),
                self.spec_file(),
                *node,
                node.children@.len() as int,
            ),
        decreases node, 3int,
    {
        let ghost src = self.spec_source();
        let ghost file = self.spec_file();
        let mut fields: Vec<Spanned<StructField>> = Vec::new();
        let mut i: usize = 0;
        while i < node.children.len()
            invariant
                i <= node.children@.len(),
                src == self.spec_source(),
                file == self.spec_file(),
                struct_fields_spec(src, file, *node, i as int) == Some(
                    Ok::<Seq<SpannedV<StructFieldV>>, Seq<char>>(struct_fields_view(fields@)),
                ),
            decreases node.children.len() - i,
        {
            let child = &node.children[i];
            if same_text(child.kind.as_str(), "structure_field") {
                match self.parse_structure_field(child) {
                    None => {
                        proof {
                            lemma_struct_fields_stop(src, file, *node, i + 1, node.children@.len() as int);
                        }
                        return None;
                    },
                    Some(Err(m)) => {
                        proof {
                            lemma_struct_fields_stop(src, file, *node, i + 1, node.children@.len() as int);
                        }
                        return Some(Err(m));
                    },
                    Some(Ok(f)) => {
                        let ghost before = fields@;
                        fields.push(f);
                        assert(fields@.drop_last() =~= before);
                    },
                }
            }
            i = i + 1;
        }
        Some(Ok(fields))
    }

    /// Parses a structure field.
    fn parse_structure_field(&self, node: &SyntaxNode) -> (r: Option<Result<Spanned<StructField>, String>>)
        ensures
            field_outcome(&r) == field_spec(self.spec_source(), self.spec_file(), *node),
        decreases node, 4int,
    {
        let span = self.span(node);
        let field = if node.children.len() == 2 {
            match self.pair_expr(node) {
                None => return None,
                Some(Err(m)) => return Some(Err(m)),
                Some(Ok((key, value))) => StructField::KeyValue(key, value),
            }
        } else {
            let eq = has_eq(node);
            match self.first_expr(node) {
                None => return None,
                Some(Err(m)) => return Some(Err(m)),
                Some(Ok(e)) => if eq {
                    StructField::ValueOnly(e)
                } else {
                    StructField::Identifier(e)
                },
            }
        };
        Some(Ok(Spanned::new(field, span)))
    }

    /// Parses the pattern that the named children of `parent` begin with, and
    /// says how many of them it takes.
    pub fn parse_pattern(&self, parent: &SyntaxNode) -> (r: Option<Result<(Spanned<Pattern>, usize), String>>)
        ensures
            pattern_outcome(&r) == pattern_spec(self.spec_source(), self.spec_file(), *parent),
            r matches Some(Ok((_, c))) ==> 1 <= c <= parent.children@.len(),
        decreases parent, 2int,
    {
        let nodes = &parent.children;
        if nodes.len() == 0 {
            return Some(Err("Expected pattern, found nothing".to_owned()));
        }
        let first = &nodes[0];
        let span = self.span(first);
        if same_text(first.kind.as_str(), "identifier") {
            if nodes.len() > 1 && same_text(nodes[1].kind.as_str(), "structural_pattern") {
                // Bound structural: |ident: {a, b}|
                let ident = match self.text(first) {
                    None => return None,
                    Some(t) => t,
                };
                let struct_span = self.span(&nodes[1]);
                let fields = match self.parse_structural_pattern(&nodes[1]) {
                    None => return None,
                    Some(Err(m)) => return Some(Err(m)),
                    Some(Ok(fs)) => fs,
                };
                let combined_span = Span { end_line: struct_span.end_line, end_col: struct_span.end_col, ..span };
                let pat = Pattern::BoundStructural { identifier: ident, structure: fields };
                Some(Ok((Spanned::new(pat, combined_span), 2)))
            } else {
                // Simple identifier: |ident|
                match self.text(first) {
                    None => None,
                    Some(t) => Some(Ok((Spanned::new(Pattern::Identifier(t), span), 1))),
                }
            }
        } else if same_text(first.kind.as_str(), "structural_pattern") {
            // Structural: |{a, b}|
            match self.parse_structural_pattern(first) {
                None => None,
                Some(Err(m)) => Some(Err(m)),
                Some(Ok(fields)) => Some(Ok((Spanned::new(Pattern::Structured(fields), span), 1))),
            }
        } else {
            Some(Err(joined("Unexpected pattern starting node: ", first.kind.as_str())))
        }
    }

    /// Parses the fields of a structural pattern.
    pub fn parse_structural_pattern(&self, node: &SyntaxNode) -> (r: Option<Result<Vec<Spanned<PatternField>>, String>>)
        ensures
            pattern_fields_outcome(&r) == structural_spec(self.spec_source(), self.spec_file(), *node),
        decreases node, 4int,
    {
        let ghost src = self.spec_source();
        let ghost file = self.spec_file();
        let mut fields: Vec<Spanned<PatternField>> = Vec::new();
        let mut i: usize = 0;
        while i < node.children.len()
            invariant
                i <= node.children@.len(),
                src == self.spec_source(),
                file == self.spec_file(),
                pattern_fields_spec(src, file, *node, i as int) == Some(
                    Ok::<Seq<SpannedV<PatternFieldV>>, Seq<char>>(pattern_fields_view(fields@)),
                ),
            decreases node.children.len() - i,
        {
            let child = &node.children[i];
            if same_text(child.kind.as_str(), "pattern_field") {
                let children = &child.children;
                let field_span = self.span(child);
                let field = if children.len() == 2 {
                    let identifier = match self.text(&children[0]) {
                        None => {
                            proof {
                                lemma_pattern_fields_stop(src, file, *node, i + 1, node.children@.len() as int);
                            }
                            return None;
                        },
                        Some(t) => t,
                    };
                    match self.parse_structural_pattern(&children[1]) {
                        None => {
                            proof {
                                lemma_pattern_fields_stop(src, file, *node, i + 1, node.children@.len() as int);
                            }
                            return None;
                        },
                        Some(Err(m)) => {
                            proof {
                                lemma_pattern_fields_stop(src, file, *node, i + 1, node.children@.len() as int);
                            }
                            return Some(Err(m));
                        },
                        Some(Ok(structure)) => PatternField::BoundStructural { identifier, structure },
                    }
                } else if children.len() == 0 {
                    proof {
                        lemma_pattern_fields_stop(src, file, *node, i + 1, node.children@.len() as int);
                    }
                    return None;
                } else if same_text(children[0].kind.as_str(), "structural_pattern") {
                    match self.parse_structural_pattern(&children[0]) {
                        None => {
                            proof {
                                lemma_pattern_fields_stop(src, file, *node, i + 1, node.children@.len() as int);
                            }
                            return None;
                        },
                        Some(Err(m)) => {
                            proof {
                                lemma_pattern_fields_stop(src, file, *node, i + 1, node.children@.len() as int);
                            }
                            return Some(Err(m));
                        },
                        Some(Ok(structure)) => PatternField::Structured(structure),
                    }
                } else {
                    match self.text(&children[0]) {
                        None => {
                            proof {
                                lemma_pattern_fields_stop(src, file, *node, i + 1, node.children@.len() as int);
                            }
                            return None;
                        },
                        Some(t) => PatternField::Identifier(t),
                    }
                };
                let ghost before = fields@;
                let ghost fv = field@;
                assert(pattern_fields_spec(src, file, *node, i + 1) == Some(
                    Ok::<Seq<SpannedV<PatternFieldV>>, Seq<char>>(pattern_fields_view(before).push(spanned(fv, field_span@))),
                ));
                fields.push(Spanned::new(field, field_span));
                assert(fields@.drop_last() =~= before);
                assert(pattern_fields_view(fields@) == pattern_fields_view(before).push(spanned(fv, field_span@)));
            }
            i = i + 1;
        }
        Some(Ok(fields))
    }

    /// The branches and the default of a `cases` node.
    fn parse_cases(&self, node: &SyntaxNode) -> (r: Option<
        Result<(Vec<Spanned<CaseBranch>>, Option<Box<Spanned<Expression>>>), String>,
    >)
        ensures
            cases_outcome(&r) == cases_spec(self.spec_source(), self.spec_file(), *node, node.children@.len() as int),
        decreases node, 3int,
    {
        let ghost src = self.spec_source();
        let ghost file = self.spec_file();
        let mut branches: Vec<Spanned<CaseBranch>> = Vec::new();
        let mut default: Option<Box<Spanned<Expression>>> = None;
        let mut i: usize = 0;
        while i < node.children.len()
            invariant
                i <= node.children@.len(),
                src == self.spec_source(),
                file == self.spec_file(),
                cases_spec(src, file, *node, i as int) == Some(
                    Ok::<(Seq<SpannedV<CaseBranchV>>, Option<Box<SpannedV<ExpressionV>>>), Seq<char>>(
                        (branches_view(branches@), default_view(&default)),
                    ),
                ),
            decreases node.children.len() - i,
        {
            let child = &node.children[i];
            if same_text(child.kind.as_str(), "case") {
                match self.parse_case(child) {
                    None => {
                        proof {
                            lemma_cases_stop(src, file, *node, i + 1, node.children@.len() as int);
                        }
                        return None;
                    },
                    Some(Err(m)) => {
                        proof {
                            lemma_cases_stop(src, file, *node, i + 1, node.children@.len() as int);
                        }
                        return Some(Err(m));
                    },
                    Some(Ok(b)) => {
                        let ghost before = branches@;
                        branches.push(b);
                        assert(branches@.drop_last() =~= before);
                    },
                }
            } else if same_text(child.kind.as_str(), "default") {
                match self.first_expr(child) {
                    None => {
                        proof {
                            lemma_cases_stop(src, file, *node, i + 1, node.children@.len() as int);
                        }
                        return None;
                    },
                    Some(Err(m)) => {
                        proof {
                            lemma_cases_stop(src, file, *node, i + 1, node.children@.len() as int);
                        }
                        return Some(Err(m));
                    },
                    Some(Ok(d)) => {
                        default = Some(Box::new(d));
                    },
                }
            }
            i = i + 1;
        }
        Some(Ok((branches, default)))
    }

    /// Parses a single `case` branch: a pattern, an optional guard, and a body.
    fn parse_case(&self, node: &SyntaxNode) -> (r: Option<Result<Spanned<CaseBranch>, String>>)
        ensures
            case_outcome(&r) == case_spec(self.spec_source(), self.spec_file(), *node),
        decreases node, 4int,
    {
        let span = self.span(node);
        let children = &node.children;
        let (pattern, consumed) = match self.parse_pattern(node) {
            None => return None,
            Some(Err(m)) => return Some(Err(m)),
            Some(Ok(pc)) => pc,
        };
        let remaining = children.len() - consumed;
        let (guard, body_index) = if remaining == 2 {
            match self.parse_expr(&children[consumed]) {
                None => return None,
                Some(Err(m)) => return Some(Err(m)),
                Some(Ok(g)) => (Some(Box::new(g)), consumed + 1),
            }
        } else {
            if consumed >= children.len() {
                return None;
            }
            (None, consumed)
        };
        let body = match self.parse_expr(&children[body_index]) {
            None => return None,
            Some(Err(m)) => return Some(Err(m)),
            Some(Ok(b)) => Box::new(b),
        };
        Some(Ok(Spanned::new(CaseBranch { pattern, guard, body }, span)))
    }
}

} // verus!
