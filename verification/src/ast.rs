//! The syntax tree of the language, and its mathematical model.

use vstd::prelude::*;

verus! {

// ------------------------------------------------------------------
// Debug / Location Metadata
// ------------------------------------------------------------------

/// Represents a location in the source code.
#[derive(Debug)]
pub struct Span {
    pub file: String,
    pub start_line: usize,
    pub start_col: usize,
    pub end_line: usize,
    pub end_col: usize,
}

/// A wrapper that attaches source location metadata to any AST node.
#[derive(Debug)]
pub struct Spanned<T> {
    pub node: T,
    pub span: Span,
}

impl<T> Spanned<T> {
    pub fn new(node: T, span: Span) -> (r: Self)
        ensures
            r.node == node,
            r.span == span,
    {
        Self { node, span }
    }
}

// ------------------------------------------------------------------
// Core Expressions
// ------------------------------------------------------------------

#[derive(Debug)]
pub enum Expression {
    // Literals & Atomic Tokens
    Identifier(String),
    Boolean(bool),
    Integer(i64),
    /// The bit pattern of a 64-bit floating-point literal.
    Float(u64),
    String(String),
    Path(String),
    // Structures (record-like literals)
    Structure(Vec<Spanned<StructField>>),
    // Functions and Control Flow
    Function { pattern: Spanned<Pattern>, body: Box<Spanned<Expression>> },
    If {
        condition: Box<Spanned<Expression>>,
        then_branch: Box<Spanned<Expression>>,
        else_branch: Box<Spanned<Expression>>,
    },
    Cases {
        target: Box<Spanned<Expression>>,
        branches: Vec<Spanned<CaseBranch>>,
        default: Option<Box<Spanned<Expression>>>,
    },
    // Operations
    BinaryOp { op: BinaryOperator, lhs: Box<Spanned<Expression>>, rhs: Box<Spanned<Expression>> },
    UnaryOp { op: UnaryOperator, expr: Box<Spanned<Expression>> },
    // Access & Invocation
    FieldGet { target: Box<Spanned<Expression>>, field: String },
    IndexGet { target: Box<Spanned<Expression>>, index: Box<Spanned<Expression>> },
    Call { func: Box<Spanned<Expression>>, arg: Box<Spanned<Expression>> },
    // Code-accessible
    Include(Box<Spanned<Expression>>),
}

// ------------------------------------------------------------------
// Sub-components (Structures, Patterns, Cases)
// ------------------------------------------------------------------

#[derive(Debug)]
pub enum StructField {
    /// E.g., `identifier`
    Identifier(Spanned<Expression>),
    /// E.g., `identifier = expression`
    KeyValue(Spanned<Expression>, Spanned<Expression>),
    /// E.g., `= expression`
    ValueOnly(Spanned<Expression>),
}

#[derive(Debug)]
pub enum Pattern {
    /// E.g., `|ident|`
    Identifier(String),
    /// E.g., `|{a, b}|`
    Structured(Vec<Spanned<PatternField>>),
    /// E.g., `|ident: {a, b}|`
    BoundStructural { identifier: String, structure: Vec<Spanned<PatternField>> },
}

#[derive(Debug)]
pub enum PatternField {
    Identifier(String),
    Structured(Vec<Spanned<PatternField>>),
    BoundStructural { identifier: String, structure: Vec<Spanned<PatternField>> },
}

#[derive(Debug)]
pub struct CaseBranch {
    pub pattern: Spanned<Pattern>,
    pub guard: Option<Box<Spanned<Expression>>>,
    pub body: Box<Spanned<Expression>>,
}

// ------------------------------------------------------------------
// Operators
// ------------------------------------------------------------------

#[derive(Debug, Clone, Copy, PartialEq, Eq, Structural)]
pub enum BinaryOperator {
    // Arithmetic
    Add,
    Subtract,
    Multiply,
    Divide,
    Modulo,
    // Logical & Comparison
    GreaterThan,
    GreaterThanOrEqual,
    Equal,
    LessThan,
    LessThanOrEqual,
    And,
    Or,
    // Structural / General
    PutAll,  // Maps to the `|<` operator
    PassAsArgument,  // Maps to the `->` operator
}

#[derive(Debug, Clone, Copy, PartialEq, Eq, Structural)]
pub enum UnaryOperator {
    Negate,  // Maps to `-` prefix
    Not,  // Maps to `!` prefix
}

// ------------------------------------------------------------------
// Mathematical model
// ------------------------------------------------------------------

pub struct SpanV {
    pub file: Seq<char>,
    pub start_line: usize,
    pub start_col: usize,
    pub end_line: usize,
    pub end_col: usize,
}

pub struct SpannedV<T> {
    pub node: T,
    pub span: SpanV,
}

pub enum ExpressionV {
    Identifier(Seq<char>),
    Boolean(bool),
    Integer(i64),
    Float(u64),
    Str(Seq<char>),
    Path(Seq<char>),
    Structure(Seq<SpannedV<StructFieldV>>),
    Function { pattern: SpannedV<PatternV>, body: Box<SpannedV<ExpressionV>> },
    If {
        condition: Box<SpannedV<ExpressionV>>,
        then_branch: Box<SpannedV<ExpressionV>>,
        else_branch: Box<SpannedV<ExpressionV>>,
    },
    Cases {
        target: Box<SpannedV<ExpressionV>>,
        branches: Seq<SpannedV<CaseBranchV>>,
        default: Option<Box<SpannedV<ExpressionV>>>,
    },
    BinaryOp { op: BinaryOperator, lhs: Box<SpannedV<ExpressionV>>, rhs: Box<SpannedV<ExpressionV>> },
    UnaryOp { op: UnaryOperator, expr: Box<SpannedV<ExpressionV>> },
    FieldGet { target: Box<SpannedV<ExpressionV>>, field: Seq<char> },
    IndexGet { target: Box<SpannedV<ExpressionV>>, index: Box<SpannedV<ExpressionV>> },
    Call { func: Box<SpannedV<ExpressionV>>, arg: Box<SpannedV<ExpressionV>> },
    Include(Box<SpannedV<ExpressionV>>),
}

pub enum StructFieldV {
    Identifier(SpannedV<ExpressionV>),
    KeyValue(SpannedV<ExpressionV>, SpannedV<ExpressionV>),
    ValueOnly(SpannedV<ExpressionV>),
}

pub enum PatternV {
    Identifier(Seq<char>),
    Structured(Seq<SpannedV<PatternFieldV>>),
    BoundStructural { identifier: Seq<char>, structure: Seq<SpannedV<PatternFieldV>> },
}

pub enum PatternFieldV {
    Identifier(Seq<char>),
    Structured(Seq<SpannedV<PatternFieldV>>),
    BoundStructural { identifier: Seq<char>, structure: Seq<SpannedV<PatternFieldV>> },
}

pub struct CaseBranchV {
    pub pattern: SpannedV<PatternV>,
    pub guard: Option<Box<SpannedV<ExpressionV>>>,
    pub body: Box<SpannedV<ExpressionV>>,
}

pub open spec fn span_view(s: &Span) -> SpanV {
    SpanV {
        file: s.file@,
        start_line: s.start_line,
        start_col: s.start_col,
        end_line: s.end_line,
        end_col: s.end_col,
    }
}

pub open spec fn spanned_expression_view(e: &Spanned<Expression>) -> SpannedV<ExpressionV>
    decreases e,
{
    SpannedV { node: expression_view(&e.node), span: span_view(&e.span) }
}

pub open spec fn expression_view(e: &Expression) -> ExpressionV
    decreases e,
{
    match e {
        Expression::Identifier(s) => ExpressionV::Identifier(s@),
        Expression::Boolean(b) => ExpressionV::Boolean(*b),
        Expression::Integer(i) => ExpressionV::Integer(*i),
        Expression::Float(f) => ExpressionV::Float(*f),
        Expression::String(s) => ExpressionV::Str(s@),
        Expression::Path(s) => ExpressionV::Path(s@),
        Expression::Structure(fields) => ExpressionV::Structure(struct_fields_view(fields@)),
        Expression::Function { pattern, body } => ExpressionV::Function {
            pattern: spanned_pattern_view(pattern),
            body: Box::new(spanned_expression_view(&**body)),
        },
        Expression::If { condition, then_branch, else_branch } => ExpressionV::If {
            condition: Box::new(spanned_expression_view(&**condition)),
            then_branch: Box::new(spanned_expression_view(&**then_branch)),
            else_branch: Box::new(spanned_expression_view(&**else_branch)),
        },
        Expression::Cases { target, branches, default } => ExpressionV::Cases {
            target: Box::new(spanned_expression_view(&**target)),
            branches: branches_view(branches@),
            default: match default {
                Some(d) => Some(Box::new(spanned_expression_view(&**d))),
                None => None,
            },
        },
        Expression::BinaryOp { op, lhs, rhs } => ExpressionV::BinaryOp {
            op: *op,
            lhs: Box::new(spanned_expression_view(&**lhs)),
            rhs: Box::new(spanned_expression_view(&**rhs)),
        },
        Expression::UnaryOp { op, expr } => ExpressionV::UnaryOp { op: *op, expr: Box::new(spanned_expression_view(&**expr)) },
        Expression::FieldGet { target, field } => ExpressionV::FieldGet {
            target: Box::new(spanned_expression_view(&**target)),
            field: field@,
        },
        Expression::IndexGet { target, index } => ExpressionV::IndexGet {
            target: Box::new(spanned_expression_view(&**target)),
            index: Box::new(spanned_expression_view(&**index)),
        },
        Expression::Call { func, arg } => ExpressionV::Call {
            func: Box::new(spanned_expression_view(&**func)),
            arg: Box::new(spanned_expression_view(&**arg)),
        },
        Expression::Include(e) => ExpressionV::Include(Box::new(spanned_expression_view(&**e))),
    }
}

pub open spec fn struct_field_view(f: &StructField) -> StructFieldV
    decreases f,
{
    match f {
        StructField::Identifier(e) => StructFieldV::Identifier(spanned_expression_view(e)),
        StructField::KeyValue(k, v) => StructFieldV::KeyValue(
            spanned_expression_view(k),
            spanned_expression_view(v),
        ),
        StructField::ValueOnly(e) => StructFieldV::ValueOnly(spanned_expression_view(e)),
    }
}

pub open spec fn struct_fields_view(s: Seq<Spanned<StructField>>) -> Seq<SpannedV<StructFieldV>>
    decreases s,
{
    if s.len() == 0 {
        Seq::empty()
    } else {
        struct_fields_view(s.drop_last()).push(
            SpannedV { node: struct_field_view(&s.last().node), span: span_view(&s.last().span) },
        )
    }
}

pub open spec fn pattern_view(p: &Pattern) -> PatternV
    decreases p,
{
    match p {
        Pattern::Identifier(s) => PatternV::Identifier(s@),
        Pattern::Structured(fields) => PatternV::Structured(pattern_fields_view(fields@)),
        Pattern::BoundStructural { identifier, structure } => PatternV::BoundStructural {
            identifier: identifier@,
            structure: pattern_fields_view(structure@),
        },
    }
}

pub open spec fn spanned_pattern_view(p: &Spanned<Pattern>) -> SpannedV<PatternV>
    decreases p,
{
    SpannedV { node: pattern_view(&p.node), span: span_view(&p.span) }
}

pub open spec fn pattern_field_view(p: &PatternField) -> PatternFieldV
    decreases p,
{
    match p {
        PatternField::Identifier(s) => PatternFieldV::Identifier(s@),
        PatternField::Structured(fields) => PatternFieldV::Structured(pattern_fields_view(fields@)),
        PatternField::BoundStructural { identifier, structure } => PatternFieldV::BoundStructural {
            identifier: identifier@,
            structure: pattern_fields_view(structure@),
        },
    }
}

pub open spec fn pattern_fields_view(s: Seq<Spanned<PatternField>>) -> Seq<SpannedV<PatternFieldV>>
    decreases s,
{
    if s.len() == 0 {
        Seq::empty()
    } else {
        pattern_fields_view(s.drop_last()).push(
            SpannedV { node: pattern_field_view(&s.last().node), span: span_view(&s.last().span) },
        )
    }
}

pub open spec fn branch_view(b: &CaseBranch) -> CaseBranchV
    decreases b,
{
    CaseBranchV {
        pattern: spanned_pattern_view(&b.pattern),
        guard: match &b.guard {
            Some(g) => Some(Box::new(spanned_expression_view(&**g))),
            None => None,
        },
        body: Box::new(spanned_expression_view(&**&b.body)),
    }
}

pub open spec fn branches_view(s: Seq<Spanned<CaseBranch>>) -> Seq<SpannedV<CaseBranchV>>
    decreases s,
{
    if s.len() == 0 {
        Seq::empty()
    } else {
        branches_view(s.drop_last()).push(
            SpannedV { node: branch_view(&s.last().node), span: span_view(&s.last().span) },
        )
    }
}

impl View for Span {
    type V = SpanV;

    open spec fn view(&self) -> SpanV {
        span_view(self)
    }
}

impl View for Expression {
    type V = ExpressionV;

    open spec fn view(&self) -> ExpressionV {
        expression_view(self)
    }
}

impl View for StructField {
    type V = StructFieldV;

    open spec fn view(&self) -> StructFieldV {
        struct_field_view(self)
    }
}

impl View for Pattern {
    type V = PatternV;

    open spec fn view(&self) -> PatternV {
        pattern_view(self)
    }
}

impl View for PatternField {
    type V = PatternFieldV;

    open spec fn view(&self) -> PatternFieldV {
        pattern_field_view(self)
    }
}

impl View for CaseBranch {
    type V = CaseBranchV;

    open spec fn view(&self) -> CaseBranchV {
        branch_view(self)
    }
}

impl View for Spanned<Expression> {
    type V = SpannedV<ExpressionV>;

    open spec fn view(&self) -> SpannedV<ExpressionV> {
        spanned_expression_view(self)
    }
}

impl View for Spanned<StructField> {
    type V = SpannedV<StructFieldV>;

    open spec fn view(&self) -> SpannedV<StructFieldV> {
        SpannedV { node: struct_field_view(&self.node), span: span_view(&self.span) }
    }
}

impl View for Spanned<Pattern> {
    type V = SpannedV<PatternV>;

    open spec fn view(&self) -> SpannedV<PatternV> {
        spanned_pattern_view(self)
    }
}

impl View for Spanned<PatternField> {
    type V = SpannedV<PatternFieldV>;

    open spec fn view(&self) -> SpannedV<PatternFieldV> {
        SpannedV { node: pattern_field_view(&self.node), span: span_view(&self.span) }
    }
}

impl View for Spanned<CaseBranch> {
    type V = SpannedV<CaseBranchV>;

    open spec fn view(&self) -> SpannedV<CaseBranchV> {
        SpannedV { node: branch_view(&self.node), span: span_view(&self.span) }
    }
}

// ------------------------------------------------------------------
// Facts about the models of sequences
// ------------------------------------------------------------------

pub proof fn lemma_struct_fields_view(s: Seq<Spanned<StructField>>)
    ensures
        struct_fields_view(s).len() == s.len(),
        forall|i: int| 0 <= i < s.len() ==> #[trigger] struct_fields_view(s)[i] == s[i]@,
    decreases s.len(),
{
    if s.len() > 0 {
        lemma_struct_fields_view(s.drop_last());
    }
}

pub proof fn lemma_pattern_fields_view(s: Seq<Spanned<PatternField>>)
    ensures
        pattern_fields_view(s).len() == s.len(),
        forall|i: int| 0 <= i < s.len() ==> #[trigger] pattern_fields_view(s)[i] == s[i]@,
    decreases s.len(),
{
    if s.len() > 0 {
        lemma_pattern_fields_view(s.drop_last());
    }
}

pub proof fn lemma_branches_view(s: Seq<Spanned<CaseBranch>>)
    ensures
        branches_view(s).len() == s.len(),
        forall|i: int| 0 <= i < s.len() ==> #[trigger] branches_view(s)[i] == s[i]@,
    decreases s.len(),
{
    if s.len() > 0 {
        lemma_branches_view(s.drop_last());
    }
}

} // verus!
