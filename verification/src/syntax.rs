//! Owned Go syntax: tokens, expressions, statements and declarations.

use vstd::prelude::*;

use crate::types::ChannelDir;

verus! {

/// Go tokens that the semantic stage distinguishes.
#[allow(non_camel_case_types)]
#[derive(Clone, Copy, Debug, PartialEq, Eq, Structural)]
pub enum Token {
    INT,
    FLOAT,
    IMAG,
    CHAR,
    STRING,
    ADD,
    SUB,
    MUL,
    QUO,
    REM,
    AND,
    OR,
    XOR,
    SHL,
    SHR,
    AND_NOT,
    LAND,
    LOR,
    ARROW,
    INC,
    DEC,
    EQL,
    LSS,
    GTR,
    ASSIGN,
    NOT,
    NEQ,
    LEQ,
    GEQ,
    DEFINE,
    ADD_ASSIGN,
    SUB_ASSIGN,
    MUL_ASSIGN,
    QUO_ASSIGN,
    REM_ASSIGN,
    AND_ASSIGN,
    OR_ASSIGN,
    XOR_ASSIGN,
    SHL_ASSIGN,
    SHR_ASSIGN,
    AND_NOT_ASSIGN,
    BREAK,
    CONTINUE,
    GOTO,
    FALLTHROUGH,
    CONST,
    VAR,
    TYPE,
    IMPORT,
}

/// Where a piece of syntax came from.
#[derive(Clone, Copy, Debug, PartialEq, Eq, Structural)]
pub struct SyntaxSource {
    pub start: u64,
    pub end: u64,
}

pub struct IdentSyntax {
    pub name: String,
    pub source: SyntaxSource,
}

pub struct FieldSyntax {
    pub names: Option<Vec<IdentSyntax>>,
    pub ty: Option<ExprSyntax>,
}

pub struct FieldListSyntax {
    pub fields: Vec<FieldSyntax>,
}

pub struct ExprSyntax {
    pub kind: ExprSyntaxKind,
    pub source: SyntaxSource,
}

pub enum ExprSyntaxKind {
    Literal { token: Token, spelling: String },
    Ident(IdentSyntax),
    Binary { left: Box<ExprSyntax>, token: Token, right: Box<ExprSyntax> },
    Paren(Box<ExprSyntax>),
    Unary { token: Token, expression: Box<ExprSyntax> },
    Call { callee: Box<ExprSyntax>, arguments: Vec<ExprSyntax>, spread: bool },
    FunctionLiteral { params: FieldListSyntax, results: Option<FieldListSyntax>, body: BlockSyntax },
    FunctionType { params: FieldListSyntax, results: Option<FieldListSyntax> },
    Selector { base: Box<ExprSyntax>, selector: IdentSyntax },
    TypeAssert { value: Box<ExprSyntax>, asserted: Option<Box<ExprSyntax>> },
    ArrayType { length: Option<Box<ExprSyntax>>, element: Box<ExprSyntax> },
    MapType { key: Box<ExprSyntax>, value: Box<ExprSyntax> },
    ChannelType { direction: ChannelDir, element: Box<ExprSyntax> },
    StructType { fields: FieldListSyntax },
    InterfaceType { methods: FieldListSyntax },
    KeyValue { key: Box<ExprSyntax>, value: Box<ExprSyntax> },
    CompositeLiteral { ty: Option<Box<ExprSyntax>>, elements: Vec<ExprSyntax> },
    Index { base: Box<ExprSyntax>, index: Box<ExprSyntax> },
    IndexList { base: Box<ExprSyntax>, indices: Vec<ExprSyntax> },
    Slice {
        base: Box<ExprSyntax>,
        low: Option<Box<ExprSyntax>>,
        high: Option<Box<ExprSyntax>>,
        max: Option<Box<ExprSyntax>>,
    },
    Unsupported(String),
}

/// The header of a function or method declaration.
pub struct FunctionHeaderSyntax {
    pub name: IdentSyntax,
    pub receiver: Option<FieldListSyntax>,
    pub type_parameters: Option<FieldListSyntax>,
    pub params: FieldListSyntax,
    pub results: Option<FieldListSyntax>,
}

pub struct BlockSyntax {
    pub statements: Vec<StmtSyntax>,
}

/// One `const`, `var` or `type` specification.
pub struct SpecSyntax {
    pub names: Vec<IdentSyntax>,
    pub ty: Option<ExprSyntax>,
    pub values: Vec<ExprSyntax>,
}

pub struct DeclSyntax {
    pub token: Token,
    pub specs: Vec<SpecSyntax>,
}

pub struct CaseClauseSyntax {
    pub expressions: Vec<ExprSyntax>,
    pub body: BlockSyntax,
}

pub struct SelectCaseSyntax {
    pub communication: Option<Box<StmtSyntax>>,
    pub body: BlockSyntax,
}

pub struct StmtSyntax {
    pub kind: StmtSyntaxKind,
    pub source: SyntaxSource,
}

pub enum StmtSyntaxKind {
    Empty,
    Expr(ExprSyntax),
    IncDec { expression: ExprSyntax, token: Token },
    Send { channel: ExprSyntax, value: ExprSyntax },
    Defer { call: ExprSyntax, body: BlockSyntax },
    Go { call: ExprSyntax, body: BlockSyntax },
    Return(Vec<ExprSyntax>),
    Unsupported(String),
    Block(BlockSyntax),
    Decl(DeclSyntax),
    Assign { left: Vec<ExprSyntax>, token: Token, right: Vec<ExprSyntax> },
    If {
        init: Option<Box<StmtSyntax>>,
        condition: ExprSyntax,
        then_block: BlockSyntax,
        else_branch: Option<Box<StmtSyntax>>,
    },
    For {
        label: Option<IdentSyntax>,
        init: Option<Box<StmtSyntax>>,
        condition: Option<ExprSyntax>,
        post: Option<Box<StmtSyntax>>,
        body: BlockSyntax,
    },
    Range {
        label: Option<IdentSyntax>,
        key: Option<ExprSyntax>,
        value: Option<ExprSyntax>,
        token: Option<Token>,
        expression: ExprSyntax,
        body: BlockSyntax,
    },
    Switch { init: Option<Box<StmtSyntax>>, tag: Option<ExprSyntax>, cases: Vec<CaseClauseSyntax> },
    TypeSwitch {
        init: Option<Box<StmtSyntax>>,
        binding: Option<IdentSyntax>,
        subject: ExprSyntax,
        cases: Vec<CaseClauseSyntax>,
    },
    Select { cases: Vec<SelectCaseSyntax> },
    Labeled { label: IdentSyntax, statement: Box<StmtSyntax> },
    Branch { token: Token, label: Option<IdentSyntax> },
}

} // verus!
