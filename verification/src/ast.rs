//! The abstract syntax tree.
//!
//! AST values are immutable once produced by the parser.  Every node carries
//! an identity: top level statements a [`TopLevelId`], expressions an
//! [`ExprId`] local to their statement.

use vstd::prelude::*;

use crate::errors::{bytes_clone, bytes_eq};
use crate::ids::{ExprId, SpecTopLevelId, TopLevelId};

verus! {

/// A name occurrence, with the id of the expression node it occupies.
pub struct Identifier {
    pub name: Vec<u8>,
    pub id: ExprId,
}

pub ghost struct SpecIdentifier {
    pub name: Seq<u8>,
    pub id: ExprId,
}

impl View for Identifier {
    type V = SpecIdentifier;

    open spec fn view(&self) -> SpecIdentifier {
        SpecIdentifier { name: self.name@, id: self.id }
    }
}

/// An expression; lambdas always bind exactly one parameter, multi-parameter
/// lambdas having been curried by the parser.
pub enum Expression {
    IntegerLiteral(i64, ExprId),
    Variable(Identifier),
    FunctionCall { function: Box<Expression>, argument: Box<Expression>, id: ExprId },
    Lambda { parameter_name: Identifier, body: Box<Expression>, id: ExprId },
}

pub ghost enum SpecExpr {
    IntegerLiteral(i64, ExprId),
    Variable(SpecIdentifier),
    FunctionCall { function: Box<SpecExpr>, argument: Box<SpecExpr>, id: ExprId },
    Lambda { parameter_name: SpecIdentifier, body: Box<SpecExpr>, id: ExprId },
}

/// The model of an expression.
pub open spec fn expr_view(e: Expression) -> SpecExpr
    decreases e,
{
    match e {
        Expression::IntegerLiteral(x, id) => SpecExpr::IntegerLiteral(x, id),
        Expression::Variable(ident) => SpecExpr::Variable(ident@),
        Expression::FunctionCall { function, argument, id } => SpecExpr::FunctionCall {
            function: Box::new(expr_view(*function)),
            argument: Box::new(expr_view(*argument)),
            id: id,
        },
        Expression::Lambda { parameter_name, body, id } => SpecExpr::Lambda {
            parameter_name: parameter_name@,
            body: Box::new(expr_view(*body)),
            id: id,
        },
    }
}

impl View for Expression {
    type V = SpecExpr;

    open spec fn view(&self) -> SpecExpr {
        expr_view(*self)
    }
}

impl SpecExpr {
    /// The id of this node.
    pub open spec fn spec_id(self) -> ExprId {
        match self {
            SpecExpr::IntegerLiteral(_, id) => id,
            SpecExpr::Variable(ident) => ident.id,
            SpecExpr::FunctionCall { id, .. } => id,
            SpecExpr::Lambda { id, .. } => id,
        }
    }
}

impl Expression {
    /// The id of this node.
    pub fn id(&self) -> (r: ExprId)
        ensures
            r == self@.spec_id(),
    {
        match self {
            Expression::IntegerLiteral(_, id) => *id,
            Expression::Variable(ident) => ident.id,
            Expression::FunctionCall { id, .. } => *id,
            Expression::Lambda { id, .. } => *id,
        }
    }
}

/// A deep copy of an expression.
pub fn expr_copy(e: &Expression) -> (r: Expression)
    ensures
        r@ == e@,
    decreases e,
{
    match e {
        Expression::IntegerLiteral(x, id) => Expression::IntegerLiteral(*x, *id),
        Expression::Variable(ident) => Expression::Variable(
            Identifier { name: bytes_clone(&ident.name), id: ident.id },
        ),
        Expression::FunctionCall { function, argument, id } => Expression::FunctionCall {
            function: Box::new(expr_copy(function)),
            argument: Box::new(expr_copy(argument)),
            id: *id,
        },
        Expression::Lambda { parameter_name, body, id } => Expression::Lambda {
            parameter_name: Identifier {
                name: bytes_clone(&parameter_name.name),
                id: parameter_name.id,
            },
            body: Box::new(expr_copy(body)),
            id: *id,
        },
    }
}

/// Structural equality of expressions, over the models.
pub fn expr_eq(a: &Expression, b: &Expression) -> (r: bool)
    ensures
        r == (a@ == b@),
    decreases a,
{
    match (a, b) {
        (Expression::IntegerLiteral(x, i), Expression::IntegerLiteral(y, j)) => *x == *y && *i == *j,
        (Expression::Variable(m), Expression::Variable(n)) => {
            let r = bytes_eq(&m.name, &n.name) && m.id == n.id;
            proof {
                if r {
                    assert(m@ == n@);
                }
            }
            r
        },
        (
            Expression::FunctionCall { function: f1, argument: a1, id: i1 },
            Expression::FunctionCall { function: f2, argument: a2, id: i2 },
        ) => {
            let r = *i1 == *i2 && expr_eq(f1, f2) && expr_eq(a1, a2);
            r
        },
        (
            Expression::Lambda { parameter_name: p1, body: b1, id: i1 },
            Expression::Lambda { parameter_name: p2, body: b2, id: i2 },
        ) => {
            let r = *i1 == *i2 && bytes_eq(&p1.name, &p2.name) && p1.id == p2.id && expr_eq(b1, b2);
            proof {
                if r {
                    assert(p1@ == p2@);
                }
            }
            r
        },
        _ => false,
    }
}

/// A type as written in source: `Int`, a named generic, or a function arrow.
pub enum Type {
    Int,
    Generic(Identifier),
    Function { parameter: Box<Type>, return_type: Box<Type> },
}

pub ghost enum SpecAstType {
    Int,
    Generic(SpecIdentifier),
    Function { parameter: Box<SpecAstType>, return_type: Box<SpecAstType> },
}

/// The model of a source type.
pub open spec fn ast_type_view(t: Type) -> SpecAstType
    decreases t,
{
    match t {
        Type::Int => SpecAstType::Int,
        Type::Generic(ident) => SpecAstType::Generic(ident@),
        Type::Function { parameter, return_type } => SpecAstType::Function {
            parameter: Box::new(ast_type_view(*parameter)),
            return_type: Box::new(ast_type_view(*return_type)),
        },
    }
}

impl View for Type {
    type V = SpecAstType;

    open spec fn view(&self) -> SpecAstType {
        ast_type_view(*self)
    }
}

/// A deep copy of a source type.
pub fn ast_type_copy(t: &Type) -> (r: Type)
    ensures
        r@ == t@,
    decreases t,
{
    match t {
        Type::Int => Type::Int,
        Type::Generic(ident) => Type::Generic(
            Identifier { name: bytes_clone(&ident.name), id: ident.id },
        ),
        Type::Function { parameter, return_type } => Type::Function {
            parameter: Box::new(ast_type_copy(parameter)),
            return_type: Box::new(ast_type_copy(return_type)),
        },
    }
}

/// Structural equality of source types, over the models.
pub fn ast_type_eq(a: &Type, b: &Type) -> (r: bool)
    ensures
        r == (a@ == b@),
    decreases a,
{
    match (a, b) {
        (Type::Int, Type::Int) => true,
        (Type::Generic(m), Type::Generic(n)) => {
            let r = bytes_eq(&m.name, &n.name) && m.id == n.id;
            proof {
                if r {
                    assert(m@ == n@);
                }
            }
            r
        },
        (
            Type::Function { parameter: p1, return_type: r1 },
            Type::Function { parameter: p2, return_type: r2 },
        ) => ast_type_eq(p1, p2) && ast_type_eq(r1, r2),
        _ => false,
    }
}

/// A `def`: a name, an optional type annotation, and a body.
pub struct Definition {
    pub name: Identifier,
    pub typ: Option<Type>,
    pub body: Box<Expression>,
    pub id: TopLevelId,
}

pub ghost struct SpecDefinition {
    pub name: SpecIdentifier,
    pub typ: Option<SpecAstType>,
    pub body: SpecExpr,
    pub id: SpecTopLevelId,
}

impl View for Definition {
    type V = SpecDefinition;

    open spec fn view(&self) -> SpecDefinition {
        SpecDefinition {
            name: self.name@,
            typ: match &self.typ {
                Some(t) => Some(t@),
                None => None,
            },
            body: self.body@,
            id: self.id@,
        }
    }
}

/// A top level statement of a file.
pub enum TopLevelStatement {
    Import { file_name: Identifier, id: TopLevelId },
    Definition(Definition),
    Print(Box<Expression>, TopLevelId),
}

pub ghost enum SpecStatement {
    Import { file_name: SpecIdentifier, id: SpecTopLevelId },
    Definition(SpecDefinition),
    Print(SpecExpr, SpecTopLevelId),
}

impl View for TopLevelStatement {
    type V = SpecStatement;

    open spec fn view(&self) -> SpecStatement {
        match self {
            TopLevelStatement::Import { file_name, id } => SpecStatement::Import {
                file_name: file_name@,
                id: id@,
            },
            TopLevelStatement::Definition(d) => SpecStatement::Definition(d@),
            TopLevelStatement::Print(e, id) => SpecStatement::Print(e@, id@),
        }
    }
}

impl SpecStatement {
    /// The identity of this statement.
    pub open spec fn spec_id(self) -> SpecTopLevelId {
        match self {
            SpecStatement::Import { id, .. } => id,
            SpecStatement::Definition(d) => d.id,
            SpecStatement::Print(_, id) => id,
        }
    }
}

impl TopLevelStatement {
    /// The identity of this statement.
    pub fn id(&self) -> (r: &TopLevelId)
        ensures
            r@ == self@.spec_id(),
    {
        match self {
            TopLevelStatement::Import { id, .. } => id,
            TopLevelStatement::Definition(d) => &d.id,
            TopLevelStatement::Print(_, id) => id,
        }
    }
}

/// A deep copy of a statement.
pub fn statement_copy(s: &TopLevelStatement) -> (r: TopLevelStatement)
    ensures
        r@ == s@,
{
    match s {
        TopLevelStatement::Import { file_name, id } => TopLevelStatement::Import {
            file_name: Identifier { name: bytes_clone(&file_name.name), id: file_name.id },
            id: id.copied(),
        },
        TopLevelStatement::Definition(d) => TopLevelStatement::Definition(
            Definition {
                name: Identifier { name: bytes_clone(&d.name.name), id: d.name.id },
                typ: match &d.typ {
                    Some(t) => Some(ast_type_copy(t)),
                    None => None,
                },
                body: Box::new(expr_copy(&d.body)),
                id: d.id.copied(),
            },
        ),
        TopLevelStatement::Print(e, id) => TopLevelStatement::Print(
            Box::new(expr_copy(e)),
            id.copied(),
        ),
    }
}

/// Structural equality of statements, over the models.
pub fn statement_eq(a: &TopLevelStatement, b: &TopLevelStatement) -> (r: bool)
    ensures
        r == (a@ == b@),
{
    match (a, b) {
        (
            TopLevelStatement::Import { file_name: f1, id: i1 },
            TopLevelStatement::Import { file_name: f2, id: i2 },
        ) => {
            let r = bytes_eq(&f1.name, &f2.name) && f1.id == f2.id && i1.same_as(i2);
            proof {
                if r {
                    assert(f1@ == f2@);
                }
            }
            r
        },
        (TopLevelStatement::Definition(d1), TopLevelStatement::Definition(d2)) => {
            let names = bytes_eq(&d1.name.name, &d2.name.name) && d1.name.id == d2.name.id;
            let typs = match (&d1.typ, &d2.typ) {
                (Some(t1), Some(t2)) => ast_type_eq(t1, t2),
                (None, None) => true,
                _ => false,
            };
            let r = names && typs && expr_eq(&d1.body, &d2.body) && d1.id.same_as(&d2.id);
            proof {
                if r {
                    assert(d1.name@ == d2.name@);
                    assert(d1@ == d2@);
                }
            }
            r
        },
        (TopLevelStatement::Print(e1, i1), TopLevelStatement::Print(e2, i2)) => {
            expr_eq(e1, e2) && i1.same_as(i2)
        },
        _ => false,
    }
}

/// A parsed file: its top level statements in source order.
pub struct Program {
    pub statements: Vec<TopLevelStatement>,
}

pub ghost struct SpecProgram {
    pub statements: Seq<SpecStatement>,
}

impl View for Program {
    type V = SpecProgram;

    open spec fn view(&self) -> SpecProgram {
        SpecProgram { statements: self.statements@.map_values(|s: TopLevelStatement| s@) }
    }
}

/// A deep copy of a program.
pub fn program_copy(p: &Program) -> (r: Program)
    ensures
        r@ == p@,
{
    let mut statements: Vec<TopLevelStatement> = Vec::new();
    let n = p.statements.len();
    let mut i: usize = 0;
    while i < n
        invariant
            n == p.statements@.len(),
            0 <= i <= n,
            statements@.len() == i,
            forall|j: int| 0 <= j < i ==> #[trigger] statements@[j]@ == p.statements@[j]@,
        decreases n - i,
    {
        statements.push(statement_copy(&p.statements[i]));
        i = i + 1;
    }
    proof {
        assert(statements@.map_values(|s: TopLevelStatement| s@) =~= p.statements@.map_values(
            |s: TopLevelStatement| s@,
        ));
    }
    Program { statements }
}

/// Structural equality of programs, over the models.
pub fn program_eq(a: &Program, b: &Program) -> (r: bool)
    ensures
        r == (a@ == b@),
{
    if a.statements.len() != b.statements.len() {
        proof {
            assert(a@.statements.len() != b@.statements.len());
        }
        return false;
    }
    let n = a.statements.len();
    let mut i: usize = 0;
    while i < n
        invariant
            n == a.statements@.len(),
            n == b.statements@.len(),
            0 <= i <= n,
            forall|j: int| 0 <= j < i ==> a.statements@[j]@ == b.statements@[j]@,
        decreases n - i,
    {
        if !statement_eq(&a.statements[i], &b.statements[i]) {
            proof {
                assert(a@.statements[i as int] != b@.statements[i as int]);
            }
            return false;
        }
        i = i + 1;
    }
    proof {
        assert(a@.statements =~= b@.statements);
    }
    true
}

} // verus!

verus! {

// ---------------------------------------------------------------------------
// Source rendering
// ---------------------------------------------------------------------------
/// How an expression is written back as source.
pub open spec fn sp_expr_text(e: SpecExpr) -> Seq<u8>
    decreases e,
{
    match e {
        SpecExpr::IntegerLiteral(x, id) => crate::errors::spec_dec_i64(x),
        SpecExpr::Variable(ident) => ident.name,
        SpecExpr::FunctionCall { function, argument, id } => {
            let f = if *function is Lambda {
                seq![40u8] + sp_expr_text(*function) + seq![41u8]
            } else {
                sp_expr_text(*function)
            };
            let a = if *argument is Lambda || *argument is FunctionCall {
                seq![32u8, 40u8] + sp_expr_text(*argument) + seq![41u8]
            } else {
                seq![32u8] + sp_expr_text(*argument)
            };
            f + a
        },
        SpecExpr::Lambda { parameter_name, body, id } => crate::errors::lit("fn ")
            + parameter_name.name + crate::errors::lit(" -> ") + sp_expr_text(*body),
    }
}

impl Expression {
    /// Render this expression as source text.
    pub fn text(&self) -> (r: Vec<u8>)
        ensures
            r@ == sp_expr_text(self@),
        decreases self,
    {
        match self {
            Expression::IntegerLiteral(x, _) => crate::errors::dec_i64(*x),
            Expression::Variable(ident) => bytes_clone(&ident.name),
            Expression::FunctionCall { function, argument, id } => {
                let mut out: Vec<u8> = Vec::new();
                let f_is_lambda = matches!(**function, Expression::Lambda { .. });
                let ft = function.text();
                if f_is_lambda {
                    out.push(40u8);
                    crate::errors::append_vec(&mut out, &ft);
                    out.push(41u8);
                    proof {
                        assert(out@ =~= seq![40u8] + sp_expr_text(function@) + seq![41u8]);
                    }
                } else {
                    crate::errors::append_vec(&mut out, &ft);
                    proof {
                        assert(out@ =~= sp_expr_text(function@));
                    }
                }
                let a_wrapped = matches!(
                    **argument,
                    Expression::Lambda { .. } | Expression::FunctionCall { .. },
                );
                let at = argument.text();
                if a_wrapped {
                    out.push(32u8);
                    out.push(40u8);
                    crate::errors::append_vec(&mut out, &at);
                    out.push(41u8);
                } else {
                    out.push(32u8);
                    crate::errors::append_vec(&mut out, &at);
                }
                proof {
                    assert(out@ =~= sp_expr_text(self@));
                }
                out
            },
            Expression::Lambda { parameter_name, body, id } => {
                let mut out: Vec<u8> = Vec::new();
                crate::errors::append_bytes(&mut out, "fn ".as_bytes());
                crate::errors::append_vec(&mut out, &parameter_name.name);
                crate::errors::append_bytes(&mut out, " -> ".as_bytes());
                let bt = body.text();
                crate::errors::append_vec(&mut out, &bt);
                proof {
                    assert(out@ =~= sp_expr_text(self@));
                }
                out
            },
        }
    }
}

/// How a source type annotation is written back.
pub open spec fn sp_ast_type_text(t: SpecAstType) -> Seq<u8>
    decreases t,
{
    match t {
        SpecAstType::Int => crate::errors::lit("Int"),
        SpecAstType::Generic(ident) => ident.name,
        SpecAstType::Function { parameter, return_type } => {
            let p = if *parameter is Function {
                seq![40u8] + sp_ast_type_text(*parameter) + seq![41u8]
            } else {
                sp_ast_type_text(*parameter)
            };
            p + crate::errors::lit(" -> ") + sp_ast_type_text(*return_type)
        },
    }
}

impl Type {
    /// Render this annotation as source text.
    pub fn text(&self) -> (r: Vec<u8>)
        ensures
            r@ == sp_ast_type_text(self@),
        decreases self,
    {
        match self {
            Type::Int => {
                let mut out: Vec<u8> = Vec::new();
                crate::errors::append_bytes(&mut out, "Int".as_bytes());
                proof {
                    assert(out@ =~= sp_ast_type_text(self@));
                }
                out
            },
            Type::Generic(ident) => bytes_clone(&ident.name),
            Type::Function { parameter, return_type } => {
                let mut out: Vec<u8> = Vec::new();
                let wrapped = matches!(**parameter, Type::Function { .. });
                let pt = parameter.text();
                if wrapped {
                    out.push(40u8);
                    crate::errors::append_vec(&mut out, &pt);
                    out.push(41u8);
                    proof {
                        assert(out@ =~= seq![40u8] + sp_ast_type_text(parameter@) + seq![41u8]);
                    }
                } else {
                    crate::errors::append_vec(&mut out, &pt);
                    proof {
                        assert(out@ =~= sp_ast_type_text(parameter@));
                    }
                }
                crate::errors::append_bytes(&mut out, " -> ".as_bytes());
                let rt = return_type.text();
                crate::errors::append_vec(&mut out, &rt);
                proof {
                    assert(out@ =~= sp_ast_type_text(self@));
                }
                out
            },
        }
    }
}

/// How a statement is written back as source.
pub open spec fn sp_statement_source(s: SpecStatement) -> Seq<u8> {
    match s {
        SpecStatement::Import { file_name, id } => crate::errors::lit("import ") + file_name.name,
        SpecStatement::Definition(d) => {
            let head = crate::errors::lit("def ") + d.name.name;
            let annotated = match d.typ {
                Some(t) => head + crate::errors::lit(": ") + sp_ast_type_text(t),
                None => head,
            };
            annotated + crate::errors::lit(" = ") + sp_expr_text(d.body)
        },
        SpecStatement::Print(e, _) => crate::errors::lit("print ") + sp_expr_text(e),
    }
}

impl TopLevelStatement {
    /// Render this statement as source text.
    pub fn text(&self) -> (r: Vec<u8>)
        ensures
            r@ == sp_statement_source(self@),
    {
        match self {
            TopLevelStatement::Import { file_name, id } => {
                let mut out: Vec<u8> = Vec::new();
                crate::errors::append_bytes(&mut out, "import ".as_bytes());
                crate::errors::append_vec(&mut out, &file_name.name);
                proof {
                    assert(out@ =~= sp_statement_source(self@));
                }
                out
            },
            TopLevelStatement::Definition(d) => {
                let mut out: Vec<u8> = Vec::new();
                crate::errors::append_bytes(&mut out, "def ".as_bytes());
                crate::errors::append_vec(&mut out, &d.name.name);
                match &d.typ {
                    Some(t) => {
                        crate::errors::append_bytes(&mut out, ": ".as_bytes());
                        let tt = t.text();
                        crate::errors::append_vec(&mut out, &tt);
                    },
                    None => {},
                }
                crate::errors::append_bytes(&mut out, " = ".as_bytes());
                let bt = d.body.text();
                crate::errors::append_vec(&mut out, &bt);
                proof {
                    assert(out@ =~= sp_statement_source(self@));
                }
                out
            },
            TopLevelStatement::Print(e, _) => {
                let mut out: Vec<u8> = Vec::new();
                crate::errors::append_bytes(&mut out, "print ".as_bytes());
                let et = e.text();
                crate::errors::append_vec(&mut out, &et);
                proof {
                    assert(out@ =~= sp_statement_source(self@));
                }
                out
            },
        }
    }
}

/// How a program is written back: its statements, one per line.
pub open spec fn sp_program_text(stmts: Seq<SpecStatement>, i: int, acc: Seq<u8>) -> Seq<u8>
    decreases stmts.len() - i,
{
    if i < 0 || i >= stmts.len() {
        acc
    } else {
        let sep: Seq<u8> = if i > 0 {
            seq![10u8]
        } else {
            Seq::empty()
        };
        sp_program_text(stmts, i + 1, acc + sep + sp_statement_source(stmts[i]))
    }
}

impl Program {
    /// Render the whole program as source text.
    #[verifier::loop_isolation(false)]
    pub fn text(&self) -> (r: Vec<u8>)
        ensures
            r@ == sp_program_text(self@.statements, 0, Seq::empty()),
    {
        let mut out: Vec<u8> = Vec::new();
        let n = self.statements.len();
        let mut i: usize = 0;
        proof {
            assert(out@ =~= Seq::<u8>::empty());
        }
        while i < n
            invariant
                n == self.statements@.len(),
                0 <= i <= n,
                sp_program_text(self@.statements, 0, Seq::empty()) == sp_program_text(
                    self@.statements,
                    i as int,
                    out@,
                ),
            decreases n - i,
        {
            let ghost pre = out@;
            if i > 0 {
                out.push(10u8);
            }
            proof {
                assert(self@.statements[i as int] == self.statements@[i as int]@);
            }
            let st = self.statements[i].text();
            crate::errors::append_vec(&mut out, &st);
            proof {
                if i > 0 {
                    assert(out@ =~= pre + seq![10u8] + sp_statement_source(
                        self@.statements[i as int],
                    ));
                } else {
                    assert(out@ =~= pre + Seq::<u8>::empty() + sp_statement_source(
                        self@.statements[i as int],
                    ));
                }
            }
            i = i + 1;
        }
        out
    }
}

} // verus!
