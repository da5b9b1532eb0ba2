//! The emitter: renders a parsed file as target source text, and collects
//! the file's diagnostics — its visible-name errors plus each statement's
//! resolution and type errors — so one compile surfaces everything.

use vstd::prelude::*;

use crate::ast::{Expression, SpecExpr, SpecStatement, TopLevelStatement};
use crate::errors::{bytes_clone, Errors, SpecError};
use crate::name_resolution::ResolutionResult;
use crate::parser::{errs_view, ParserResult, SpecParserResult};
use crate::type_inference::TypeCheckResult;

verus! {

/// How one expression renders in the target language.
pub open spec fn sp_expr_string(e: SpecExpr) -> Seq<u8>
    decreases e,
{
    match e {
        SpecExpr::IntegerLiteral(x, id) => crate::errors::spec_dec_i64(x),
        SpecExpr::Variable(ident) => {
            if ident.name == seq![43u8] || ident.name == seq![45u8] {
                // the operators become curried two-argument closures
                crate::errors::lit("(lambda x: lambda y: x ") + ident.name + crate::errors::lit(
                    " y)",
                )
            } else {
                ident.name
            }
        },
        SpecExpr::FunctionCall { function, argument, id } => {
            let f = if *function is Lambda {
                seq![40u8] + sp_expr_string(*function) + seq![41u8]
            } else {
                sp_expr_string(*function)
            };
            f + seq![40u8] + sp_expr_string(*argument) + seq![41u8]
        },
        SpecExpr::Lambda { parameter_name, body, id } => {
            crate::errors::lit("lambda ") + parameter_name.name + crate::errors::lit(": ")
                + sp_expr_string(*body)
        },
    }
}

/// Render one expression.
pub fn expr_string(expr: &Expression) -> (r: Vec<u8>)
    ensures
        r@ == sp_expr_string(expr@),
    decreases expr,
{
    match expr {
        Expression::IntegerLiteral(x, _) => crate::errors::dec_i64(*x),
        Expression::Variable(identifier) => {
            let is_op = identifier.name.len() == 1 && (identifier.name[0] == 43
                || identifier.name[0] == 45);
            if is_op {
                proof {
                    if identifier.name@[0] == 43 {
                        assert(identifier.name@ =~= seq![43u8]);
                    } else {
                        assert(identifier.name@ =~= seq![45u8]);
                    }
                }
                let mut out: Vec<u8> = Vec::new();
                crate::errors::append_bytes(&mut out, "(lambda x: lambda y: x ".as_bytes());
                crate::errors::append_vec(&mut out, &identifier.name);
                crate::errors::append_bytes(&mut out, " y)".as_bytes());
                proof {
                    assert(out@ =~= sp_expr_string(expr@));
                }
                out
            } else {
                proof {
                    assert(identifier.name@ != seq![43u8]);
                    assert(identifier.name@ != seq![45u8]);
                }
                bytes_clone(&identifier.name)
            }
        },
        Expression::FunctionCall { function, argument, id } => {
            let mut out: Vec<u8> = Vec::new();
            let f_is_lambda = matches!(**function, Expression::Lambda { .. });
            let ft = expr_string(function);
            if f_is_lambda {
                out.push(40u8);
                crate::errors::append_vec(&mut out, &ft);
                out.push(41u8);
                proof {
                    assert(out@ =~= seq![40u8] + sp_expr_string(function@) + seq![41u8]);
                }
            } else {
                crate::errors::append_vec(&mut out, &ft);
                proof {
                    assert(out@ =~= sp_expr_string(function@));
                }
            }
            out.push(40u8);
            let at = expr_string(argument);
            crate::errors::append_vec(&mut out, &at);
            out.push(41u8);
            proof {
                assert(out@ =~= sp_expr_string(expr@));
            }
            out
        },
        Expression::Lambda { parameter_name, body, id } => {
            let mut out: Vec<u8> = Vec::new();
            crate::errors::append_bytes(&mut out, "lambda ".as_bytes());
            crate::errors::append_vec(&mut out, &parameter_name.name);
            crate::errors::append_bytes(&mut out, ": ".as_bytes());
            let bt = expr_string(body);
            crate::errors::append_vec(&mut out, &bt);
            proof {
                assert(out@ =~= sp_expr_string(expr@));
            }
            out
        },
    }
}

/// An imported module's name: the file name with a trailing `.ex` removed.
pub open spec fn sp_module_name(name: Seq<u8>) -> Seq<u8> {
    if name.len() >= 3 && name.subrange(name.len() - 3, name.len() as int) == seq![
        46u8,
        101u8,
        120u8,
    ] {
        name.subrange(0, name.len() - 3)
    } else {
        name
    }
}

/// How one statement renders.
pub open spec fn sp_statement_text(s: SpecStatement) -> Seq<u8> {
    match s {
        SpecStatement::Import { file_name, id } => crate::errors::lit("from ") + sp_module_name(
            file_name.name,
        ) + crate::errors::lit(" import *\n"),
        SpecStatement::Definition(d) => seq![10u8] + d.name.name + crate::errors::lit(" = ")
            + sp_expr_string(d.body) + seq![10u8],
        SpecStatement::Print(e, _) => crate::errors::lit("print(") + sp_expr_string(e) + seq![
            41u8,
            10u8,
        ],
    }
}

/// The emitted text of a whole file.
pub open spec fn sp_compile_text(stmts: Seq<SpecStatement>, i: int, acc: Seq<u8>) -> Seq<u8>
    decreases stmts.len() - i,
{
    if i < 0 || i >= stmts.len() {
        acc
    } else {
        sp_compile_text(stmts, i + 1, acc + sp_statement_text(stmts[i]))
    }
}

/// The model of the per-statement analysis results handed to the emitter.
pub open spec fn checks_view(s: Seq<(ResolutionResult, TypeCheckResult)>) -> Seq<
    (Seq<SpecError>, Seq<SpecError>),
> {
    s.map_values(|p: (ResolutionResult, TypeCheckResult)| (p.0@.errors, p.1@.errors))
}

/// The union of the file's diagnostics, in statement order.
pub open spec fn sp_compile_errors(
    checks: Seq<(Seq<SpecError>, Seq<SpecError>)>,
    i: int,
    acc: Seq<SpecError>,
) -> Seq<SpecError>
    decreases checks.len() - i,
{
    if i < 0 || i >= checks.len() {
        acc
    } else {
        sp_compile_errors(checks, i + 1, acc + checks[i].0 + checks[i].1)
    }
}

/// What compiling one file yields: its emitted text, and every diagnostic
/// of the file — name-table errors (which carry the parse errors), then
/// each statement's resolution and type errors.
pub open spec fn sp_compile_file(
    pr: SpecParserResult,
    visible_errors: Seq<SpecError>,
    checks: Seq<(Seq<SpecError>, Seq<SpecError>)>,
) -> (Seq<u8>, Seq<SpecError>) {
    (
        sp_compile_text(pr.ast.statements, 0, Seq::empty()),
        sp_compile_errors(checks, 0, visible_errors),
    )
}

/// Compile one file to target text.  `checks` holds each statement's
/// resolution and type check, in statement order.
#[verifier::loop_isolation(false)]
pub fn compile_file_impl(
    parse: &ParserResult,
    visible_errors: &Errors,
    checks: &Vec<(ResolutionResult, TypeCheckResult)>,
) -> (r: (Vec<u8>, Errors))
    ensures
        r.0@ == sp_compile_file(parse@, errs_view(visible_errors@), checks_view(checks@)).0,
        errs_view(r.1@) == sp_compile_file(parse@, errs_view(visible_errors@), checks_view(checks@)).1,
{
    let mut text: Vec<u8> = Vec::new();
    let n = parse.ast.statements.len();
    let mut i: usize = 0;
    while i < n
        invariant
            n == parse.ast.statements@.len(),
            0 <= i <= n,
            sp_compile_text(parse@.ast.statements, 0, Seq::empty()) == sp_compile_text(
                parse@.ast.statements,
                i as int,
                text@,
            ),
        decreases n - i,
    {
        let ghost pre = text@;
        proof {
            assert(parse@.ast.statements[i as int] == parse.ast.statements@[i as int]@);
        }
        match &parse.ast.statements[i] {
            TopLevelStatement::Import { file_name, id } => {
                crate::errors::append_bytes(&mut text, "from ".as_bytes());
                // strip the `.ex` suffix to get the module name
                let nm = &file_name.name;
                let ln = nm.len();
                let has_suffix = ln >= 3 && nm[ln - 3] == 46 && nm[ln - 2] == 101 && nm[ln - 1]
                    == 120;
                if has_suffix {
                    let mut k: usize = 0;
                    proof {
                        assert(nm@.subrange(nm@.len() - 3, nm@.len() as int) =~= seq![
                            46u8,
                            101u8,
                            120u8,
                        ]);
                    }
                    let ghost base = text@;
                    while k < ln - 3
                        invariant
                            ln == nm@.len(),
                            ln >= 3,
                            0 <= k <= ln - 3,
                            text@ =~= base + nm@.subrange(0, k as int),
                        decreases ln - 3 - k,
                    {
                        text.push(nm[k]);
                        proof {
                            assert(text@ =~= base + nm@.subrange(0, k + 1));
                        }
                        k = k + 1;
                    }
                    proof {
                        assert(text@ =~= base + sp_module_name(nm@));
                    }
                } else {
                    proof {
                        if nm@.len() >= 3 {
                            let tail = nm@.subrange(nm@.len() - 3, nm@.len() as int);
                            if tail == seq![46u8, 101u8, 120u8] {
                                assert(nm@[nm@.len() - 3] == tail[0]);
                                assert(nm@[nm@.len() - 2] == tail[1]);
                                assert(nm@[nm@.len() - 1] == tail[2]);
                                assert(false);
                            }
                        }
                        assert(sp_module_name(nm@) == nm@);
                    }
                    crate::errors::append_vec(&mut text, nm);
                }
                crate::errors::append_bytes(&mut text, " import *\n".as_bytes());
                proof {
                    assert(text@ =~= pre + sp_statement_text(parse@.ast.statements[i as int]));
                }
            },
            TopLevelStatement::Definition(d) => {
                text.push(10u8);
                crate::errors::append_vec(&mut text, &d.name.name);
                crate::errors::append_bytes(&mut text, " = ".as_bytes());
                let es = expr_string(&d.body);
                crate::errors::append_vec(&mut text, &es);
                text.push(10u8);
                proof {
                    assert(text@ =~= pre + sp_statement_text(parse@.ast.statements[i as int]));
                }
            },
            TopLevelStatement::Print(e, _) => {
                crate::errors::append_bytes(&mut text, "print(".as_bytes());
                let es = expr_string(e);
                crate::errors::append_vec(&mut text, &es);
                text.push(41u8);
                text.push(10u8);
                proof {
                    assert(text@ =~= pre + sp_statement_text(parse@.ast.statements[i as int]));
                }
            },
        }
        i = i + 1;
    }
    // the union of this file's diagnostics
    let mut errors: Errors = crate::errors::errors_copy(visible_errors);
    let m = checks.len();
    let mut k: usize = 0;
    while k < m
        invariant
            m == checks@.len(),
            0 <= k <= m,
            sp_compile_errors(checks_view(checks@), 0, errs_view(visible_errors@))
                == sp_compile_errors(checks_view(checks@), k as int, errs_view(errors@)),
        decreases m - k,
    {
        let ghost pre = errs_view(errors@);
        proof {
            assert(checks_view(checks@)[k as int] == (
                checks@[k as int].0@.errors,
                checks@[k as int].1@.errors,
            ));
        }
        let more = crate::errors::errors_copy(&checks[k].0.errors);
        append_errors(&mut errors, &more);
        let more2 = crate::errors::errors_copy(&checks[k].1.errors);
        append_errors(&mut errors, &more2);
        proof {
            assert(errs_view(errors@) =~= pre + checks_view(checks@)[k as int].0 + checks_view(
                checks@,
            )[k as int].1);
        }
        k = k + 1;
    }
    (text, errors)
}

/// Append a list of diagnostics.
#[verifier::loop_isolation(false)]
fn append_errors(out: &mut Errors, more: &Errors)
    ensures
        errs_view(final(out)@) == errs_view(old(out)@) + errs_view(more@),
{
    let n = more.len();
    let mut i: usize = 0;
    while i < n
        invariant
            n == more@.len(),
            0 <= i <= n,
            errs_view(out@) =~= errs_view(old(out)@) + errs_view(more@).subrange(0, i as int),
        decreases n - i,
    {
        let ghost pre = errs_view(out@);
        let copied = crate::errors::error_copy(&more[i]);
        let ghost cv = copied@;
        out.push(copied);
        proof {
            assert(errs_view(more@)[i as int] == more@[i as int]@);
            assert(errs_view(out@) =~= pre + seq![cv]);
            assert(errs_view(more@).subrange(0, i + 1) =~= errs_view(more@).subrange(0, i as int)
                + seq![cv]);
            assert(errs_view(out@) =~= errs_view(old(out)@) + errs_view(more@).subrange(0, i + 1));
        }
        i = i + 1;
    }
    proof {
        assert(errs_view(more@).subrange(0, n as int) =~= errs_view(more@));
        assert(errs_view(out@) =~= errs_view(old(out)@) + errs_view(more@));
    }
}

} // verus!
