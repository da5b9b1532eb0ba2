//! Name resolution for a single top level statement: each identifier use is
//! bound to its origin — a lambda parameter (parameters shadow globals) or a
//! visible top level definition.  The built-in operators `+` and `-` need no
//! binding.  Unknown names are reported as `NameNotInScope`.

use vstd::prelude::*;

use crate::ast::{Expression, SpecExpr, SpecStatement, TopLevelStatement};
use crate::definition_collection::{
    defs_lookup, defs_view, sp_expr_location, Definitions, SpecDefBinding,
};
use crate::errors::{bytes_clone, bytes_eq, Error, Errors, SpecError};
use crate::ids::{ExprId, SpecTopLevelId, TopLevelId};
use crate::parser::{errs_view, tld_view, SpecMetaData, TopLevelMetaData};
use crate::table::{assoc_insert, assoc_lookup, lemma_assoc_insert_absent, lemma_assoc_insert_at};

verus! {

/// Where a variable use was defined.
pub enum Origin {
    /// The name refers to this top level definition.
    TopLevelDefinition(TopLevelId),
    /// The name is the parameter of the lambda with this expression id;
    /// every lambda binds exactly one parameter.
    Parameter(ExprId),
}

pub ghost enum SpecOrigin {
    TopLevelDefinition(SpecTopLevelId),
    Parameter(ExprId),
}

impl View for Origin {
    type V = SpecOrigin;

    open spec fn view(&self) -> SpecOrigin {
        match self {
            Origin::TopLevelDefinition(id) => SpecOrigin::TopLevelDefinition(id@),
            Origin::Parameter(id) => SpecOrigin::Parameter(*id),
        }
    }
}

/// The origins of every variable use in one statement, plus the errors.
pub struct ResolutionResult {
    pub origins: Vec<(ExprId, Origin)>,
    pub errors: Errors,
}

pub ghost struct SpecResolutionResult {
    pub origins: Seq<(ExprId, SpecOrigin)>,
    pub errors: Seq<SpecError>,
}

/// The model of an origins table.
pub open spec fn origins_view(s: Seq<(ExprId, Origin)>) -> Seq<(ExprId, SpecOrigin)> {
    s.map_values(|p: (ExprId, Origin)| (p.0, p.1@))
}

impl View for ResolutionResult {
    type V = SpecResolutionResult;

    open spec fn view(&self) -> SpecResolutionResult {
        SpecResolutionResult { origins: origins_view(self.origins@), errors: errs_view(self.errors@) }
    }
}

// ---------------------------------------------------------------------------
// Specification
// ---------------------------------------------------------------------------
/// The resolver's working state: bindings found so far, errors, and the
/// stack of lambda parameters in scope (later entries shadow earlier ones).
pub ghost struct SpecResolver {
    pub links: Seq<(ExprId, SpecOrigin)>,
    pub errors: Seq<SpecError>,
    pub params: Seq<(Seq<u8>, ExprId)>,
}

/// The innermost parameter with this name.
pub open spec fn sp_stack_lookup(params: Seq<(Seq<u8>, ExprId)>, name: Seq<u8>) -> Option<ExprId>
    decreases params.len(),
{
    if params.len() == 0 {
        None
    } else if params.last().0 == name {
        Some(params.last().1)
    } else {
        sp_stack_lookup(params.drop_last(), name)
    }
}

/// Bind one variable use, or report it.
pub open spec fn sp_link(
    st: SpecResolver,
    name: Seq<u8>,
    eid: ExprId,
    globals: Seq<(Seq<u8>, SpecDefBinding)>,
    tld: Seq<(SpecTopLevelId, SpecMetaData)>,
    item: SpecTopLevelId,
    file: Seq<u8>,
) -> SpecResolver {
    if name == seq![43u8] || name == seq![45u8] {
        st
    } else {
        match sp_stack_lookup(st.params, name) {
            Some(pid) => SpecResolver {
                links: assoc_insert(st.links, eid, SpecOrigin::Parameter(pid)),
                ..st
            },
            None => match assoc_lookup(globals, name) {
                Some(b) => SpecResolver {
                    links: assoc_insert(st.links, eid, SpecOrigin::TopLevelDefinition(b.id)),
                    ..st
                },
                None => SpecResolver {
                    errors: st.errors + seq![
                        SpecError::NameNotInScope {
                            name: name,
                            location: sp_expr_location(tld, item, eid, file),
                        },
                    ],
                    ..st
                },
            },
        }
    }
}

/// Walk an expression, maintaining the parameter stack.
pub open spec fn sp_resolve_expr(
    e: SpecExpr,
    st: SpecResolver,
    globals: Seq<(Seq<u8>, SpecDefBinding)>,
    tld: Seq<(SpecTopLevelId, SpecMetaData)>,
    item: SpecTopLevelId,
    file: Seq<u8>,
) -> SpecResolver
    decreases e,
{
    match e {
        SpecExpr::IntegerLiteral(x, id) => st,
        SpecExpr::Variable(ident) => sp_link(st, ident.name, ident.id, globals, tld, item, file),
        SpecExpr::FunctionCall { function, argument, id } => {
            let st1 = sp_resolve_expr(*function, st, globals, tld, item, file);
            sp_resolve_expr(*argument, st1, globals, tld, item, file)
        },
        SpecExpr::Lambda { parameter_name, body, id } => {
            let st1 = SpecResolver {
                params: st.params.push((parameter_name.name, parameter_name.id)),
                ..st
            };
            let st2 = sp_resolve_expr(*body, st1, globals, tld, item, file);
            SpecResolver { params: st.params, ..st2 }
        },
    }
}

/// Resolution leaves the parameter stack as it found it.
pub proof fn lemma_resolve_preserves_params(
    e: SpecExpr,
    st: SpecResolver,
    globals: Seq<(Seq<u8>, SpecDefBinding)>,
    tld: Seq<(SpecTopLevelId, SpecMetaData)>,
    item: SpecTopLevelId,
    file: Seq<u8>,
)
    ensures
        sp_resolve_expr(e, st, globals, tld, item, file).params == st.params,
    decreases e,
{
    match e {
        SpecExpr::IntegerLiteral(x, id) => {},
        SpecExpr::Variable(ident) => {},
        SpecExpr::FunctionCall { function, argument, id } => {
            let st1 = sp_resolve_expr(*function, st, globals, tld, item, file);
            lemma_resolve_preserves_params(*function, st, globals, tld, item, file);
            lemma_resolve_preserves_params(*argument, st1, globals, tld, item, file);
        },
        SpecExpr::Lambda { parameter_name, body, id } => {},
    }
}

/// Resolve one statement: imports bind nothing; definitions and prints
/// resolve their body.
pub open spec fn sp_resolve_impl(
    stmt: Option<SpecStatement>,
    globals: Seq<(Seq<u8>, SpecDefBinding)>,
    tld: Seq<(SpecTopLevelId, SpecMetaData)>,
    item: SpecTopLevelId,
    file: Seq<u8>,
) -> SpecResolutionResult {
    let st0 = SpecResolver { links: Seq::empty(), errors: Seq::empty(), params: Seq::empty() };
    let st = match stmt {
        None => st0,
        Some(SpecStatement::Import { .. }) => st0,
        Some(SpecStatement::Definition(d)) => sp_resolve_expr(d.body, st0, globals, tld, item, file),
        Some(SpecStatement::Print(e, _)) => sp_resolve_expr(e, st0, globals, tld, item, file),
    };
    SpecResolutionResult { origins: st.links, errors: st.errors }
}

// ---------------------------------------------------------------------------
// Executable resolver
// ---------------------------------------------------------------------------
struct Resolver {
    links: Vec<(ExprId, Origin)>,
    errors: Errors,
    params: Vec<(Vec<u8>, ExprId)>,
}

impl View for Resolver {
    type V = SpecResolver;

    closed spec fn view(&self) -> SpecResolver {
        SpecResolver {
            links: origins_view(self.links@),
            errors: errs_view(self.errors@),
            params: self.params@.map_values(|p: (Vec<u8>, ExprId)| (p.0@, p.1)),
        }
    }
}

impl Resolver {
    /// Record one binding, replacing any earlier one for the same use.
    fn insert_link(&mut self, eid: ExprId, origin: Origin)
        ensures
            final(self)@ == (SpecResolver {
                links: assoc_insert(old(self)@.links, eid, origin@),
                ..old(self)@
            }),
    {
        let ghost before = self@.links;
        let n = self.links.len();
        let mut k: usize = 0;
        let mut found = false;
        while k < n && !found
            invariant
                n == self.links@.len(),
                0 <= k <= n,
                !found ==> forall|j: int| 0 <= j < k ==> (#[trigger] self.links@[j]).0 != eid,
                found ==> k < n && self.links@[k as int].0 == eid && forall|j: int|
                    0 <= j < k ==> (#[trigger] self.links@[j]).0 != eid,
            decreases n - k, (if found { 0int } else { 1int }),
        {
            if self.links[k].0 == eid {
                found = true;
            } else {
                k = k + 1;
            }
        }
        if found {
            self.links[k] = (eid, origin);
            proof {
                lemma_assoc_insert_at(before, eid, origin@, k as int);
                assert(origins_view(self.links@) =~= assoc_insert(before, eid, origin@));
            }
        } else {
            self.links.push((eid, origin));
            proof {
                lemma_assoc_insert_absent(before, eid, origin@);
                assert(origins_view(self.links@) =~= assoc_insert(before, eid, origin@));
            }
        }
    }

    /// The innermost parameter with this name, if any.
    fn stack_lookup(&self, name: &Vec<u8>) -> (r: Option<ExprId>)
        ensures
            r == sp_stack_lookup(self@.params, name@),
    {
        let n = self.params.len();
        let mut k: usize = n;
        proof {
            assert(self@.params.subrange(0, n as int) =~= self@.params);
        }
        while k > 0
            invariant
                n == self.params@.len(),
                0 <= k <= n,
                sp_stack_lookup(self@.params, name@) == sp_stack_lookup(
                    self@.params.subrange(0, k as int),
                    name@,
                ),
            decreases k,
        {
            let ghost pk = self@.params.subrange(0, k as int);
            proof {
                assert(pk.last() == (self.params@[k - 1].0@, self.params@[k - 1].1));
                assert(pk.drop_last() =~= self@.params.subrange(0, k - 1));
            }
            if bytes_eq(&self.params[k - 1].0, name) {
                return Some(self.params[k - 1].1);
            }
            k = k - 1;
        }
        proof {
            assert(self@.params.subrange(0, 0) =~= Seq::<(Seq<u8>, ExprId)>::empty());
        }
        None
    }

    /// Bind one variable use.
    fn link(
        &mut self,
        name: &Vec<u8>,
        eid: ExprId,
        globals: &Definitions,
        tld: &Vec<(TopLevelId, TopLevelMetaData)>,
        item: &TopLevelId,
        file: &Vec<u8>,
    )
        ensures
            final(self)@ == sp_link(old(self)@, name@, eid, defs_view(globals@), tld_view(tld@), item@, file@),
    {
        let is_plus = name.len() == 1 && name[0] == 43;
        let is_minus = name.len() == 1 && name[0] == 45;
        if is_plus || is_minus {
            proof {
                if is_plus {
                    assert(name@ =~= seq![43u8]);
                } else {
                    assert(name@ =~= seq![45u8]);
                }
            }
            return;
        }
        proof {
            assert(name@ != seq![43u8]);
            assert(name@ != seq![45u8]);
        }
        match self.stack_lookup(name) {
            Some(pid) => {
                self.insert_link(eid, Origin::Parameter(pid));
            },
            None => {
                match defs_lookup(globals, name) {
                    Some(b) => {
                        let id = b.id.copied();
                        self.insert_link(eid, Origin::TopLevelDefinition(id));
                    },
                    None => {
                        let location = crate::definition_collection::expr_location(
                            tld,
                            item,
                            eid,
                            file,
                        );
                        let e = Error::NameNotInScope { name: bytes_clone(name), location };
                        self.errors.push(e);
                        proof {
                            assert(errs_view(self.errors@) =~= errs_view(old(self).errors@)
                                + seq![e@]);
                        }
                    },
                }
            },
        }
    }

    /// Walk an expression, pushing and popping lambda parameters.
    fn resolve_expr(
        &mut self,
        expression: &Expression,
        globals: &Definitions,
        tld: &Vec<(TopLevelId, TopLevelMetaData)>,
        item: &TopLevelId,
        file: &Vec<u8>,
    )
        ensures
            final(self)@ == sp_resolve_expr(
                expression@,
                old(self)@,
                defs_view(globals@),
                tld_view(tld@),
                item@,
                file@,
            ),
        decreases expression,
    {
        match expression {
            Expression::IntegerLiteral(..) => {},
            Expression::Variable(identifier) => {
                self.link(&identifier.name, identifier.id, globals, tld, item, file);
            },
            Expression::FunctionCall { function, argument, id } => {
                self.resolve_expr(function, globals, tld, item, file);
                self.resolve_expr(argument, globals, tld, item, file);
            },
            Expression::Lambda { parameter_name, body, id } => {
                let ghost saved = self@.params;
                self.params.push((bytes_clone(&parameter_name.name), parameter_name.id));
                proof {
                    assert(self@.params =~= saved.push((parameter_name.name@, parameter_name.id)));
                }
                self.resolve_expr(body, globals, tld, item, file);
                let ghost before_pop = self@.params;
                proof {
                    lemma_resolve_preserves_params(
                        body@,
                        SpecResolver { params: saved.push((parameter_name.name@, parameter_name.id)), ..old(self)@ },
                        defs_view(globals@),
                        tld_view(tld@),
                        item@,
                        file@,
                    );
                    assert(before_pop =~= saved.push((parameter_name.name@, parameter_name.id)));
                }
                let popped = self.params.pop();
                proof {
                    assert(self@.params =~= before_pop.drop_last());
                    assert(self@.params =~= saved);
                }
            },
        }
    }
}

/// Resolve a single top level statement against the names visible in its
/// file.
pub fn resolve_impl(
    statement: &Option<TopLevelStatement>,
    globals: &Definitions,
    parse_meta: &Vec<(TopLevelId, TopLevelMetaData)>,
    item: &TopLevelId,
    file: &Vec<u8>,
) -> (r: ResolutionResult)
    ensures
        r@ == sp_resolve_impl(
            match statement {
                Some(s) => Some(s@),
                None => None,
            },
            defs_view(globals@),
            tld_view(parse_meta@),
            item@,
            file@,
        ),
{
    let mut resolver = Resolver { links: Vec::new(), errors: Vec::new(), params: Vec::new() };
    proof {
        assert(resolver@.links =~= Seq::<(ExprId, SpecOrigin)>::empty());
        assert(resolver@.errors =~= Seq::<SpecError>::empty());
        assert(resolver@.params =~= Seq::<(Seq<u8>, ExprId)>::empty());
    }
    match statement {
        None => {},
        Some(TopLevelStatement::Import { .. }) => {},
        Some(TopLevelStatement::Definition(d)) => {
            resolver.resolve_expr(&d.body, globals, parse_meta, item, file);
        },
        Some(TopLevelStatement::Print(e, _)) => {
            resolver.resolve_expr(e, globals, parse_meta, item, file);
        },
    }
    ResolutionResult { origins: resolver.links, errors: resolver.errors }
}

} // verus!
