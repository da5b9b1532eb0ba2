//! Types and Hindley–Milner style inference for one top level statement.
//!
//! Type variables are plain ids; their bindings live in an externalized,
//! statement-local table rather than in mutable cells, so types stay
//! immutable, comparable and serializable.  The binding table is kept fully
//! resolved: no type in its range mentions a bound variable.  Binding a new
//! variable first substitutes it away from every stored range, so the table
//! can never form a cycle — the occurs check stays sound by construction.

use vstd::prelude::*;

use crate::ast::{SpecAstType, SpecExpr, SpecIdentifier, SpecStatement, TopLevelStatement};
use crate::ast::Identifier;
use crate::errors::{
    bytes_clone, bytes_eq, dec_u32, spec_dec_nat, Error, Errors, LocationData, SpecError,
    SpecLocation,
};
use crate::ids::{ExprId, SpecTopLevelId, TopLevelId};
use crate::parser::{errs_view, SpecMetaData, TopLevelMetaData};
use crate::table::{assoc_insert, assoc_lookup, lemma_assoc_lookup_absent, lemma_assoc_lookup_at};

verus! {

/// A type variable, allocated from a per-statement counter.
#[derive(Clone, Copy, PartialEq, Eq, Structural, Debug)]
pub struct TypeVariableId(pub u32);

/// A type as the inferencer sees it.  `Error` is a sentinel that unifies
/// with anything, so one mistake does not cascade.
pub enum Type {
    Error,
    Unit,
    Int,
    Generic(Identifier),
    TypeVariable(TypeVariableId),
    Function { parameter: Box<Type>, return_type: Box<Type> },
}

pub ghost enum SpecInfType {
    Error,
    Unit,
    Int,
    Generic(SpecIdentifier),
    TypeVariable(TypeVariableId),
    Function { parameter: Box<SpecInfType>, return_type: Box<SpecInfType> },
}

/// The model of an inference type.
pub open spec fn inf_type_view(t: Type) -> SpecInfType
    decreases t,
{
    match t {
        Type::Error => SpecInfType::Error,
        Type::Unit => SpecInfType::Unit,
        Type::Int => SpecInfType::Int,
        Type::Generic(ident) => SpecInfType::Generic(ident@),
        Type::TypeVariable(v) => SpecInfType::TypeVariable(v),
        Type::Function { parameter, return_type } => SpecInfType::Function {
            parameter: Box::new(inf_type_view(*parameter)),
            return_type: Box::new(inf_type_view(*return_type)),
        },
    }
}

impl View for Type {
    type V = SpecInfType;

    open spec fn view(&self) -> SpecInfType {
        inf_type_view(*self)
    }
}

/// The externalized substitution: type variable to type.
pub type TypeBindings = Vec<(TypeVariableId, Type)>;

/// The model of a binding table.
pub open spec fn bindings_view(s: Seq<(TypeVariableId, Type)>) -> Seq<(TypeVariableId, SpecInfType)> {
    s.map_values(|p: (TypeVariableId, Type)| (p.0, p.1@))
}

/// A deep copy of a type.
pub fn inf_type_copy(t: &Type) -> (r: Type)
    ensures
        r@ == t@,
    decreases t,
{
    match t {
        Type::Error => Type::Error,
        Type::Unit => Type::Unit,
        Type::Int => Type::Int,
        Type::Generic(ident) => Type::Generic(
            Identifier { name: bytes_clone(&ident.name), id: ident.id },
        ),
        Type::TypeVariable(v) => Type::TypeVariable(*v),
        Type::Function { parameter, return_type } => Type::Function {
            parameter: Box::new(inf_type_copy(parameter)),
            return_type: Box::new(inf_type_copy(return_type)),
        },
    }
}

/// Structural equality of types, over the models.
pub fn inf_type_eq(a: &Type, b: &Type) -> (r: bool)
    ensures
        r == (a@ == b@),
    decreases a,
{
    match (a, b) {
        (Type::Error, Type::Error) => true,
        (Type::Unit, Type::Unit) => true,
        (Type::Int, Type::Int) => true,
        (Type::Generic(m), Type::Generic(n)) => {
            let r = bytes_eq(&m.name, &n.name) && m.id == n.id;
            proof {
                if r {
                    assert(m@ == n@);
                }
            }
            r
        },
        (Type::TypeVariable(v), Type::TypeVariable(w)) => v == w,
        (
            Type::Function { parameter: p1, return_type: r1 },
            Type::Function { parameter: p2, return_type: r2 },
        ) => inf_type_eq(p1, p2) && inf_type_eq(r1, r2),
        _ => false,
    }
}

// ---------------------------------------------------------------------------
// From source types
// ---------------------------------------------------------------------------
/// Lift a type annotation into an inference type.
pub open spec fn sp_from_ast_type(t: SpecAstType) -> SpecInfType
    decreases t,
{
    match t {
        SpecAstType::Int => SpecInfType::Int,
        SpecAstType::Generic(ident) => SpecInfType::Generic(ident),
        SpecAstType::Function { parameter, return_type } => SpecInfType::Function {
            parameter: Box::new(sp_from_ast_type(*parameter)),
            return_type: Box::new(sp_from_ast_type(*return_type)),
        },
    }
}

impl Type {
    /// Lift a type annotation into an inference type.
    pub fn from_ast_type(typ: &crate::ast::Type) -> (r: Type)
        ensures
            r@ == sp_from_ast_type(typ@),
        decreases typ,
    {
        match typ {
            crate::ast::Type::Int => Type::Int,
            crate::ast::Type::Generic(ident) => Type::Generic(
                Identifier { name: bytes_clone(&ident.name), id: ident.id },
            ),
            crate::ast::Type::Function { parameter, return_type } => Type::Function {
                parameter: Box::new(Self::from_ast_type(parameter)),
                return_type: Box::new(Self::from_ast_type(return_type)),
            },
        }
    }
}

// ---------------------------------------------------------------------------
// Substitution
// ---------------------------------------------------------------------------
/// Replace variables by the given map, without following any bindings.
pub open spec fn sp_apply_subst(t: SpecInfType, s: Seq<(TypeVariableId, SpecInfType)>) -> SpecInfType
    decreases t,
{
    match t {
        SpecInfType::TypeVariable(v) => match assoc_lookup(s, v) {
            Some(st) => st,
            None => t,
        },
        SpecInfType::Function { parameter, return_type } => SpecInfType::Function {
            parameter: Box::new(sp_apply_subst(*parameter, s)),
            return_type: Box::new(sp_apply_subst(*return_type, s)),
        },
        _ => t,
    }
}

/// Substitute both the permanent bindings and the extra substitutions; a
/// found binding is substituted further (its range may mention variables the
/// extra map replaces), a found substitution is taken as is.
pub open spec fn sp_substitute(
    t: SpecInfType,
    substitutions: Seq<(TypeVariableId, SpecInfType)>,
    bindings: Seq<(TypeVariableId, SpecInfType)>,
) -> SpecInfType
    decreases t,
{
    match t {
        SpecInfType::TypeVariable(v) => match assoc_lookup(bindings, v) {
            Some(bt) => sp_apply_subst(bt, substitutions),
            None => match assoc_lookup(substitutions, v) {
                Some(st) => st,
                None => t,
            },
        },
        SpecInfType::Function { parameter, return_type } => SpecInfType::Function {
            parameter: Box::new(sp_substitute(*parameter, substitutions, bindings)),
            return_type: Box::new(sp_substitute(*return_type, substitutions, bindings)),
        },
        _ => t,
    }
}

/// Look up a type variable.
pub fn bindings_lookup<'a>(bindings: &'a TypeBindings, v: TypeVariableId) -> (r: Option<&'a Type>)
    ensures
        match r {
            Some(t) => assoc_lookup(bindings_view(bindings@), v) == Some(t@),
            None => assoc_lookup(bindings_view(bindings@), v) is None,
        },
{
    let n = bindings.len();
    let mut i: usize = 0;
    while i < n
        invariant
            n == bindings@.len(),
            0 <= i <= n,
            forall|j: int| 0 <= j < i ==> (#[trigger] bindings@[j]).0 != v,
        decreases n - i,
    {
        if bindings[i].0 == v {
            proof {
                assert(bindings_view(bindings@)[i as int] == (
                    bindings@[i as int].0,
                    bindings@[i as int].1@,
                ));
                lemma_assoc_lookup_at(bindings_view(bindings@), v, i as int);
            }
            return Some(&bindings[i].1);
        }
        i = i + 1;
    }
    proof {
        lemma_assoc_lookup_absent(bindings_view(bindings@), v);
    }
    None
}

/// Replace variables by `s`, without following bindings.
pub fn apply_subst(t: &Type, s: &TypeBindings) -> (r: Type)
    ensures
        r@ == sp_apply_subst(t@, bindings_view(s@)),
    decreases t,
{
    match t {
        Type::TypeVariable(v) => match bindings_lookup(s, *v) {
            Some(st) => inf_type_copy(st),
            None => Type::TypeVariable(*v),
        },
        Type::Function { parameter, return_type } => Type::Function {
            parameter: Box::new(apply_subst(parameter, s)),
            return_type: Box::new(apply_subst(return_type, s)),
        },
        Type::Error => Type::Error,
        Type::Unit => Type::Unit,
        Type::Int => Type::Int,
        Type::Generic(ident) => Type::Generic(
            Identifier { name: bytes_clone(&ident.name), id: ident.id },
        ),
    }
}

/// Substitute bound variables by their binding (itself run through the
/// substitution map) and unbound ones by the substitution map.  The table is
/// applied one level; the inferencer only builds fully resolved tables, for
/// which one level is full resolution (see [`bindings_resolved`]).
fn apply_bindings(t: &Type, substitutions: &TypeBindings, bindings: &TypeBindings) -> (r: Type)
    ensures
        r@ == sp_substitute(t@, bindings_view(substitutions@), bindings_view(bindings@)),
    decreases t,
{
    match t {
        Type::TypeVariable(v) => match bindings_lookup(bindings, *v) {
            Some(bt) => apply_subst(bt, substitutions),
            None => match bindings_lookup(substitutions, *v) {
                Some(st) => inf_type_copy(st),
                None => Type::TypeVariable(*v),
            },
        },
        Type::Function { parameter, return_type } => Type::Function {
            parameter: Box::new(apply_bindings(parameter, substitutions, bindings)),
            return_type: Box::new(apply_bindings(return_type, substitutions, bindings)),
        },
        Type::Error => Type::Error,
        Type::Unit => Type::Unit,
        Type::Int => Type::Int,
        Type::Generic(ident) => Type::Generic(
            Identifier { name: bytes_clone(&ident.name), id: ident.id },
        ),
    }
}

/// No type in the table's range mentions any of the table's keys: the shape
/// every table the inferencer builds has (binding composes the new pair into
/// every stored range first), under which following a binding once resolves
/// it completely and no chain of bindings can loop.
pub open spec fn bindings_resolved(b: Seq<(TypeVariableId, SpecInfType)>) -> bool {
    forall|i: int| 0 <= i < b.len() ==> sp_free_of((#[trigger] b[i]).1, b)
}

/// Whether `t` mentions no key of the table `b`.
pub open spec fn sp_free_of(t: SpecInfType, b: Seq<(TypeVariableId, SpecInfType)>) -> bool
    decreases t,
{
    match t {
        SpecInfType::TypeVariable(v) => !crate::table::assoc_has_key(b, v),
        SpecInfType::Function { parameter, return_type } => sp_free_of(*parameter, b)
            && sp_free_of(*return_type, b),
        _ => true,
    }
}

impl Type {
    /// Substitutes type variables with the given id with the corresponding
    /// type in the maps: a bound variable becomes its binding (itself run
    /// through `substitutions`), an unbound one its entry in
    /// `substitutions`, if any.  The binding table must be fully resolved —
    /// the invariant the inferencer maintains — so that one application is
    /// transitive resolution: no bound variable survives in the result (see
    /// [`lemma_substitute_free`]).
    pub fn substitute(&self, substitutions: &TypeBindings, bindings: &TypeBindings) -> (r: Type)
        requires
            bindings_resolved(bindings_view(bindings@)),
        ensures
            r@ == sp_substitute(self@, bindings_view(substitutions@), bindings_view(bindings@)),
    {
        apply_bindings(self, substitutions, bindings)
    }
}

// ---------------------------------------------------------------------------
// The occurs check
// ---------------------------------------------------------------------------
/// Whether variable `v` occurs anywhere in `t` itself.
pub open spec fn sp_occurs_direct(v: TypeVariableId, t: SpecInfType) -> bool
    decreases t,
{
    match t {
        SpecInfType::TypeVariable(w) => v == w,
        SpecInfType::Function { parameter, return_type } => sp_occurs_direct(v, *parameter)
            || sp_occurs_direct(v, *return_type),
        _ => false,
    }
}

/// Whether `v` occurs in `t`, looking through bound variables once; the
/// binding table keeps its ranges fully resolved, so once is enough.
pub open spec fn sp_occurs(
    v: TypeVariableId,
    t: SpecInfType,
    bindings: Seq<(TypeVariableId, SpecInfType)>,
) -> bool
    decreases t,
{
    match t {
        SpecInfType::TypeVariable(w) => match assoc_lookup(bindings, w) {
            Some(bt) => sp_occurs_direct(v, bt),
            None => v == w,
        },
        SpecInfType::Function { parameter, return_type } => sp_occurs(v, *parameter, bindings)
            || sp_occurs(v, *return_type, bindings),
        _ => false,
    }
}

/// Whether `v` occurs anywhere in `t` itself.
pub fn occurs_direct(v: TypeVariableId, t: &Type) -> (r: bool)
    ensures
        r == sp_occurs_direct(v, t@),
    decreases t,
{
    match t {
        Type::TypeVariable(w) => v == *w,
        Type::Function { parameter, return_type } => occurs_direct(v, parameter) || occurs_direct(
            v,
            return_type,
        ),
        _ => false,
    }
}

impl TypeVariableId {
    /// Whether this variable occurs in `other`, looking through bound
    /// variables.  The binding table must be fully resolved — the invariant
    /// the inferencer maintains — so that one look through a binding is the
    /// transitive check.
    pub fn occurs_in(self, other: &Type, bindings: &TypeBindings) -> (r: bool)
        requires
            bindings_resolved(bindings_view(bindings@)),
        ensures
            r == sp_occurs(self, other@, bindings_view(bindings@)),
        decreases other,
    {
        match other {
            Type::TypeVariable(w) => match bindings_lookup(bindings, *w) {
                Some(bt) => occurs_direct(self, bt),
                None => self == *w,
            },
            Type::Function { parameter, return_type } => self.occurs_in(parameter, bindings)
                || self.occurs_in(return_type, bindings),
            _ => false,
        }
    }
}

// ---------------------------------------------------------------------------
// Rendering
// ---------------------------------------------------------------------------
/// How a type is shown to users.
pub open spec fn sp_type_text(t: SpecInfType) -> Seq<u8>
    decreases t,
{
    match t {
        SpecInfType::Error => crate::errors::lit("(error)"),
        SpecInfType::Unit => crate::errors::lit("Unit"),
        SpecInfType::Int => crate::errors::lit("Int"),
        SpecInfType::Generic(ident) => ident.name,
        SpecInfType::TypeVariable(v) => seq![95u8] + spec_dec_nat(v.0 as int),
        SpecInfType::Function { parameter, return_type } => {
            let p = if *parameter is Function {
                seq![40u8] + sp_type_text(*parameter) + seq![41u8]
            } else {
                sp_type_text(*parameter)
            };
            p + crate::errors::lit(" -> ") + sp_type_text(*return_type)
        },
    }
}

/// Render a type.
pub fn type_text(t: &Type) -> (r: Vec<u8>)
    ensures
        r@ == sp_type_text(t@),
    decreases t,
{
    match t {
        Type::Error => {
            let mut v: Vec<u8> = Vec::new();
            crate::errors::append_bytes(&mut v, "(error)".as_bytes());
            proof {
                assert(v@ =~= sp_type_text(t@));
            }
            v
        },
        Type::Unit => {
            let mut v: Vec<u8> = Vec::new();
            crate::errors::append_bytes(&mut v, "Unit".as_bytes());
            proof {
                assert(v@ =~= sp_type_text(t@));
            }
            v
        },
        Type::Int => {
            let mut v: Vec<u8> = Vec::new();
            crate::errors::append_bytes(&mut v, "Int".as_bytes());
            proof {
                assert(v@ =~= sp_type_text(t@));
            }
            v
        },
        Type::Generic(ident) => bytes_clone(&ident.name),
        Type::TypeVariable(tv) => {
            let mut v: Vec<u8> = Vec::new();
            v.push(95u8);
            let digits = dec_u32(tv.0);
            crate::errors::append_vec(&mut v, &digits);
            proof {
                assert(v@ =~= sp_type_text(t@));
            }
            v
        },
        Type::Function { parameter, return_type } => {
            let mut v: Vec<u8> = Vec::new();
            let is_fn = matches!(**parameter, Type::Function { .. });
            let pt = type_text(parameter);
            if is_fn {
                v.push(40u8);
                crate::errors::append_vec(&mut v, &pt);
                v.push(41u8);
                proof {
                    assert(v@ =~= seq![40u8] + sp_type_text(parameter@) + seq![41u8]);
                }
            } else {
                crate::errors::append_vec(&mut v, &pt);
                proof {
                    assert(v@ =~= sp_type_text(parameter@));
                }
            }
            crate::errors::append_bytes(&mut v, " -> ".as_bytes());
            let rt = type_text(return_type);
            crate::errors::append_vec(&mut v, &rt);
            proof {
                assert(v@ =~= sp_type_text(t@));
            }
            v
        },
    }
}

} // verus!

verus! {

// ---------------------------------------------------------------------------
// Top level definition types
// ---------------------------------------------------------------------------
/// A top level definition's type, with its generalized (generic) variables.
/// Generalization is deliberately conservative: the quantifier list stays
/// empty, matching monomorphic inference.
pub struct TopLevelDefinitionType {
    pub type_variables: Vec<TypeVariableId>,
    pub typ: Type,
}

pub ghost struct SpecTopType {
    pub type_variables: Seq<TypeVariableId>,
    pub typ: SpecInfType,
}

impl View for TopLevelDefinitionType {
    type V = SpecTopType;

    open spec fn view(&self) -> SpecTopType {
        SpecTopType { type_variables: self.type_variables@, typ: self.typ@ }
    }
}

/// The `Unit` scheme, used for imports and prints.
pub open spec fn sp_unit_top() -> SpecTopType {
    SpecTopType { type_variables: Seq::empty(), typ: SpecInfType::Unit }
}

impl Type {
    /// Close over a type to form a scheme; the quantifier list stays empty.
    pub fn generalize(&self) -> (r: TopLevelDefinitionType)
        ensures
            r@ == (SpecTopType { type_variables: Seq::<TypeVariableId>::empty(), typ: self@ }),
    {
        let r = TopLevelDefinitionType { type_variables: Vec::new(), typ: inf_type_copy(self) };
        proof {
            assert(r@.type_variables =~= Seq::<TypeVariableId>::empty());
        }
        r
    }
}

impl TopLevelDefinitionType {
    pub fn new(type_variables: Vec<TypeVariableId>, typ: Type) -> (r: TopLevelDefinitionType)
        ensures
            r@ == (SpecTopType { type_variables: type_variables@, typ: typ@ }),
    {
        TopLevelDefinitionType { typ, type_variables }
    }

    pub fn unit() -> (r: TopLevelDefinitionType)
        ensures
            r@ == sp_unit_top(),
    {
        let r = TopLevelDefinitionType { type_variables: Vec::new(), typ: Type::Unit };
        proof {
            assert(r@.type_variables =~= Seq::<TypeVariableId>::empty());
        }
        r
    }

    pub fn from_ast_type(ast_type: &crate::ast::Type) -> (r: TopLevelDefinitionType)
        ensures
            r@ == (SpecTopType {
                type_variables: Seq::<TypeVariableId>::empty(),
                typ: sp_from_ast_type(ast_type@),
            }),
    {
        let t = Type::from_ast_type(ast_type);
        t.generalize()
    }

    /// A fresh copy.
    pub fn copied(&self) -> (r: TopLevelDefinitionType)
        ensures
            r@ == self@,
    {
        let mut type_variables: Vec<TypeVariableId> = Vec::new();
        let n = self.type_variables.len();
        let mut i: usize = 0;
        while i < n
            invariant
                n == self.type_variables@.len(),
                0 <= i <= n,
                type_variables@ =~= self.type_variables@.subrange(0, i as int),
            decreases n - i,
        {
            type_variables.push(self.type_variables[i]);
            i = i + 1;
        }
        proof {
            assert(type_variables@ =~= self.type_variables@);
        }
        TopLevelDefinitionType { type_variables, typ: inf_type_copy(&self.typ) }
    }

    /// A printer for this scheme under the given bindings.
    pub fn display(&self, bindings: &TypeBindings) -> (r: TopLevelTypePrinter)
        ensures
            r.typ@ == self@,
            bindings_view(r.bindings@) == bindings_view(bindings@),
    {
        TopLevelTypePrinter { typ: self.copied(), bindings: bindings_copy(bindings) }
    }
}

/// A fresh copy of a binding table.
pub fn bindings_copy(bindings: &TypeBindings) -> (r: TypeBindings)
    ensures
        bindings_view(r@) == bindings_view(bindings@),
{
    let mut r: TypeBindings = Vec::new();
    let n = bindings.len();
    let mut i: usize = 0;
    while i < n
        invariant
            n == bindings@.len(),
            0 <= i <= n,
            r@.len() == i,
            forall|j: int|
                0 <= j < i ==> (#[trigger] r@[j]).0 == bindings@[j].0 && r@[j].1@
                    == bindings@[j].1@,
        decreases n - i,
    {
        r.push((bindings[i].0, inf_type_copy(&bindings[i].1)));
        i = i + 1;
    }
    proof {
        assert(bindings_view(r@) =~= bindings_view(bindings@));
    }
    r
}

impl Type {
    /// A printer for this type under the given bindings.
    pub fn display(&self, bindings: &TypeBindings) -> (r: TypePrinter)
        ensures
            r.typ@ == self@,
            bindings_view(r.bindings@) == bindings_view(bindings@),
    {
        TypePrinter { typ: inf_type_copy(self), bindings: bindings_copy(bindings) }
    }
}

/// Renders a type with its bindings applied.
pub struct TypePrinter {
    pub typ: Type,
    pub bindings: TypeBindings,
}

impl TypePrinter {
    /// The rendered text: bound variables are shown as what they are bound
    /// to.  The table must be fully resolved, as the inferencer keeps it, so
    /// that a binding shown once is shown completely.
    pub fn text(&self) -> (r: Vec<u8>)
        requires
            bindings_resolved(bindings_view(self.bindings@)),
        ensures
            r@ == sp_type_text(
                sp_substitute(
                    self.typ@,
                    Seq::<(TypeVariableId, SpecInfType)>::empty(),
                    bindings_view(self.bindings@),
                ),
            ),
    {
        let empty: TypeBindings = Vec::new();
        let resolved = apply_bindings(&self.typ, &empty, &self.bindings);
        proof {
            assert(bindings_view(empty@) =~= Seq::<(TypeVariableId, SpecInfType)>::empty());
        }
        type_text(&resolved)
    }
}

/// Renders a definition's scheme: `forall` over its generic variables, then
/// the type.
pub struct TopLevelTypePrinter {
    pub typ: TopLevelDefinitionType,
    pub bindings: TypeBindings,
}

/// The rendered text of a scheme.
pub open spec fn sp_top_type_text(t: SpecTopType, bindings: Seq<(TypeVariableId, SpecInfType)>) -> Seq<u8> {
    let body = sp_type_text(
        sp_substitute(t.typ, Seq::<(TypeVariableId, SpecInfType)>::empty(), bindings),
    );
    if t.type_variables.len() > 0 {
        crate::errors::lit("forall") + sp_forall_vars(t.type_variables, 0) + crate::errors::lit(
            ". ",
        ) + body
    } else {
        body
    }
}

pub open spec fn sp_forall_vars(vars: Seq<TypeVariableId>, i: int) -> Seq<u8>
    decreases vars.len() - i,
{
    if i < 0 || i >= vars.len() {
        Seq::empty()
    } else {
        seq![32u8, 95u8] + spec_dec_nat(vars[i].0 as int) + sp_forall_vars(vars, i + 1)
    }
}

impl TopLevelTypePrinter {
    /// The rendered text.  The table must be fully resolved, as the
    /// inferencer keeps it.
    #[verifier::loop_isolation(false)]
    pub fn text(&self) -> (r: Vec<u8>)
        requires
            bindings_resolved(bindings_view(self.bindings@)),
        ensures
            r@ == sp_top_type_text(self.typ@, bindings_view(self.bindings@)),
    {
        let mut out: Vec<u8> = Vec::new();
        let ghost base = crate::errors::lit("forall");
        let ghost mut tail: Seq<u8> = Seq::empty();
        if self.typ.type_variables.len() > 0 {
            crate::errors::append_bytes(&mut out, "forall".as_bytes());
            let n = self.typ.type_variables.len();
            let mut i: usize = 0;
            proof {
                assert(out@ =~= base + tail);
            }
            while i < n
                invariant
                    n == self.typ.type_variables@.len(),
                    0 <= i <= n,
                    out@ =~= base + tail,
                    sp_forall_vars(self.typ.type_variables@, 0) =~= tail + sp_forall_vars(
                        self.typ.type_variables@,
                        i as int,
                    ),
                decreases n - i,
            {
                let ghost tail0 = tail;
                out.push(32u8);
                out.push(95u8);
                let digits = dec_u32(self.typ.type_variables[i].0);
                crate::errors::append_vec(&mut out, &digits);
                proof {
                    tail = tail0 + seq![32u8, 95u8] + spec_dec_nat(
                        self.typ.type_variables@[i as int].0 as int,
                    );
                    assert(out@ =~= base + tail);
                    assert(sp_forall_vars(self.typ.type_variables@, i as int) =~= seq![
                        32u8,
                        95u8,
                    ] + spec_dec_nat(self.typ.type_variables@[i as int].0 as int)
                        + sp_forall_vars(self.typ.type_variables@, i + 1));
                    assert(sp_forall_vars(self.typ.type_variables@, 0) =~= tail + sp_forall_vars(
                        self.typ.type_variables@,
                        i + 1,
                    ));
                }
                i = i + 1;
            }
            proof {
                assert(sp_forall_vars(self.typ.type_variables@, n as int) =~= Seq::<u8>::empty());
                assert(sp_forall_vars(self.typ.type_variables@, 0) =~= tail);
            }
            crate::errors::append_bytes(&mut out, ". ".as_bytes());
        }
        let printer = TypePrinter {
            typ: inf_type_copy(&self.typ.typ),
            bindings: bindings_copy(&self.bindings),
        };
        let body = printer.text();
        crate::errors::append_vec(&mut out, &body);
        proof {
            assert(out@ =~= sp_top_type_text(self.typ@, bindings_view(self.bindings@)));
        }
        out
    }
}

} // verus!

verus! {

// ---------------------------------------------------------------------------
// Inference: specification
// ---------------------------------------------------------------------------
/// Everything inference knows while checking one statement.
pub ghost struct SpecInfer {
    pub bindings: Seq<(TypeVariableId, SpecInfType)>,
    pub next_var: u32,
    pub params: Seq<(ExprId, TypeVariableId)>,
    pub types: Seq<(ExprId, SpecInfType)>,
    pub errors: Seq<SpecError>,
}

/// What the checker reads but never changes.
pub ghost struct SpecCheckCtx {
    pub origins: Seq<(ExprId, crate::name_resolution::SpecOrigin)>,
    pub globals: Seq<(SpecTopLevelId, SpecTopType)>,
    pub meta: Seq<(ExprId, SpecLocation)>,
    pub file: Seq<u8>,
}

/// The recorded location of an expression, or an empty span.
pub open spec fn sp_loc_of(meta: Seq<(ExprId, SpecLocation)>, eid: ExprId, file: Seq<u8>) -> SpecLocation {
    match assoc_lookup(meta, eid) {
        Some(l) => l,
        None => SpecLocation {
            file_name: file,
            start: crate::parser::start_position(),
            end: crate::parser::start_position(),
        },
    }
}

pub open spec fn sp_fresh_var(st: SpecInfer) -> (SpecInfer, TypeVariableId) {
    (
        SpecInfer {
            next_var: if st.next_var < u32::MAX {
                (st.next_var + 1) as u32
            } else {
                st.next_var
            },
            ..st
        },
        TypeVariableId(st.next_var),
    )
}

pub open spec fn sp_record(st: SpecInfer, eid: ExprId, t: SpecInfType) -> SpecInfer {
    SpecInfer { types: assoc_insert(st.types, eid, t), ..st }
}

/// `Int -> Int -> Int`, the type of the built-in operators.
pub open spec fn sp_operator_type() -> SpecInfType {
    SpecInfType::Function {
        parameter: Box::new(SpecInfType::Int),
        return_type: Box::new(
            SpecInfType::Function {
                parameter: Box::new(SpecInfType::Int),
                return_type: Box::new(SpecInfType::Int),
            },
        ),
    }
}

/// Rewrite every stored range with `v := t`, then add the new binding; the
/// table stays fully resolved, so no chain of bindings can ever loop.
pub open spec fn sp_compose(
    b: Seq<(TypeVariableId, SpecInfType)>,
    v: TypeVariableId,
    t: SpecInfType,
) -> Seq<(TypeVariableId, SpecInfType)>
    decreases b.len(),
{
    if b.len() == 0 {
        seq![(v, t)]
    } else {
        seq![(b[0].0, sp_apply_subst(b[0].1, seq![(v, t)]))] + sp_compose(b.drop_first(), v, t)
    }
}

pub proof fn lemma_compose_char(
    b: Seq<(TypeVariableId, SpecInfType)>,
    v: TypeVariableId,
    t: SpecInfType,
)
    ensures
        sp_compose(b, v, t).len() == b.len() + 1,
        forall|i: int|
            0 <= i < b.len() ==> #[trigger] sp_compose(b, v, t)[i] == (
                b[i].0,
                sp_apply_subst(b[i].1, seq![(v, t)]),
            ),
        sp_compose(b, v, t)[b.len() as int] == (v, t),
    decreases b.len(),
{
    if b.len() > 0 {
        lemma_compose_char(b.drop_first(), v, t);
        assert forall|i: int|
            0 <= i < b.len() implies #[trigger] sp_compose(b, v, t)[i] == (
            b[i].0,
            sp_apply_subst(b[i].1, seq![(v, t)]),
        ) by {
            if i > 0 {
                assert(sp_compose(b, v, t)[i] == sp_compose(b.drop_first(), v, t)[i - 1]);
            }
        }
    }
}

pub open spec fn sp_bind(st: SpecInfer, v: TypeVariableId, t: SpecInfType) -> SpecInfer {
    SpecInfer { bindings: sp_compose(st.bindings, v, t), ..st }
}

pub open spec fn sp_push_type_error(st: SpecInfer, e: SpecError) -> SpecInfer {
    SpecInfer { errors: st.errors + seq![e], ..st }
}

/// Unify a variable with a resolved type: an occurs failure reports
/// `RecursiveType`, otherwise the variable is bound.
pub open spec fn sp_bind_or_cycle(
    st: SpecInfer,
    v: TypeVariableId,
    t: SpecInfType,
    loc: SpecLocation,
) -> SpecInfer {
    if sp_occurs_direct(v, t) {
        sp_push_type_error(
            st,
            SpecError::RecursiveType { typ: sp_type_text(t), location: loc },
        )
    } else {
        sp_bind(st, v, t)
    }
}

/// Unification: resolve both sides against the current bindings, then match
/// them structurally.  `Error` unifies with anything.  The fuel bounds the
/// recursion; the budget is far beyond any type this language can build, and
/// running out is reported as a recursive type.
pub open spec fn sp_unify(
    a: SpecInfType,
    b: SpecInfType,
    loc: SpecLocation,
    st: SpecInfer,
    fuel: int,
) -> SpecInfer
    decreases fuel,
{
    let ra = sp_substitute(a, Seq::<(TypeVariableId, SpecInfType)>::empty(), st.bindings);
    let rb = sp_substitute(b, Seq::<(TypeVariableId, SpecInfType)>::empty(), st.bindings);
    if fuel <= 0 {
        sp_push_type_error(
            st,
            SpecError::RecursiveType { typ: sp_type_text(ra), location: loc },
        )
    } else if ra is Error || rb is Error {
        st
    } else {
        match ra {
            SpecInfType::TypeVariable(v) => match rb {
                SpecInfType::TypeVariable(w) => if v == w {
                    st
                } else {
                    sp_bind_or_cycle(st, v, rb, loc)
                },
                _ => sp_bind_or_cycle(st, v, rb, loc),
            },
            SpecInfType::Unit => match rb {
                SpecInfType::Unit => st,
                SpecInfType::TypeVariable(w) => sp_bind_or_cycle(st, w, ra, loc),
                _ => sp_push_type_error(
                    st,
                    SpecError::ExpectedType {
                        actual: sp_type_text(ra),
                        expected: sp_type_text(rb),
                        location: loc,
                    },
                ),
            },
            SpecInfType::Int => match rb {
                SpecInfType::Int => st,
                SpecInfType::TypeVariable(w) => sp_bind_or_cycle(st, w, ra, loc),
                _ => sp_push_type_error(
                    st,
                    SpecError::ExpectedType {
                        actual: sp_type_text(ra),
                        expected: sp_type_text(rb),
                        location: loc,
                    },
                ),
            },
            SpecInfType::Generic(x) => match rb {
                SpecInfType::Generic(y) => if x.name == y.name {
                    st
                } else {
                    sp_push_type_error(
                        st,
                        SpecError::ExpectedType {
                            actual: sp_type_text(ra),
                            expected: sp_type_text(rb),
                            location: loc,
                        },
                    )
                },
                SpecInfType::TypeVariable(w) => sp_bind_or_cycle(st, w, ra, loc),
                _ => sp_push_type_error(
                    st,
                    SpecError::ExpectedType {
                        actual: sp_type_text(ra),
                        expected: sp_type_text(rb),
                        location: loc,
                    },
                ),
            },
            SpecInfType::Function { parameter: p1, return_type: r1 } => match rb {
                SpecInfType::TypeVariable(w) => sp_bind_or_cycle(st, w, ra, loc),
                SpecInfType::Function { parameter: p2, return_type: r2 } => {
                    let st1 = sp_unify(*p1, *p2, loc, st, fuel - 1);
                    sp_unify(*r1, *r2, loc, st1, fuel - 1)
                },
                _ => sp_push_type_error(
                    st,
                    SpecError::ExpectedType {
                        actual: sp_type_text(ra),
                        expected: sp_type_text(rb),
                        location: loc,
                    },
                ),
            },
            SpecInfType::Error => st,
        }
    }
}

/// The unification recursion budget.
pub open spec fn sp_unify_fuel() -> int {
    10000
}

/// Instantiate a scheme's generalized variables with fresh ones.
pub open spec fn sp_instantiate_vars(
    vars: Seq<TypeVariableId>,
    i: int,
    acc: Seq<(TypeVariableId, SpecInfType)>,
    st: SpecInfer,
) -> (SpecInfer, Seq<(TypeVariableId, SpecInfType)>)
    decreases vars.len() - i,
{
    if i < 0 || i >= vars.len() {
        (st, acc)
    } else {
        let (st1, fresh) = sp_fresh_var(st);
        sp_instantiate_vars(
            vars,
            i + 1,
            acc + seq![(vars[i], SpecInfType::TypeVariable(fresh))],
            st1,
        )
    }
}

/// The type of one variable use.
pub open spec fn sp_check_var(
    ident: SpecIdentifier,
    st: SpecInfer,
    ctx: SpecCheckCtx,
) -> (SpecInfer, SpecInfType) {
    if ident.name == seq![43u8] || ident.name == seq![45u8] {
        (st, sp_operator_type())
    } else {
        match assoc_lookup(ctx.origins, ident.id) {
            Some(crate::name_resolution::SpecOrigin::Parameter(pid)) => match assoc_lookup(
                st.params,
                pid,
            ) {
                Some(tv) => (st, SpecInfType::TypeVariable(tv)),
                None => (st, SpecInfType::Error),
            },
            Some(crate::name_resolution::SpecOrigin::TopLevelDefinition(tid)) => match assoc_lookup(
                ctx.globals,
                tid,
            ) {
                Some(g) => {
                    let (st1, subst) = sp_instantiate_vars(
                        g.type_variables,
                        0,
                        Seq::empty(),
                        st,
                    );
                    (st1, sp_apply_subst(g.typ, subst))
                },
                None => (st, SpecInfType::Error),
            },
            None => (st, SpecInfType::Error),
        }
    }
}

/// Assign every expression a type, unifying as required.
pub open spec fn sp_check(e: SpecExpr, st: SpecInfer, ctx: SpecCheckCtx) -> (SpecInfer, SpecInfType)
    decreases e,
{
    match e {
        SpecExpr::IntegerLiteral(x, id) => (sp_record(st, id, SpecInfType::Int), SpecInfType::Int),
        SpecExpr::Variable(ident) => {
            let (st1, t) = sp_check_var(ident, st, ctx);
            (sp_record(st1, ident.id, t), t)
        },
        SpecExpr::FunctionCall { function, argument, id } => {
            let (st1, tf) = sp_check(*function, st, ctx);
            let (st2, ta) = sp_check(*argument, st1, ctx);
            let (st3, beta) = sp_fresh_var(st2);
            let expected = SpecInfType::Function {
                parameter: Box::new(ta),
                return_type: Box::new(SpecInfType::TypeVariable(beta)),
            };
            let st4 = sp_unify(tf, expected, sp_loc_of(ctx.meta, id, ctx.file), st3, sp_unify_fuel());
            let t = SpecInfType::TypeVariable(beta);
            (sp_record(st4, id, t), t)
        },
        SpecExpr::Lambda { parameter_name, body, id } => {
            let (st1, alpha) = sp_fresh_var(st);
            let st2 = SpecInfer {
                params: assoc_insert(st1.params, parameter_name.id, alpha),
                ..st1
            };
            let st3 = sp_record(st2, parameter_name.id, SpecInfType::TypeVariable(alpha));
            let (st4, tb) = sp_check(*body, st3, ctx);
            let t = SpecInfType::Function {
                parameter: Box::new(SpecInfType::TypeVariable(alpha)),
                return_type: Box::new(tb),
            };
            (sp_record(st4, id, t), t)
        },
    }
}

/// Apply the final bindings to every recorded type.
pub open spec fn sp_finalize_types(
    types: Seq<(ExprId, SpecInfType)>,
    bindings: Seq<(TypeVariableId, SpecInfType)>,
) -> Seq<(ExprId, SpecInfType)>
    decreases types.len(),
{
    if types.len() == 0 {
        Seq::empty()
    } else {
        seq![
            (
                types[0].0,
                sp_substitute(
                    types[0].1,
                    Seq::<(TypeVariableId, SpecInfType)>::empty(),
                    bindings,
                ),
            ),
        ] + sp_finalize_types(types.drop_first(), bindings)
    }
}

/// The model of a full type check of one statement.
pub ghost struct SpecTypeCheckResult {
    pub typ: SpecTopType,
    pub types: Seq<(ExprId, SpecInfType)>,
    pub errors: Seq<SpecError>,
}

/// Type check one statement: infer its body, check it against any
/// annotation (the mismatch is reported at the body), and substitute the
/// final bindings into every reported type.
pub open spec fn sp_type_check(stmt: Option<SpecStatement>, ctx: SpecCheckCtx) -> SpecTypeCheckResult {
    let st0 = SpecInfer {
        bindings: Seq::empty(),
        next_var: 0,
        params: Seq::empty(),
        types: Seq::empty(),
        errors: Seq::empty(),
    };
    match stmt {
        Some(SpecStatement::Definition(d)) => {
            let (st1, t) = sp_check(d.body, st0, ctx);
            let st2 = match d.typ {
                Some(at) => sp_unify(
                    t,
                    sp_from_ast_type(at),
                    sp_loc_of(ctx.meta, d.body.spec_id(), ctx.file),
                    st1,
                    sp_unify_fuel(),
                ),
                None => st1,
            };
            let final_t = sp_substitute(
                t,
                Seq::<(TypeVariableId, SpecInfType)>::empty(),
                st2.bindings,
            );
            SpecTypeCheckResult {
                typ: SpecTopType { type_variables: Seq::empty(), typ: final_t },
                types: sp_finalize_types(st2.types, st2.bindings),
                errors: st2.errors,
            }
        },
        Some(SpecStatement::Print(e, _)) => {
            let (st1, t) = sp_check(e, st0, ctx);
            SpecTypeCheckResult {
                typ: sp_unit_top(),
                types: sp_finalize_types(st1.types, st1.bindings),
                errors: st1.errors,
            }
        },
        _ => SpecTypeCheckResult { typ: sp_unit_top(), types: Seq::empty(), errors: Seq::empty() },
    }
}

/// A definition's declared or inferred scheme: the annotation when there is
/// one, the checked body type otherwise; imports and prints are `Unit`.
pub open spec fn sp_get_type(stmt: Option<SpecStatement>, tc: SpecTypeCheckResult) -> SpecTopType {
    match stmt {
        Some(SpecStatement::Definition(d)) => match d.typ {
            Some(at) => SpecTopType {
                type_variables: Seq::empty(),
                typ: sp_from_ast_type(at),
            },
            None => tc.typ,
        },
        _ => sp_unit_top(),
    }
}

} // verus!

verus! {

// ---------------------------------------------------------------------------
// Inference: executable
// ---------------------------------------------------------------------------
/// The full inference result for one statement.
pub struct TypeCheckResult {
    pub typ: TopLevelDefinitionType,
    pub types: Vec<(ExprId, Type)>,
    pub errors: Errors,
}

/// The model of a per-expression type table.
pub open spec fn types_view(s: Seq<(ExprId, Type)>) -> Seq<(ExprId, SpecInfType)> {
    s.map_values(|p: (ExprId, Type)| (p.0, p.1@))
}

impl View for TypeCheckResult {
    type V = SpecTypeCheckResult;

    open spec fn view(&self) -> SpecTypeCheckResult {
        SpecTypeCheckResult {
            typ: self.typ@,
            types: types_view(self.types@),
            errors: errs_view(self.errors@),
        }
    }
}

/// The model of the fetched global types.
pub open spec fn globals_view(s: Seq<(TopLevelId, TopLevelDefinitionType)>) -> Seq<
    (SpecTopLevelId, SpecTopType),
> {
    s.map_values(|p: (TopLevelId, TopLevelDefinitionType)| (p.0@, p.1@))
}

struct Infer {
    bindings: TypeBindings,
    next_var: u32,
    params: Vec<(ExprId, TypeVariableId)>,
    types: Vec<(ExprId, Type)>,
    errors: Errors,
}

impl View for Infer {
    type V = SpecInfer;

    closed spec fn view(&self) -> SpecInfer {
        SpecInfer {
            bindings: bindings_view(self.bindings@),
            next_var: self.next_var,
            params: self.params@,
            types: types_view(self.types@),
            errors: errs_view(self.errors@),
        }
    }
}

impl Infer {
    fn fresh_var(&mut self) -> (r: TypeVariableId)
        ensures
            final(self)@ == sp_fresh_var(old(self)@).0,
            r == sp_fresh_var(old(self)@).1,
    {
        let v = TypeVariableId(self.next_var);
        if self.next_var < u32::MAX {
            self.next_var = self.next_var + 1;
        }
        v
    }

    fn record(&mut self, eid: ExprId, t: Type)
        ensures
            final(self)@ == sp_record(old(self)@, eid, t@),
    {
        let ghost before = self@.types;
        let n = self.types.len();
        let mut k: usize = 0;
        let mut found = false;
        while k < n && !found
            invariant
                n == self.types@.len(),
                0 <= k <= n,
                !found ==> forall|j: int| 0 <= j < k ==> (#[trigger] self.types@[j]).0 != eid,
                found ==> k < n && self.types@[k as int].0 == eid && forall|j: int|
                    0 <= j < k ==> (#[trigger] self.types@[j]).0 != eid,
            decreases n - k, (if found { 0int } else { 1int }),
        {
            if self.types[k].0 == eid {
                found = true;
            } else {
                k = k + 1;
            }
        }
        if found {
            self.types[k] = (eid, t);
            proof {
                crate::table::lemma_assoc_insert_at(before, eid, t@, k as int);
                assert(types_view(self.types@) =~= assoc_insert(before, eid, t@));
            }
        } else {
            self.types.push((eid, t));
            proof {
                crate::table::lemma_assoc_insert_absent(before, eid, t@);
                assert(types_view(self.types@) =~= assoc_insert(before, eid, t@));
            }
        }
    }

    /// Bind `v := t`: rewrite every stored range first, then add it.
    fn bind(&mut self, v: TypeVariableId, t: Type)
        ensures
            final(self)@ == sp_bind(old(self)@, v, t@),
    {
        let ghost before = self@.bindings;
        let mut single: TypeBindings = Vec::new();
        single.push((v, inf_type_copy(&t)));
        proof {
            assert(bindings_view(single@) =~= seq![(v, t@)]);
        }
        let n = self.bindings.len();
        let mut i: usize = 0;
        while i < n
            invariant
                n == self.bindings@.len(),
                before.len() == n,
                0 <= i <= n,
                bindings_view(single@) == seq![(v, t@)],
                single@.len() == 1,
                self@.next_var == old(self)@.next_var,
                self@.params == old(self)@.params,
                self@.types == old(self)@.types,
                self@.errors == old(self)@.errors,
                forall|j: int|
                    i <= j < n ==> (#[trigger] bindings_view(self.bindings@)[j]) == before[j],
                forall|j: int|
                    0 <= j < i ==> (#[trigger] bindings_view(self.bindings@)[j]) == (
                        before[j].0,
                        sp_apply_subst(before[j].1, seq![(v, t@)]),
                    ),
            decreases n - i,
        {
            let ghost pre = self.bindings@;
            let w = self.bindings[i].0;
            let updated = apply_subst(&self.bindings[i].1, &single);
            let ghost uv = updated@;
            self.bindings[i] = (w, updated);
            proof {
                assert(self.bindings@ =~= pre.update(i as int, (w, self.bindings@[i as int].1)));
                assert forall|j: int|
                    i + 1 <= j < n implies (#[trigger] bindings_view(self.bindings@)[j])
                    == before[j] by {
                    assert(bindings_view(self.bindings@)[j] == (
                        self.bindings@[j].0,
                        self.bindings@[j].1@,
                    ));
                    assert(self.bindings@[j] == pre[j]);
                    assert(bindings_view(pre)[j] == (pre[j].0, pre[j].1@));
                }
                assert(bindings_view(pre)[i as int] == (pre[i as int].0, pre[i as int].1@));
                assert(bindings_view(pre)[i as int] == before[i as int]);
                assert(w == before[i as int].0);
                assert(uv == sp_apply_subst(before[i as int].1, seq![(v, t@)]));
                assert(bindings_view(self.bindings@)[i as int] == (w, uv));
                assert forall|j: int|
                    0 <= j < i implies (#[trigger] bindings_view(self.bindings@)[j]) == (
                    before[j].0,
                    sp_apply_subst(before[j].1, seq![(v, t@)]),
                ) by {
                    assert(bindings_view(self.bindings@)[j] == (
                        self.bindings@[j].0,
                        self.bindings@[j].1@,
                    ));
                    assert(self.bindings@[j] == pre[j]);
                    assert(bindings_view(pre)[j] == (pre[j].0, pre[j].1@));
                }
            }
            i = i + 1;
        }
        let ghost pre_push = self.bindings@;
        let ghost tv_spec = t@;
        self.bindings.push((v, t));
        proof {
            lemma_compose_char(before, v, tv_spec);
            assert forall|j: int|
                0 <= j < self.bindings@.len() implies (#[trigger] bindings_view(
                self.bindings@,
            )[j]) == sp_compose(before, v, tv_spec)[j] by {
                assert(bindings_view(self.bindings@)[j] == (
                    self.bindings@[j].0,
                    self.bindings@[j].1@,
                ));
                if j < pre_push.len() {
                    assert(self.bindings@[j] == pre_push[j]);
                    assert(bindings_view(pre_push)[j] == (pre_push[j].0, pre_push[j].1@));
                } else {
                    assert(self.bindings@[j] == (v, t));
                }
            }
            assert(bindings_view(self.bindings@) =~= sp_compose(before, v, tv_spec));
            assert(self@.bindings == sp_bind(old(self)@, v, tv_spec).bindings);
            assert(self@.next_var == sp_bind(old(self)@, v, tv_spec).next_var);
            assert(self@.params == sp_bind(old(self)@, v, tv_spec).params);
            assert(self@.types == sp_bind(old(self)@, v, tv_spec).types);
            assert(self@.errors == sp_bind(old(self)@, v, tv_spec).errors);
            assert(self@ == sp_bind(old(self)@, v, tv_spec));
        }
    }

    fn push_type_error(&mut self, e: Error)
        ensures
            final(self)@ == sp_push_type_error(old(self)@, e@),
    {
        self.errors.push(e);
        proof {
            assert(errs_view(self.errors@) =~= errs_view(old(self).errors@) + seq![e@]);
        }
    }

    /// Resolve a type against the current bindings.
    fn resolve(&self, t: &Type) -> (r: Type)
        ensures
            r@ == sp_substitute(
                t@,
                Seq::<(TypeVariableId, SpecInfType)>::empty(),
                self@.bindings,
            ),
    {
        let empty: TypeBindings = Vec::new();
        proof {
            assert(bindings_view(empty@) =~= Seq::<(TypeVariableId, SpecInfType)>::empty());
        }
        apply_bindings(t, &empty, &self.bindings)
    }

    /// Bind a variable to a resolved type, or report the occurs failure.
    fn bind_or_cycle(&mut self, v: TypeVariableId, t: Type, loc: &LocationData)
        ensures
            final(self)@ == sp_bind_or_cycle(old(self)@, v, t@, loc@),
    {
        if occurs_direct(v, &t) {
            let typ = type_text(&t);
            let e = Error::RecursiveType { typ, location: crate::errors::location_copy(loc) };
            self.push_type_error(e);
        } else {
            self.bind(v, t);
        }
    }

    fn mismatch(&mut self, ra: &Type, rb: &Type, loc: &LocationData)
        ensures
            final(self)@ == sp_push_type_error(
                old(self)@,
                SpecError::ExpectedType {
                    actual: sp_type_text(ra@),
                    expected: sp_type_text(rb@),
                    location: loc@,
                },
            ),
    {
        let actual = type_text(ra);
        let expected = type_text(rb);
        let e = Error::ExpectedType {
            actual,
            expected,
            location: crate::errors::location_copy(loc),
        };
        self.push_type_error(e);
    }

    /// Unify two types under the current bindings.
    fn unify(&mut self, a: &Type, b: &Type, loc: &LocationData, fuel: u64)
        ensures
            final(self)@ == sp_unify(a@, b@, loc@, old(self)@, fuel as int),
        decreases fuel,
    {
        let ra = self.resolve(a);
        let rb = self.resolve(b);
        if fuel == 0 {
            let typ = type_text(&ra);
            let e = Error::RecursiveType { typ, location: crate::errors::location_copy(loc) };
            self.push_type_error(e);
            return;
        }
        let a_err = matches!(ra, Type::Error);
        let b_err = matches!(rb, Type::Error);
        if a_err || b_err {
            return;
        }
        match ra {
            Type::TypeVariable(v) => {
                let same = match &rb {
                    Type::TypeVariable(w) => v == *w,
                    _ => false,
                };
                if same {
                } else {
                    self.bind_or_cycle(v, rb, loc);
                }
            },
            Type::Unit => match &rb {
                Type::Unit => {},
                Type::TypeVariable(w) => {
                    let w = *w;
                    self.bind_or_cycle(w, ra, loc);
                },
                _ => {
                    self.mismatch(&ra, &rb, loc);
                },
            },
            Type::Int => match &rb {
                Type::Int => {},
                Type::TypeVariable(w) => {
                    let w = *w;
                    self.bind_or_cycle(w, ra, loc);
                },
                _ => {
                    self.mismatch(&ra, &rb, loc);
                },
            },
            Type::Generic(ref x) => match &rb {
                Type::Generic(y) => {
                    if bytes_eq(&x.name, &y.name) {
                    } else {
                        self.mismatch(&ra, &rb, loc);
                    }
                },
                Type::TypeVariable(w) => {
                    let w = *w;
                    self.bind_or_cycle(w, ra, loc);
                },
                _ => {
                    self.mismatch(&ra, &rb, loc);
                },
            },
            Type::Function { ref parameter, ref return_type } => match &rb {
                Type::TypeVariable(w) => {
                    let w = *w;
                    self.bind_or_cycle(w, ra, loc);
                },
                Type::Function { parameter: p2, return_type: r2 } => {
                    self.unify(parameter, p2, loc, fuel - 1);
                    self.unify(return_type, r2, loc, fuel - 1);
                },
                _ => {
                    self.mismatch(&ra, &rb, loc);
                },
            },
            Type::Error => {},
        }
    }
}

} // verus!

verus! {

impl Infer {
    /// The scheme of a global, instantiated with fresh variables.
    #[verifier::loop_isolation(false)]
    fn instantiate(&mut self, g: &TopLevelDefinitionType) -> (r: Type)
        ensures
            final(self)@ == sp_instantiate_vars(
                g@.type_variables,
                0,
                Seq::empty(),
                old(self)@,
            ).0,
            r@ == sp_apply_subst(
                g@.typ,
                sp_instantiate_vars(g@.type_variables, 0, Seq::empty(), old(self)@).1,
            ),
    {
        let mut subst: TypeBindings = Vec::new();
        let n = g.type_variables.len();
        let mut i: usize = 0;
        proof {
            assert(bindings_view(subst@) =~= Seq::<(TypeVariableId, SpecInfType)>::empty());
        }
        while i < n
            invariant
                n == g.type_variables@.len(),
                0 <= i <= n,
                sp_instantiate_vars(g@.type_variables, 0, Seq::empty(), old(self)@)
                    == sp_instantiate_vars(
                    g@.type_variables,
                    i as int,
                    bindings_view(subst@),
                    self@,
                ),
            decreases n - i,
        {
            let ghost pre = self@;
            let ghost sub0 = bindings_view(subst@);
            let fresh = self.fresh_var();
            subst.push((g.type_variables[i], Type::TypeVariable(fresh)));
            proof {
                assert(bindings_view(subst@) =~= sub0 + seq![
                    (g@.type_variables[i as int], SpecInfType::TypeVariable(fresh)),
                ]);
            }
            i = i + 1;
        }
        apply_subst(&g.typ, &subst)
    }

    /// The type of one variable use.
    #[verifier::loop_isolation(false)]
    fn check_var(
        &mut self,
        ident: &Identifier,
        origins: &Vec<(ExprId, crate::name_resolution::Origin)>,
        globals: &Vec<(TopLevelId, TopLevelDefinitionType)>,
    ) -> (r: Type)
        ensures
            final(self)@ == sp_check_var(ident@, old(self)@, (SpecCheckCtx {
                origins: crate::name_resolution::origins_view(origins@),
                globals: globals_view(globals@),
                meta: Seq::empty(),
                file: Seq::empty(),
            })).0,
            r@ == sp_check_var(ident@, old(self)@, (SpecCheckCtx {
                origins: crate::name_resolution::origins_view(origins@),
                globals: globals_view(globals@),
                meta: Seq::empty(),
                file: Seq::empty(),
            })).1,
    {
        let is_plus = ident.name.len() == 1 && ident.name[0] == 43;
        let is_minus = ident.name.len() == 1 && ident.name[0] == 45;
        if is_plus || is_minus {
            proof {
                if is_plus {
                    assert(ident.name@ =~= seq![43u8]);
                } else {
                    assert(ident.name@ =~= seq![45u8]);
                }
            }
            let inner = Type::Function {
                parameter: Box::new(Type::Int),
                return_type: Box::new(Type::Int),
            };
            proof {
                assert(inf_type_view(Type::Int) == SpecInfType::Int);
                assert(inner@ == (SpecInfType::Function {
                    parameter: Box::new(SpecInfType::Int),
                    return_type: Box::new(SpecInfType::Int),
                }));
            }
            let t = Type::Function { parameter: Box::new(Type::Int), return_type: Box::new(inner) };
            proof {
                assert(t@ == sp_operator_type());
            }
            return t;
        }
        proof {
            assert(ident.name@ != seq![43u8]);
            assert(ident.name@ != seq![45u8]);
        }
        // find this use's origin
        let n = origins.len();
        let mut i: usize = 0;
        while i < n
            invariant
                n == origins@.len(),
                0 <= i <= n,
                forall|j: int| 0 <= j < i ==> (#[trigger] origins@[j]).0 != ident.id,
                self@ == old(self)@,
            decreases n - i,
        {
            if origins[i].0 == ident.id {
                proof {
                    assert(crate::name_resolution::origins_view(origins@)[i as int] == (
                        origins@[i as int].0,
                        origins@[i as int].1@,
                    ));
                    crate::table::lemma_assoc_lookup_at(
                        crate::name_resolution::origins_view(origins@),
                        ident.id,
                        i as int,
                    );
                }
                match &origins[i].1 {
                    crate::name_resolution::Origin::Parameter(pid) => {
                        // the parameter's assigned variable
                        let m = self.params.len();
                        let mut k: usize = 0;
                        while k < m
                            invariant
                                m == self.params@.len(),
                                0 <= k <= m,
                                forall|j: int|
                                    0 <= j < k ==> (#[trigger] self.params@[j]).0 != *pid,
                                self@ == old(self)@,
                            decreases m - k,
                        {
                            if self.params[k].0 == *pid {
                                proof {
                                    crate::table::lemma_assoc_lookup_at(
                                        self@.params,
                                        *pid,
                                        k as int,
                                    );
                                }
                                return Type::TypeVariable(self.params[k].1);
                            }
                            k = k + 1;
                        }
                        proof {
                            crate::table::lemma_assoc_lookup_absent(self@.params, *pid);
                            assert(inf_type_view(Type::Error) == SpecInfType::Error);
                        }
                        return Type::Error;
                    },
                    crate::name_resolution::Origin::TopLevelDefinition(tid) => {
                        // the binder's (possibly generalized) type
                        let gm = globals.len();
                        let mut k: usize = 0;
                        while k < gm
                            invariant
                                gm == globals@.len(),
                                0 <= k <= gm,
                                forall|j: int| 0 <= j < k ==> (#[trigger] globals@[j]).0@ != tid@,
                                self@ == old(self)@,
                            decreases gm - k,
                        {
                            if globals[k].0.same_as(tid) {
                                proof {
                                    assert(globals_view(globals@)[k as int] == (
                                        globals@[k as int].0@,
                                        globals@[k as int].1@,
                                    ));
                                    crate::table::lemma_assoc_lookup_at(
                                        globals_view(globals@),
                                        tid@,
                                        k as int,
                                    );
                                }
                                let t = self.instantiate(&globals[k].1);
                                return t;
                            }
                            k = k + 1;
                        }
                        proof {
                            crate::table::lemma_assoc_lookup_absent(globals_view(globals@), tid@);
                            assert(inf_type_view(Type::Error) == SpecInfType::Error);
                        }
                        return Type::Error;
                    },
                }
            }
            i = i + 1;
        }
        proof {
            crate::table::lemma_assoc_lookup_absent(
                crate::name_resolution::origins_view(origins@),
                ident.id,
            );
            assert(inf_type_view(Type::Error) == SpecInfType::Error);
        }
        Type::Error
    }

    /// The recorded location of an expression.
    #[verifier::loop_isolation(false)]
    fn loc_of(
        &self,
        meta: &Vec<(ExprId, LocationData)>,
        eid: ExprId,
        file: &Vec<u8>,
    ) -> (r: LocationData)
        ensures
            r@ == sp_loc_of(crate::parser::locs_view(meta@), eid, file@),
    {
        let n = meta.len();
        let mut i: usize = 0;
        while i < n
            invariant
                n == meta@.len(),
                0 <= i <= n,
                forall|j: int| 0 <= j < i ==> (#[trigger] meta@[j]).0 != eid,
            decreases n - i,
        {
            if meta[i].0 == eid {
                proof {
                    assert(crate::parser::locs_view(meta@)[i as int] == (
                        meta@[i as int].0,
                        meta@[i as int].1@,
                    ));
                    crate::table::lemma_assoc_lookup_at(
                        crate::parser::locs_view(meta@),
                        eid,
                        i as int,
                    );
                }
                return crate::errors::location_copy(&meta[i].1);
            }
            i = i + 1;
        }
        proof {
            crate::table::lemma_assoc_lookup_absent(crate::parser::locs_view(meta@), eid);
        }
        LocationData {
            file_name: bytes_clone(file),
            start: crate::errors::Position { byte_index: 0, line_number: 1, column_number: 1 },
            end: crate::errors::Position { byte_index: 0, line_number: 1, column_number: 1 },
        }
    }

    /// Infer the type of an expression, recording a type for every node.
    #[verifier::loop_isolation(false)]
    fn check(
        &mut self,
        e: &crate::ast::Expression,
        origins: &Vec<(ExprId, crate::name_resolution::Origin)>,
        globals: &Vec<(TopLevelId, TopLevelDefinitionType)>,
        meta: &Vec<(ExprId, LocationData)>,
        file: &Vec<u8>,
    ) -> (r: Type)
        ensures
            final(self)@ == sp_check(e@, old(self)@, (SpecCheckCtx {
                origins: crate::name_resolution::origins_view(origins@),
                globals: globals_view(globals@),
                meta: crate::parser::locs_view(meta@),
                file: file@,
            })).0,
            r@ == sp_check(e@, old(self)@, (SpecCheckCtx {
                origins: crate::name_resolution::origins_view(origins@),
                globals: globals_view(globals@),
                meta: crate::parser::locs_view(meta@),
                file: file@,
            })).1,
        decreases e,
    {
        let ghost ctx = SpecCheckCtx {
            origins: crate::name_resolution::origins_view(origins@),
            globals: globals_view(globals@),
            meta: crate::parser::locs_view(meta@),
            file: file@,
        };
        match e {
            crate::ast::Expression::IntegerLiteral(x, id) => {
                self.record(*id, Type::Int);
                Type::Int
            },
            crate::ast::Expression::Variable(ident) => {
                let t = self.check_var(ident, origins, globals);
                proof {
                    assert((SpecCheckCtx {
                        origins: ctx.origins,
                        globals: ctx.globals,
                        meta: Seq::empty(),
                        file: Seq::empty(),
                    }).origins == ctx.origins);
                    assert(sp_check_var(ident@, old(self)@, (SpecCheckCtx {
                        origins: ctx.origins,
                        globals: ctx.globals,
                        meta: Seq::empty(),
                        file: Seq::empty(),
                    })) == sp_check_var(ident@, old(self)@, ctx));
                }
                self.record(ident.id, inf_type_copy(&t));
                t
            },
            crate::ast::Expression::FunctionCall { function, argument, id } => {
                let tf = self.check(function, origins, globals, meta, file);
                let ta = self.check(argument, origins, globals, meta, file);
                let beta = self.fresh_var();
                let expected = Type::Function {
                    parameter: Box::new(ta),
                    return_type: Box::new(Type::TypeVariable(beta)),
                };
                let loc = self.loc_of(meta, *id, file);
                self.unify(&tf, &expected, &loc, 10000u64);
                let t = Type::TypeVariable(beta);
                self.record(*id, Type::TypeVariable(beta));
                t
            },
            crate::ast::Expression::Lambda { parameter_name, body, id } => {
                let alpha = self.fresh_var();
                let ghost pre_params = self@.params;
                // the parameter is keyed by its defining expression id,
                // which is unique within the statement
                let n = self.params.len();
                let mut k: usize = 0;
                let mut found = false;
                while k < n && !found
                    invariant
                        n == self.params@.len(),
                        0 <= k <= n,
                        !found ==> forall|j: int|
                            0 <= j < k ==> (#[trigger] self.params@[j]).0 != parameter_name.id,
                        found ==> k < n && self.params@[k as int].0 == parameter_name.id
                            && forall|j: int|
                            0 <= j < k ==> (#[trigger] self.params@[j]).0 != parameter_name.id,
                        self@.bindings == old(self)@.bindings,
                        self@.types == old(self)@.types,
                        self@.errors == old(self)@.errors,
                        self@.next_var == sp_fresh_var(old(self)@).0.next_var,
                        self@.params == pre_params,
                    decreases n - k, (if found { 0int } else { 1int }),
                {
                    if self.params[k].0 == parameter_name.id {
                        found = true;
                    } else {
                        k = k + 1;
                    }
                }
                if found {
                    self.params[k] = (parameter_name.id, alpha);
                    proof {
                        crate::table::lemma_assoc_insert_at(
                            pre_params,
                            parameter_name.id,
                            alpha,
                            k as int,
                        );
                        assert(self@.params =~= assoc_insert(pre_params, parameter_name.id, alpha));
                    }
                } else {
                    self.params.push((parameter_name.id, alpha));
                    proof {
                        crate::table::lemma_assoc_insert_absent(
                            pre_params,
                            parameter_name.id,
                            alpha,
                        );
                        assert(self@.params =~= assoc_insert(pre_params, parameter_name.id, alpha));
                    }
                }
                self.record(parameter_name.id, Type::TypeVariable(alpha));
                let tb = self.check(body, origins, globals, meta, file);
                let t = Type::Function {
                    parameter: Box::new(Type::TypeVariable(alpha)),
                    return_type: Box::new(tb),
                };
                let t2 = inf_type_copy(&t);
                self.record(*id, t);
                t2
            },
        }
    }
}

} // verus!

verus! {

/// Substitute the final bindings into every recorded type.
#[verifier::loop_isolation(false)]
fn finalize_types(types: &Vec<(ExprId, Type)>, bindings: &TypeBindings) -> (r: Vec<(ExprId, Type)>)
    ensures
        types_view(r@) == sp_finalize_types(types_view(types@), bindings_view(bindings@)),
{
    let empty: TypeBindings = Vec::new();
    proof {
        assert(bindings_view(empty@) =~= Seq::<(TypeVariableId, SpecInfType)>::empty());
    }
    let mut r: Vec<(ExprId, Type)> = Vec::new();
    let n = types.len();
    let mut i: usize = 0;
    while i < n
        invariant
            n == types@.len(),
            0 <= i <= n,
            r@.len() == i,
            forall|j: int|
                0 <= j < i ==> (#[trigger] r@[j]).0 == types@[j].0 && r@[j].1@ == sp_substitute(
                    types@[j].1@,
                    Seq::<(TypeVariableId, SpecInfType)>::empty(),
                    bindings_view(bindings@),
                ),
        decreases n - i,
    {
        let t = apply_bindings(&types[i].1, &empty, bindings);
        r.push((types[i].0, t));
        i = i + 1;
    }
    proof {
        lemma_finalize_types_char(types_view(types@), bindings_view(bindings@));
        assert(types_view(r@) =~= sp_finalize_types(types_view(types@), bindings_view(bindings@)));
    }
    r
}

pub proof fn lemma_finalize_types_char(
    types: Seq<(ExprId, SpecInfType)>,
    bindings: Seq<(TypeVariableId, SpecInfType)>,
)
    ensures
        sp_finalize_types(types, bindings).len() == types.len(),
        forall|j: int|
            0 <= j < types.len() ==> #[trigger] sp_finalize_types(types, bindings)[j] == (
                types[j].0,
                sp_substitute(
                    types[j].1,
                    Seq::<(TypeVariableId, SpecInfType)>::empty(),
                    bindings,
                ),
            ),
    decreases types.len(),
{
    if types.len() > 0 {
        lemma_finalize_types_char(types.drop_first(), bindings);
        assert forall|j: int|
            0 <= j < types.len() implies #[trigger] sp_finalize_types(types, bindings)[j] == (
            types[j].0,
            sp_substitute(types[j].1, Seq::<(TypeVariableId, SpecInfType)>::empty(), bindings),
        ) by {
            if j > 0 {
                assert(sp_finalize_types(types, bindings)[j] == sp_finalize_types(
                    types.drop_first(),
                    bindings,
                )[j - 1]);
            }
        }
    }
}

/// Type check the contents of one top level statement.
pub fn type_check_impl(
    statement: &Option<TopLevelStatement>,
    resolution: &crate::name_resolution::ResolutionResult,
    globals: &Vec<(TopLevelId, TopLevelDefinitionType)>,
    meta: &Vec<(ExprId, LocationData)>,
    file: &Vec<u8>,
) -> (r: TypeCheckResult)
    ensures
        r@ == sp_type_check(
            match statement {
                Some(s) => Some(s@),
                None => None,
            },
            (SpecCheckCtx {
                origins: crate::name_resolution::origins_view(resolution.origins@),
                globals: globals_view(globals@),
                meta: crate::parser::locs_view(meta@),
                file: file@,
            }),
        ),
{
    let ghost ctx = SpecCheckCtx {
        origins: crate::name_resolution::origins_view(resolution.origins@),
        globals: globals_view(globals@),
        meta: crate::parser::locs_view(meta@),
        file: file@,
    };
    let mut st = Infer {
        bindings: Vec::new(),
        next_var: 0,
        params: Vec::new(),
        types: Vec::new(),
        errors: Vec::new(),
    };
    proof {
        assert(st@.bindings =~= Seq::<(TypeVariableId, SpecInfType)>::empty());
        assert(st@.params =~= Seq::<(ExprId, TypeVariableId)>::empty());
        assert(st@.types =~= Seq::<(ExprId, SpecInfType)>::empty());
        assert(st@.errors =~= Seq::<SpecError>::empty());
    }
    match statement {
        Some(TopLevelStatement::Definition(d)) => {
            let t = st.check(&d.body, &resolution.origins, globals, meta, file);
            match &d.typ {
                Some(at) => {
                    let ann = Type::from_ast_type(at);
                    let body_id = d.body.id();
                    let loc = st.loc_of(meta, body_id, file);
                    st.unify(&t, &ann, &loc, 10000u64);
                },
                None => {},
            }
            let final_t = st.resolve(&t);
            let types = finalize_types(&st.types, &st.bindings);
            let r = TypeCheckResult {
                typ: TopLevelDefinitionType { type_variables: Vec::new(), typ: final_t },
                types,
                errors: st.errors,
            };
            proof {
                assert(r@.typ.type_variables =~= Seq::<TypeVariableId>::empty());
            }
            r
        },
        Some(TopLevelStatement::Print(e, _)) => {
            let t = st.check(e, &resolution.origins, globals, meta, file);
            let types = finalize_types(&st.types, &st.bindings);
            let r = TypeCheckResult { typ: TopLevelDefinitionType::unit(), types, errors: st.errors };
            r
        },
        _ => {
            let r = TypeCheckResult {
                typ: TopLevelDefinitionType::unit(),
                types: Vec::new(),
                errors: Vec::new(),
            };
            proof {
                assert(r@.types =~= Seq::<(ExprId, SpecInfType)>::empty());
                assert(r@.errors =~= Seq::<SpecError>::empty());
            }
            r
        },
    }
}

/// A statement's declared or inferred scheme: annotation first, else the
/// checked body type; imports and prints are `Unit`.
pub fn get_type_impl(
    statement: &Option<TopLevelStatement>,
    type_check: &TypeCheckResult,
) -> (r: TopLevelDefinitionType)
    ensures
        r@ == sp_get_type(
            match statement {
                Some(s) => Some(s@),
                None => None,
            },
            type_check@,
        ),
{
    match statement {
        Some(TopLevelStatement::Definition(d)) => match &d.typ {
            Some(at) => TopLevelDefinitionType::from_ast_type(at),
            None => type_check.typ.copied(),
        },
        _ => TopLevelDefinitionType::unit(),
    }
}

} // verus!

verus! {

// ---------------------------------------------------------------------------
// Occurs-check soundness
// ---------------------------------------------------------------------------
/// A variable of `t` is either replaced by `s` or is no key of `b`.
pub open spec fn sp_free_except(
    t: SpecInfType,
    b: Seq<(TypeVariableId, SpecInfType)>,
    s: Seq<(TypeVariableId, SpecInfType)>,
) -> bool
    decreases t,
{
    match t {
        SpecInfType::TypeVariable(v) => crate::table::assoc_has_key(s, v)
            || !crate::table::assoc_has_key(b, v),
        SpecInfType::Function { parameter, return_type } => sp_free_except(*parameter, b, s)
            && sp_free_except(*return_type, b, s),
        _ => true,
    }
}

/// A type free of the table mentions none of its keys.
pub proof fn lemma_free_no_occurs(t: SpecInfType, b: Seq<(TypeVariableId, SpecInfType)>)
    requires
        sp_free_of(t, b),
    ensures
        forall|v: TypeVariableId|
            crate::table::assoc_has_key(b, v) ==> !sp_occurs_direct(v, t),
    decreases t,
{
    match t {
        SpecInfType::Function { parameter, return_type } => {
            lemma_free_no_occurs(*parameter, b);
            lemma_free_no_occurs(*return_type, b);
        },
        _ => {},
    }
}

/// Freedom is except-freedom, whatever the substitution.
pub proof fn lemma_free_is_except(
    t: SpecInfType,
    b: Seq<(TypeVariableId, SpecInfType)>,
    s: Seq<(TypeVariableId, SpecInfType)>,
)
    requires
        sp_free_of(t, b),
    ensures
        sp_free_except(t, b, s),
    decreases t,
{
    match t {
        SpecInfType::Function { parameter, return_type } => {
            lemma_free_is_except(*parameter, b, s);
            lemma_free_is_except(*return_type, b, s);
        },
        _ => {},
    }
}

/// Applying a substitution whose range is free of `b` to an except-free type
/// yields a type free of `b`.
pub proof fn lemma_apply_subst_free(
    t: SpecInfType,
    s: Seq<(TypeVariableId, SpecInfType)>,
    b: Seq<(TypeVariableId, SpecInfType)>,
)
    requires
        forall|i: int| 0 <= i < s.len() ==> sp_free_of((#[trigger] s[i]).1, b),
        sp_free_except(t, b, s),
    ensures
        sp_free_of(sp_apply_subst(t, s), b),
    decreases t,
{
    match t {
        SpecInfType::TypeVariable(v) => {
            match crate::table::assoc_lookup(s, v) {
                Some(st) => {
                    crate::table::lemma_lookup_some_index(s, v);
                },
                None => {},
            }
        },
        SpecInfType::Function { parameter, return_type } => {
            lemma_apply_subst_free(*parameter, s, b);
            lemma_apply_subst_free(*return_type, s, b);
        },
        _ => {},
    }
}

/// Under a fully resolved table, one substitution pass leaves no bound
/// variable in the result (the transitive-resolution reading).
pub proof fn lemma_substitute_free(
    t: SpecInfType,
    s: Seq<(TypeVariableId, SpecInfType)>,
    b: Seq<(TypeVariableId, SpecInfType)>,
)
    requires
        bindings_resolved(b),
        forall|i: int| 0 <= i < s.len() ==> sp_free_of((#[trigger] s[i]).1, b),
    ensures
        sp_free_of(sp_substitute(t, s, b), b),
    decreases t,
{
    match t {
        SpecInfType::TypeVariable(v) => {
            match crate::table::assoc_lookup(b, v) {
                Some(bt) => {
                    crate::table::lemma_lookup_some_index(b, v);
                    let i = choose|i: int|
                        0 <= i < b.len() && (#[trigger] b[i]).0 == v && b[i].1
                            == crate::table::assoc_lookup(b, v)->Some_0;
                    assert(sp_free_of(bt, b));
                    lemma_free_is_except(bt, b, s);
                    lemma_apply_subst_free(bt, s, b);
                },
                None => {
                    match crate::table::assoc_lookup(s, v) {
                        Some(st) => {
                            crate::table::lemma_lookup_some_index(s, v);
                        },
                        None => {},
                    }
                },
            }
        },
        SpecInfType::Function { parameter, return_type } => {
            lemma_substitute_free(*parameter, s, b);
            lemma_substitute_free(*return_type, s, b);
        },
        _ => {},
    }
}

/// Freedom carries to a table with one more key the type does not mention.
pub proof fn lemma_free_of_extend(
    t: SpecInfType,
    b: Seq<(TypeVariableId, SpecInfType)>,
    bp: Seq<(TypeVariableId, SpecInfType)>,
    v: TypeVariableId,
)
    requires
        sp_free_of(t, b),
        !sp_occurs_direct(v, t),
        forall|w: TypeVariableId|
            crate::table::assoc_has_key(bp, w) <==> (crate::table::assoc_has_key(b, w) || w == v),
    ensures
        sp_free_of(t, bp),
    decreases t,
{
    match t {
        SpecInfType::Function { parameter, return_type } => {
            lemma_free_of_extend(*parameter, b, bp, v);
            lemma_free_of_extend(*return_type, b, bp, v);
        },
        _ => {},
    }
}

/// Binding `v := t` by composition keeps the table fully resolved.
pub proof fn lemma_compose_resolved(
    b: Seq<(TypeVariableId, SpecInfType)>,
    v: TypeVariableId,
    t: SpecInfType,
)
    requires
        bindings_resolved(b),
        sp_free_of(t, b),
        !sp_occurs_direct(v, t),
    ensures
        bindings_resolved(sp_compose(b, v, t)),
{
    let bp = sp_compose(b, v, t);
    lemma_compose_char(b, v, t);
    assert forall|w: TypeVariableId|
        crate::table::assoc_has_key(bp, w) <==> (crate::table::assoc_has_key(b, w) || w == v) by {
        crate::table::lemma_has_key_iff(bp, w);
        crate::table::lemma_has_key_iff(b, w);
        if crate::table::assoc_has_key(bp, w) {
            let i = choose|i: int| 0 <= i < bp.len() && (#[trigger] bp[i]).0 == w;
            if i < b.len() {
                assert(b[i].0 == w);
            }
        }
        if crate::table::assoc_has_key(b, w) {
            let i = choose|i: int| 0 <= i < b.len() && (#[trigger] b[i]).0 == w;
            assert(bp[i].0 == w);
        }
        if w == v {
            assert(bp[b.len() as int].0 == v);
        }
    }
    lemma_free_of_extend(t, b, bp, v);
    assert forall|i: int| 0 <= i < bp.len() implies sp_free_of((#[trigger] bp[i]).1, bp) by {
        if i < b.len() {
            assert(bp[i].1 == sp_apply_subst(b[i].1, seq![(v, t)]));
            assert(sp_free_of(b[i].1, b));
            // a variable of the range is either v (replaced) or no key of bp
            lemma_free_except_single(b[i].1, b, bp, v, t);
            assert forall|j: int|
                0 <= j < seq![(v, t)].len() implies sp_free_of(
                (#[trigger] seq![(v, t)][j]).1,
                bp,
            ) by {
                assert(seq![(v, t)][j] == (v, t));
            }
            lemma_apply_subst_free(b[i].1, seq![(v, t)], bp);
        } else {
            assert(bp[i] == (v, t));
        }
    }
}

/// A range free of `b` is except-free of the extended table under the
/// single substitution `{v := t}`.
pub proof fn lemma_free_except_single(
    r: SpecInfType,
    b: Seq<(TypeVariableId, SpecInfType)>,
    bp: Seq<(TypeVariableId, SpecInfType)>,
    v: TypeVariableId,
    t: SpecInfType,
)
    requires
        sp_free_of(r, b),
        forall|w: TypeVariableId|
            crate::table::assoc_has_key(bp, w) <==> (crate::table::assoc_has_key(b, w) || w == v),
    ensures
        sp_free_except(r, bp, seq![(v, t)]),
    decreases r,
{
    match r {
        SpecInfType::TypeVariable(w) => {
            if w == v {
                assert(crate::table::assoc_lookup(seq![(v, t)], w) == Some(t));
            }
        },
        SpecInfType::Function { parameter, return_type } => {
            lemma_free_except_single(*parameter, b, bp, v, t);
            lemma_free_except_single(*return_type, b, bp, v, t);
        },
        _ => {},
    }
}

/// Unification keeps the table fully resolved.
pub proof fn lemma_unify_resolved(
    a: SpecInfType,
    b: SpecInfType,
    loc: SpecLocation,
    st: SpecInfer,
    fuel: int,
)
    requires
        bindings_resolved(st.bindings),
    ensures
        bindings_resolved(sp_unify(a, b, loc, st, fuel).bindings),
    decreases fuel,
{
    let empty = Seq::<(TypeVariableId, SpecInfType)>::empty();
    let ra = sp_substitute(a, empty, st.bindings);
    let rb = sp_substitute(b, empty, st.bindings);
    lemma_substitute_free(a, empty, st.bindings);
    lemma_substitute_free(b, empty, st.bindings);
    if fuel <= 0 {
    } else if ra is Error || rb is Error {
    } else {
        match ra {
            SpecInfType::TypeVariable(v) => {
                if rb is TypeVariable && rb->TypeVariable_0 == v {
                } else {
                    if !sp_occurs_direct(v, rb) {
                        lemma_compose_resolved(st.bindings, v, rb);
                    }
                }
            },
            SpecInfType::Unit => {
                match rb {
                    SpecInfType::TypeVariable(w) => {
                        if !sp_occurs_direct(w, ra) {
                            lemma_compose_resolved(st.bindings, w, ra);
                        }
                    },
                    _ => {},
                }
            },
            SpecInfType::Int => {
                match rb {
                    SpecInfType::TypeVariable(w) => {
                        if !sp_occurs_direct(w, ra) {
                            lemma_compose_resolved(st.bindings, w, ra);
                        }
                    },
                    _ => {},
                }
            },
            SpecInfType::Generic(x) => {
                match rb {
                    SpecInfType::TypeVariable(w) => {
                        if !sp_occurs_direct(w, ra) {
                            lemma_compose_resolved(st.bindings, w, ra);
                        }
                    },
                    _ => {},
                }
            },
            SpecInfType::Function { parameter: p1, return_type: r1 } => {
                match rb {
                    SpecInfType::TypeVariable(w) => {
                        if !sp_occurs_direct(w, ra) {
                            lemma_compose_resolved(st.bindings, w, ra);
                        }
                    },
                    SpecInfType::Function { parameter: p2, return_type: r2 } => {
                        let st1 = sp_unify(*p1, *p2, loc, st, fuel - 1);
                        lemma_unify_resolved(*p1, *p2, loc, st, fuel - 1);
                        lemma_unify_resolved(*r1, *r2, loc, st1, fuel - 1);
                    },
                    _ => {},
                }
            },
            SpecInfType::Error => {},
        }
    }
}

/// Instantiation allocates variables only; the table is untouched.
pub proof fn lemma_instantiate_bindings(
    vars: Seq<TypeVariableId>,
    i: int,
    acc: Seq<(TypeVariableId, SpecInfType)>,
    st: SpecInfer,
)
    ensures
        sp_instantiate_vars(vars, i, acc, st).0.bindings == st.bindings,
    decreases vars.len() - i,
{
    if 0 <= i < vars.len() {
        let (st1, fresh) = sp_fresh_var(st);
        lemma_instantiate_bindings(
            vars,
            i + 1,
            acc + seq![(vars[i], SpecInfType::TypeVariable(fresh))],
            st1,
        );
    }
}

/// Checking an expression keeps the table fully resolved: inference starts
/// from the empty table, so every table it ever builds is resolved.
pub proof fn lemma_check_resolved(e: SpecExpr, st: SpecInfer, ctx: SpecCheckCtx)
    requires
        bindings_resolved(st.bindings),
    ensures
        bindings_resolved(sp_check(e, st, ctx).0.bindings),
    decreases e,
{
    match e {
        SpecExpr::IntegerLiteral(x, id) => {},
        SpecExpr::Variable(ident) => {
            let (st1, t) = sp_check_var(ident, st, ctx);
            assert(st1.bindings == st.bindings) by {
                if !(ident.name == seq![43u8] || ident.name == seq![45u8]) {
                    match crate::table::assoc_lookup(ctx.origins, ident.id) {
                        Some(crate::name_resolution::SpecOrigin::TopLevelDefinition(tid)) => {
                            match crate::table::assoc_lookup(ctx.globals, tid) {
                                Some(g) => {
                                    lemma_instantiate_bindings(
                                        g.type_variables,
                                        0,
                                        Seq::empty(),
                                        st,
                                    );
                                },
                                None => {},
                            }
                        },
                        _ => {},
                    }
                }
            }
        },
        SpecExpr::FunctionCall { function, argument, id } => {
            let (st1, tf) = sp_check(*function, st, ctx);
            lemma_check_resolved(*function, st, ctx);
            let (st2, ta) = sp_check(*argument, st1, ctx);
            lemma_check_resolved(*argument, st1, ctx);
            let (st3, beta) = sp_fresh_var(st2);
            let expected = SpecInfType::Function {
                parameter: Box::new(ta),
                return_type: Box::new(SpecInfType::TypeVariable(beta)),
            };
            lemma_unify_resolved(
                tf,
                expected,
                sp_loc_of(ctx.meta, id, ctx.file),
                st3,
                sp_unify_fuel(),
            );
        },
        SpecExpr::Lambda { parameter_name, body, id } => {
            let (st1, alpha) = sp_fresh_var(st);
            let st2 = SpecInfer {
                params: crate::table::assoc_insert(st1.params, parameter_name.id, alpha),
                ..st1
            };
            let st3 = sp_record(st2, parameter_name.id, SpecInfType::TypeVariable(alpha));
            lemma_check_resolved(*body, st3, ctx);
        },
    }
}

/// Occurs-check soundness.  The inferencer's initial table is empty (which
/// is trivially resolved) and, by [`lemma_check_resolved`] and
/// [`lemma_unify_resolved`], every table it builds stays fully resolved.
/// Under any such table no binding mentions any bound variable — so no
/// variable is bound, directly or transitively, to a type that mentions
/// itself — and a substituted type, in particular every type a type check
/// reports, contains no bound variable at all.
pub proof fn lemma_occurs_check_sound(t: SpecInfType, b: Seq<(TypeVariableId, SpecInfType)>)
    requires
        bindings_resolved(b),
    ensures
        forall|i: int, v: TypeVariableId|
            #![trigger sp_occurs_direct(v, b[i].1)]
            0 <= i < b.len() && crate::table::assoc_has_key(b, v) ==> !sp_occurs_direct(
                v,
                b[i].1,
            ),
        sp_free_of(
            sp_substitute(t, Seq::<(TypeVariableId, SpecInfType)>::empty(), b),
            b,
        ),
{
    assert forall|i: int, v: TypeVariableId|
        #![trigger sp_occurs_direct(v, b[i].1)]
        0 <= i < b.len() && crate::table::assoc_has_key(b, v) implies !sp_occurs_direct(
        v,
        b[i].1,
    ) by {
        lemma_free_no_occurs(b[i].1, b);
    }
    lemma_substitute_free(t, Seq::<(TypeVariableId, SpecInfType)>::empty(), b);
}

} // verus!
