//! The query engine: the database that stores the one input (source text,
//! by file) and memoizes every derived pass of the pipeline.
//!
//! The meaning of every query is the spec function [`sp_eval`]: a pure
//! function of the input table alone.  `get` is proved to return exactly
//! that value, however much or little of the cache it reuses.  Memoization
//! works within a revision: asking the same question twice answers from the
//! cache without running the pass again (the execution log records what
//! ran).  Setting an input to a changed text bumps the revision and so
//! retires every cached entry; after such an edit, demanded passes
//! re-execute rather than re-validate recorded dependencies.  Setting a
//! file to the text it already holds leaves the database untouched, so
//! nothing is retired or re-run.  Inputs cannot be set while a query is
//! running.
//!
//! Mutually recursive definitions would make the type queries chase each
//! other forever; evaluation carries a generous depth budget and yields a
//! sentinel when it is exhausted, so every query terminates.

use vstd::prelude::*;

use crate::ast::{Program, SpecProgram, SpecStatement, TopLevelStatement};
use crate::definition_collection::{defs_view, imports_view, Definitions, SpecDefBinding};
use crate::errors::{bytes_clone, bytes_eq, Error, Errors, LocationData, Position, SpecError, SpecLocation};
use crate::ids::{ExprId, SpecTopLevelId, TopLevelId};
use crate::name_resolution::{origins_view, ResolutionResult, SpecResolutionResult};
use crate::parser::{
    errs_view, locs_view, tld_view, ParserResult, SpecMetaData, SpecParserResult,
    TopLevelMetaData,
};
use crate::table::{assoc_insert, assoc_lookup, lemma_assoc_lookup_absent, lemma_assoc_lookup_at};
use crate::type_inference::{
    bindings_view, globals_view, types_view, SpecCheckCtx, SpecTopType, SpecTypeCheckResult,
    TopLevelDefinitionType, TypeCheckResult,
};

verus! {

// ---------------------------------------------------------------------------
// Query keys
// ---------------------------------------------------------------------------
/// The one input: a file's text.
pub struct SourceFile {
    pub file_name: Vec<u8>,
}

/// The parse of a file.
pub struct Parse {
    pub file_name: Vec<u8>,
}

/// The names visible inside a file.
pub struct VisibleDefinitions {
    pub file_name: Vec<u8>,
}

/// The names a file exports.
pub struct ExportedDefinitions {
    pub file_name: Vec<u8>,
}

/// The files a file imports.
pub struct GetImports {
    pub file_name: Vec<u8>,
}

/// The resolution of one statement.
pub struct Resolve(pub TopLevelId);

/// One statement, by identity.
pub struct GetStatement(pub TopLevelId);

/// One statement's declared or inferred type.
pub struct GetType(pub TopLevelId);

/// One statement's full type check.
pub struct TypeCheck(pub TopLevelId);

/// One file's emitted translation.
pub struct CompileFile {
    pub file_name: Vec<u8>,
}

/// Every query kind, as one sum for dispatch, storage and serialization.
pub enum QueryKey {
    SourceFile(SourceFile),
    Parse(Parse),
    VisibleDefinitions(VisibleDefinitions),
    ExportedDefinitions(ExportedDefinitions),
    GetImports(GetImports),
    Resolve(Resolve),
    GetStatement(GetStatement),
    GetType(GetType),
    TypeCheck(TypeCheck),
    CompileFile(CompileFile),
}

pub ghost enum SpecQueryKey {
    SourceFile(Seq<u8>),
    Parse(Seq<u8>),
    VisibleDefinitions(Seq<u8>),
    ExportedDefinitions(Seq<u8>),
    GetImports(Seq<u8>),
    Resolve(SpecTopLevelId),
    GetStatement(SpecTopLevelId),
    GetType(SpecTopLevelId),
    TypeCheck(SpecTopLevelId),
    CompileFile(Seq<u8>),
}

impl View for QueryKey {
    type V = SpecQueryKey;

    open spec fn view(&self) -> SpecQueryKey {
        match self {
            QueryKey::SourceFile(q) => SpecQueryKey::SourceFile(q.file_name@),
            QueryKey::Parse(q) => SpecQueryKey::Parse(q.file_name@),
            QueryKey::VisibleDefinitions(q) => SpecQueryKey::VisibleDefinitions(q.file_name@),
            QueryKey::ExportedDefinitions(q) => SpecQueryKey::ExportedDefinitions(q.file_name@),
            QueryKey::GetImports(q) => SpecQueryKey::GetImports(q.file_name@),
            QueryKey::Resolve(q) => SpecQueryKey::Resolve(q.0@),
            QueryKey::GetStatement(q) => SpecQueryKey::GetStatement(q.0@),
            QueryKey::GetType(q) => SpecQueryKey::GetType(q.0@),
            QueryKey::TypeCheck(q) => SpecQueryKey::TypeCheck(q.0@),
            QueryKey::CompileFile(q) => SpecQueryKey::CompileFile(q.file_name@),
        }
    }
}

/// Structural equality of keys, over the models.
pub fn key_eq(a: &QueryKey, b: &QueryKey) -> (r: bool)
    ensures
        r == (a@ == b@),
{
    match (a, b) {
        (QueryKey::SourceFile(x), QueryKey::SourceFile(y)) => bytes_eq(&x.file_name, &y.file_name),
        (QueryKey::Parse(x), QueryKey::Parse(y)) => bytes_eq(&x.file_name, &y.file_name),
        (QueryKey::VisibleDefinitions(x), QueryKey::VisibleDefinitions(y)) => bytes_eq(
            &x.file_name,
            &y.file_name,
        ),
        (QueryKey::ExportedDefinitions(x), QueryKey::ExportedDefinitions(y)) => bytes_eq(
            &x.file_name,
            &y.file_name,
        ),
        (QueryKey::GetImports(x), QueryKey::GetImports(y)) => bytes_eq(&x.file_name, &y.file_name),
        (QueryKey::Resolve(x), QueryKey::Resolve(y)) => x.0.same_as(&y.0),
        (QueryKey::GetStatement(x), QueryKey::GetStatement(y)) => x.0.same_as(&y.0),
        (QueryKey::GetType(x), QueryKey::GetType(y)) => x.0.same_as(&y.0),
        (QueryKey::TypeCheck(x), QueryKey::TypeCheck(y)) => x.0.same_as(&y.0),
        (QueryKey::CompileFile(x), QueryKey::CompileFile(y)) => bytes_eq(&x.file_name, &y.file_name),
        _ => false,
    }
}

/// A fresh copy of a key.
pub fn key_copy(k: &QueryKey) -> (r: QueryKey)
    ensures
        r@ == k@,
{
    match k {
        QueryKey::SourceFile(q) => QueryKey::SourceFile(
            SourceFile { file_name: bytes_clone(&q.file_name) },
        ),
        QueryKey::Parse(q) => QueryKey::Parse(Parse { file_name: bytes_clone(&q.file_name) }),
        QueryKey::VisibleDefinitions(q) => QueryKey::VisibleDefinitions(
            VisibleDefinitions { file_name: bytes_clone(&q.file_name) },
        ),
        QueryKey::ExportedDefinitions(q) => QueryKey::ExportedDefinitions(
            ExportedDefinitions { file_name: bytes_clone(&q.file_name) },
        ),
        QueryKey::GetImports(q) => QueryKey::GetImports(
            GetImports { file_name: bytes_clone(&q.file_name) },
        ),
        QueryKey::Resolve(q) => QueryKey::Resolve(Resolve(q.0.copied())),
        QueryKey::GetStatement(q) => QueryKey::GetStatement(GetStatement(q.0.copied())),
        QueryKey::GetType(q) => QueryKey::GetType(GetType(q.0.copied())),
        QueryKey::TypeCheck(q) => QueryKey::TypeCheck(TypeCheck(q.0.copied())),
        QueryKey::CompileFile(q) => QueryKey::CompileFile(
            CompileFile { file_name: bytes_clone(&q.file_name) },
        ),
    }
}

// ---------------------------------------------------------------------------
// Query values
// ---------------------------------------------------------------------------
/// What a query evaluates to.  `Missing` stands for an input that was never
/// set, or a type query whose recursion budget ran out.
pub enum Value {
    Missing,
    Text(Vec<u8>),
    ParseResult(ParserResult),
    Defs(Definitions, Errors),
    Imports(Vec<(Vec<u8>, LocationData)>),
    Resolution(ResolutionResult),
    Statement(Option<TopLevelStatement>),
    DefType(TopLevelDefinitionType),
    TypeCheckRes(TypeCheckResult),
    Compiled(Vec<u8>, Errors),
}

pub ghost enum SpecValue {
    Missing,
    Text(Seq<u8>),
    ParseResult(SpecParserResult),
    Defs(Seq<(Seq<u8>, SpecDefBinding)>, Seq<SpecError>),
    Imports(Seq<(Seq<u8>, SpecLocation)>),
    Resolution(SpecResolutionResult),
    Statement(Option<SpecStatement>),
    DefType(SpecTopType),
    TypeCheckRes(SpecTypeCheckResult),
    Compiled(Seq<u8>, Seq<SpecError>),
}

impl View for Value {
    type V = SpecValue;

    open spec fn view(&self) -> SpecValue {
        match self {
            Value::Missing => SpecValue::Missing,
            Value::Text(t) => SpecValue::Text(t@),
            Value::ParseResult(p) => SpecValue::ParseResult(p@),
            Value::Defs(d, e) => SpecValue::Defs(defs_view(d@), errs_view(e@)),
            Value::Imports(i) => SpecValue::Imports(imports_view(i@)),
            Value::Resolution(r) => SpecValue::Resolution(r@),
            Value::Statement(s) => SpecValue::Statement(
                match s {
                    Some(st) => Some(st@),
                    None => None,
                },
            ),
            Value::DefType(t) => SpecValue::DefType(t@),
            Value::TypeCheckRes(t) => SpecValue::TypeCheckRes(t@),
            Value::Compiled(t, e) => SpecValue::Compiled(t@, errs_view(e@)),
        }
    }
}

// ---------------------------------------------------------------------------
// Extractors: total views of a value at each expected shape
// ---------------------------------------------------------------------------
/// An empty parse, the fallback for an unexpected value shape.
pub open spec fn sp_empty_parse() -> SpecParserResult {
    SpecParserResult {
        ast: SpecProgram { statements: Seq::empty() },
        errors: Seq::empty(),
        top_level_data: Seq::empty(),
    }
}

pub open spec fn as_text(v: SpecValue) -> Seq<u8> {
    match v {
        SpecValue::Text(t) => t,
        _ => Seq::empty(),
    }
}

pub open spec fn as_parse(v: SpecValue) -> SpecParserResult {
    match v {
        SpecValue::ParseResult(p) => p,
        _ => sp_empty_parse(),
    }
}

pub open spec fn as_defs(v: SpecValue) -> (Seq<(Seq<u8>, SpecDefBinding)>, Seq<SpecError>) {
    match v {
        SpecValue::Defs(d, e) => (d, e),
        _ => (Seq::empty(), Seq::empty()),
    }
}

pub open spec fn as_statement(v: SpecValue) -> Option<SpecStatement> {
    match v {
        SpecValue::Statement(s) => s,
        _ => None,
    }
}

pub open spec fn as_resolution(v: SpecValue) -> SpecResolutionResult {
    match v {
        SpecValue::Resolution(r) => r,
        _ => SpecResolutionResult { origins: Seq::empty(), errors: Seq::empty() },
    }
}

/// The fallback scheme is the error sentinel, so an exhausted type query
/// suppresses cascades rather than inventing a type.
pub open spec fn as_def_type(v: SpecValue) -> SpecTopType {
    match v {
        SpecValue::DefType(t) => t,
        _ => SpecTopType {
            type_variables: Seq::empty(),
            typ: crate::type_inference::SpecInfType::Error,
        },
    }
}

pub open spec fn as_type_check(v: SpecValue) -> SpecTypeCheckResult {
    match v {
        SpecValue::TypeCheckRes(t) => t,
        _ => SpecTypeCheckResult {
            typ: SpecTopType {
                type_variables: Seq::empty(),
                typ: crate::type_inference::SpecInfType::Error,
            },
            types: Seq::empty(),
            errors: Seq::empty(),
        },
    }
}

} // verus!

verus! {

// ---------------------------------------------------------------------------
// The meaning of a query
// ---------------------------------------------------------------------------
/// The order of the pipeline: a pass only asks for strictly earlier passes,
/// except the type queries, which may ask for each other and consume depth
/// budget instead.
pub open spec fn sp_rank(k: SpecQueryKey) -> int {
    match k {
        SpecQueryKey::SourceFile(_) => 0,
        SpecQueryKey::Parse(_) => 1,
        SpecQueryKey::ExportedDefinitions(_) => 2,
        SpecQueryKey::GetImports(_) => 2,
        SpecQueryKey::GetStatement(_) => 2,
        SpecQueryKey::VisibleDefinitions(_) => 3,
        SpecQueryKey::Resolve(_) => 4,
        SpecQueryKey::TypeCheck(_) => 5,
        SpecQueryKey::GetType(_) => 6,
        SpecQueryKey::CompileFile(_) => 7,
    }
}

/// The first statement with this identity, if any.
pub open spec fn sp_find_statement(stmts: Seq<SpecStatement>, j: int, id: SpecTopLevelId) -> Option<
    SpecStatement,
>
    decreases stmts.len() - j,
{
    if j < 0 || j >= stmts.len() {
        None
    } else if stmts[j].spec_id() == id {
        Some(stmts[j])
    } else {
        sp_find_statement(stmts, j + 1, id)
    }
}

/// A statement's recorded expression locations.
pub open spec fn sp_meta_of(
    tld: Seq<(SpecTopLevelId, SpecMetaData)>,
    id: SpecTopLevelId,
) -> Seq<(ExprId, SpecLocation)> {
    match assoc_lookup(tld, id) {
        Some(m) => m.expr_locations,
        None => Seq::empty(),
    }
}

/// What `k` evaluates to under the given inputs.  `fuel` bounds the depth
/// of type-query recursion; a run without recursive definitions never
/// consumes it.
pub open spec fn sp_eval(
    k: SpecQueryKey,
    inputs: Seq<(Seq<u8>, Seq<u8>)>,
    fuel: int,
) -> SpecValue
    decreases fuel, sp_rank(k), 0int,
{
    if fuel <= 0 {
        SpecValue::Missing
    } else {
        match k {
            SpecQueryKey::SourceFile(f) => match assoc_lookup(inputs, f) {
                Some(t) => SpecValue::Text(t),
                None => SpecValue::Missing,
            },
            SpecQueryKey::Parse(f) => {
                let tv = sp_eval(SpecQueryKey::SourceFile(f), inputs, fuel);
                let pr = crate::parser::sp_parse_impl(f, as_text(tv));
                if tv is Missing {
                    // a file that was demanded but never set is parsed as
                    // empty text, and the miss itself is surfaced
                    SpecValue::ParseResult(
                        SpecParserResult {
                            errors: pr.errors + seq![
                                SpecError::UnknownImportFile {
                                    file_name: f,
                                    location: SpecLocation {
                                        file_name: f,
                                        start: crate::parser::start_position(),
                                        end: crate::parser::start_position(),
                                    },
                                },
                            ],
                            ..pr
                        },
                    )
                } else {
                    SpecValue::ParseResult(pr)
                }
            },
            SpecQueryKey::ExportedDefinitions(f) => {
                let pr = as_parse(sp_eval(SpecQueryKey::Parse(f), inputs, fuel));
                let (d, e) = crate::definition_collection::sp_exported_definitions(pr, f);
                SpecValue::Defs(d, e)
            },
            SpecQueryKey::GetImports(f) => {
                let pr = as_parse(sp_eval(SpecQueryKey::Parse(f), inputs, fuel));
                SpecValue::Imports(crate::definition_collection::sp_get_imports(pr, f))
            },
            SpecQueryKey::GetStatement(id) => {
                let pr = as_parse(sp_eval(SpecQueryKey::Parse(id.file_path), inputs, fuel));
                SpecValue::Statement(sp_find_statement(pr.ast.statements, 0, id))
            },
            SpecQueryKey::VisibleDefinitions(f) => {
                let own = as_defs(sp_eval(SpecQueryKey::ExportedDefinitions(f), inputs, fuel));
                let pr = as_parse(sp_eval(SpecQueryKey::Parse(f), inputs, fuel));
                let imported = sp_fetch_imports(pr.ast.statements, 0, inputs, fuel);
                let (d, e) = crate::definition_collection::sp_visible_definitions(
                    pr,
                    own,
                    imported,
                    f,
                );
                SpecValue::Defs(d, e)
            },
            SpecQueryKey::Resolve(id) => {
                let stmt = as_statement(sp_eval(SpecQueryKey::GetStatement(id), inputs, fuel));
                let vis = as_defs(
                    sp_eval(SpecQueryKey::VisibleDefinitions(id.file_path), inputs, fuel),
                );
                let pr = as_parse(sp_eval(SpecQueryKey::Parse(id.file_path), inputs, fuel));
                SpecValue::Resolution(
                    crate::name_resolution::sp_resolve_impl(
                        stmt,
                        vis.0,
                        pr.top_level_data,
                        id,
                        id.file_path,
                    ),
                )
            },
            SpecQueryKey::TypeCheck(id) => {
                let stmt = as_statement(sp_eval(SpecQueryKey::GetStatement(id), inputs, fuel));
                let res = as_resolution(sp_eval(SpecQueryKey::Resolve(id), inputs, fuel));
                let pr = as_parse(sp_eval(SpecQueryKey::Parse(id.file_path), inputs, fuel));
                let globals = sp_fetch_globals(res.origins, 0, inputs, fuel);
                SpecValue::TypeCheckRes(
                    crate::type_inference::sp_type_check(
                        stmt,
                        SpecCheckCtx {
                            origins: res.origins,
                            globals: globals,
                            meta: sp_meta_of(pr.top_level_data, id),
                            file: id.file_path,
                        },
                    ),
                )
            },
            SpecQueryKey::GetType(id) => {
                let stmt = as_statement(sp_eval(SpecQueryKey::GetStatement(id), inputs, fuel));
                let tc = match stmt {
                    Some(SpecStatement::Definition(d)) => if d.typ is None {
                        as_type_check(sp_eval(SpecQueryKey::TypeCheck(id), inputs, fuel))
                    } else {
                        as_type_check(SpecValue::Missing)
                    },
                    _ => as_type_check(SpecValue::Missing),
                };
                SpecValue::DefType(crate::type_inference::sp_get_type(stmt, tc))
            },
            SpecQueryKey::CompileFile(f) => {
                let pr = as_parse(sp_eval(SpecQueryKey::Parse(f), inputs, fuel));
                let vis = as_defs(sp_eval(SpecQueryKey::VisibleDefinitions(f), inputs, fuel));
                let checks = sp_fetch_checks(pr.ast.statements, 0, inputs, fuel);
                let (text, errs) = crate::backend::sp_compile_file(pr, vis.1, checks);
                SpecValue::Compiled(text, errs)
            },
        }
    }
}

/// The exports of each imported file, one entry per `import` statement.
pub open spec fn sp_fetch_imports(
    stmts: Seq<SpecStatement>,
    j: int,
    inputs: Seq<(Seq<u8>, Seq<u8>)>,
    fuel: int,
) -> Seq<(Seq<(Seq<u8>, SpecDefBinding)>, Seq<SpecError>)>
    decreases fuel, 2int, stmts.len() - j + 1,
{
    if j < 0 || j >= stmts.len() || fuel <= 0 {
        Seq::empty()
    } else {
        match stmts[j] {
            SpecStatement::Import { file_name, id } => seq![
                as_defs(
                    sp_eval(SpecQueryKey::ExportedDefinitions(file_name.name), inputs, fuel),
                ),
            ] + sp_fetch_imports(stmts, j + 1, inputs, fuel),
            _ => sp_fetch_imports(stmts, j + 1, inputs, fuel),
        }
    }
}

/// The scheme of each globally-resolved name used by a statement, in the
/// order its uses were resolved.
pub open spec fn sp_fetch_globals(
    origins: Seq<(ExprId, crate::name_resolution::SpecOrigin)>,
    j: int,
    inputs: Seq<(Seq<u8>, Seq<u8>)>,
    fuel: int,
) -> Seq<(SpecTopLevelId, SpecTopType)>
    decreases fuel, 0int, origins.len() - j + 1,
{
    if j < 0 || j >= origins.len() || fuel <= 0 {
        Seq::empty()
    } else {
        match origins[j].1 {
            crate::name_resolution::SpecOrigin::TopLevelDefinition(tid) => seq![
                (
                    tid,
                    as_def_type(sp_eval(SpecQueryKey::GetType(tid), inputs, fuel - 1)),
                ),
            ] + sp_fetch_globals(origins, j + 1, inputs, fuel),
            _ => sp_fetch_globals(origins, j + 1, inputs, fuel),
        }
    }
}

/// Each statement's resolution and type check, in statement order.
pub open spec fn sp_fetch_checks(
    stmts: Seq<SpecStatement>,
    j: int,
    inputs: Seq<(Seq<u8>, Seq<u8>)>,
    fuel: int,
) -> Seq<(Seq<SpecError>, Seq<SpecError>)>
    decreases fuel, 6int, stmts.len() - j + 1,
{
    if j < 0 || j >= stmts.len() || fuel <= 0 {
        Seq::empty()
    } else {
        let sid = stmts[j].spec_id();
        seq![
            (
                as_resolution(sp_eval(SpecQueryKey::Resolve(sid), inputs, fuel)).errors,
                as_type_check(sp_eval(SpecQueryKey::TypeCheck(sid), inputs, fuel)).errors,
            ),
        ] + sp_fetch_checks(stmts, j + 1, inputs, fuel)
    }
}

/// The depth budget every query is run with: generous beyond any chain of
/// definitions a real program holds.
pub open spec fn sp_query_fuel() -> int {
    2048
}

} // verus!

verus! {

// ---------------------------------------------------------------------------
// Copies
// ---------------------------------------------------------------------------
fn meta_locs_copy(s: &Vec<(ExprId, LocationData)>) -> (r: Vec<(ExprId, LocationData)>)
    ensures
        locs_view(r@) == locs_view(s@),
{
    let mut r: Vec<(ExprId, LocationData)> = Vec::new();
    let n = s.len();
    let mut i: usize = 0;
    while i < n
        invariant
            n == s@.len(),
            0 <= i <= n,
            r@.len() == i,
            forall|j: int|
                0 <= j < i ==> (#[trigger] r@[j]).0 == s@[j].0 && r@[j].1@ == s@[j].1@,
        decreases n - i,
    {
        r.push((s[i].0, crate::errors::location_copy(&s[i].1)));
        i = i + 1;
    }
    proof {
        assert(locs_view(r@) =~= locs_view(s@));
    }
    r
}

fn tld_copy(s: &Vec<(TopLevelId, TopLevelMetaData)>) -> (r: Vec<(TopLevelId, TopLevelMetaData)>)
    ensures
        tld_view(r@) == tld_view(s@),
{
    let mut r: Vec<(TopLevelId, TopLevelMetaData)> = Vec::new();
    let n = s.len();
    let mut i: usize = 0;
    while i < n
        invariant
            n == s@.len(),
            0 <= i <= n,
            r@.len() == i,
            forall|j: int|
                0 <= j < i ==> (#[trigger] r@[j]).0@ == s@[j].0@ && r@[j].1@ == s@[j].1@,
        decreases n - i,
    {
        let meta = TopLevelMetaData {
            location: crate::errors::location_copy(&s[i].1.location),
            expr_locations: meta_locs_copy(&s[i].1.expr_locations),
        };
        r.push((s[i].0.copied(), meta));
        i = i + 1;
    }
    proof {
        assert(tld_view(r@) =~= tld_view(s@));
    }
    r
}

fn parser_result_copy(p: &ParserResult) -> (r: ParserResult)
    ensures
        r@ == p@,
{
    ParserResult {
        ast: crate::ast::program_copy(&p.ast),
        errors: crate::errors::errors_copy(&p.errors),
        top_level_data: tld_copy(&p.top_level_data),
    }
}

fn imports_copy(s: &Vec<(Vec<u8>, LocationData)>) -> (r: Vec<(Vec<u8>, LocationData)>)
    ensures
        imports_view(r@) == imports_view(s@),
{
    let mut r: Vec<(Vec<u8>, LocationData)> = Vec::new();
    let n = s.len();
    let mut i: usize = 0;
    while i < n
        invariant
            n == s@.len(),
            0 <= i <= n,
            r@.len() == i,
            forall|j: int|
                0 <= j < i ==> (#[trigger] r@[j]).0@ == s@[j].0@ && r@[j].1@ == s@[j].1@,
        decreases n - i,
    {
        r.push((bytes_clone(&s[i].0), crate::errors::location_copy(&s[i].1)));
        i = i + 1;
    }
    proof {
        assert(imports_view(r@) =~= imports_view(s@));
    }
    r
}

fn origins_copy(s: &Vec<(ExprId, crate::name_resolution::Origin)>) -> (r: Vec<
    (ExprId, crate::name_resolution::Origin),
>)
    ensures
        origins_view(r@) == origins_view(s@),
{
    let mut r: Vec<(ExprId, crate::name_resolution::Origin)> = Vec::new();
    let n = s.len();
    let mut i: usize = 0;
    while i < n
        invariant
            n == s@.len(),
            0 <= i <= n,
            r@.len() == i,
            forall|j: int|
                0 <= j < i ==> (#[trigger] r@[j]).0 == s@[j].0 && r@[j].1@ == s@[j].1@,
        decreases n - i,
    {
        let o = match &s[i].1 {
            crate::name_resolution::Origin::TopLevelDefinition(id) => {
                crate::name_resolution::Origin::TopLevelDefinition(id.copied())
            },
            crate::name_resolution::Origin::Parameter(p) => {
                crate::name_resolution::Origin::Parameter(*p)
            },
        };
        r.push((s[i].0, o));
        i = i + 1;
    }
    proof {
        assert(origins_view(r@) =~= origins_view(s@));
    }
    r
}

fn resolution_copy(p: &ResolutionResult) -> (r: ResolutionResult)
    ensures
        r@ == p@,
{
    ResolutionResult {
        origins: origins_copy(&p.origins),
        errors: crate::errors::errors_copy(&p.errors),
    }
}

fn types_copy(s: &Vec<(ExprId, crate::type_inference::Type)>) -> (r: Vec<
    (ExprId, crate::type_inference::Type),
>)
    ensures
        types_view(r@) == types_view(s@),
{
    let mut r: Vec<(ExprId, crate::type_inference::Type)> = Vec::new();
    let n = s.len();
    let mut i: usize = 0;
    while i < n
        invariant
            n == s@.len(),
            0 <= i <= n,
            r@.len() == i,
            forall|j: int|
                0 <= j < i ==> (#[trigger] r@[j]).0 == s@[j].0 && r@[j].1@ == s@[j].1@,
        decreases n - i,
    {
        r.push((s[i].0, crate::type_inference::inf_type_copy(&s[i].1)));
        i = i + 1;
    }
    proof {
        assert(types_view(r@) =~= types_view(s@));
    }
    r
}

fn type_check_copy(p: &TypeCheckResult) -> (r: TypeCheckResult)
    ensures
        r@ == p@,
{
    TypeCheckResult {
        typ: p.typ.copied(),
        types: types_copy(&p.types),
        errors: crate::errors::errors_copy(&p.errors),
    }
}

fn statement_option_copy(s: &Option<TopLevelStatement>) -> (r: Option<TopLevelStatement>)
    ensures
        match (r, s) {
            (Some(a), Some(b)) => a@ == b@,
            (None, None) => true,
            _ => false,
        },
{
    match s {
        Some(st) => Some(crate::ast::statement_copy(st)),
        None => None,
    }
}

/// A fresh copy of a stored value.
pub fn value_copy(v: &Value) -> (r: Value)
    ensures
        r@ == v@,
{
    match v {
        Value::Missing => Value::Missing,
        Value::Text(t) => Value::Text(bytes_clone(t)),
        Value::ParseResult(p) => Value::ParseResult(parser_result_copy(p)),
        Value::Defs(d, e) => Value::Defs(
            crate::definition_collection::defs_copy(d),
            crate::errors::errors_copy(e),
        ),
        Value::Imports(i) => Value::Imports(imports_copy(i)),
        Value::Resolution(r0) => Value::Resolution(resolution_copy(r0)),
        Value::Statement(s) => Value::Statement(statement_option_copy(s)),
        Value::DefType(t) => Value::DefType(t.copied()),
        Value::TypeCheckRes(t) => Value::TypeCheckRes(type_check_copy(t)),
        Value::Compiled(t, e) => Value::Compiled(bytes_clone(t), crate::errors::errors_copy(e)),
    }
}

// ---------------------------------------------------------------------------
// Extractions
// ---------------------------------------------------------------------------
fn take_text(v: Value) -> (r: Vec<u8>)
    ensures
        r@ == as_text(v@),
{
    match v {
        Value::Text(t) => t,
        _ => {
            let r: Vec<u8> = Vec::new();
            proof {
                assert(r@ =~= Seq::<u8>::empty());
            }
            r
        },
    }
}

fn take_parse(v: Value) -> (r: ParserResult)
    ensures
        r@ == as_parse(v@),
{
    match v {
        Value::ParseResult(p) => p,
        _ => {
            let r = ParserResult {
                ast: Program { statements: Vec::new() },
                errors: Vec::new(),
                top_level_data: Vec::new(),
            };
            proof {
                assert(r@.ast.statements =~= Seq::<SpecStatement>::empty());
                assert(r@.errors =~= Seq::<SpecError>::empty());
                assert(r@.top_level_data =~= Seq::<(SpecTopLevelId, SpecMetaData)>::empty());
            }
            r
        },
    }
}

fn take_defs(v: Value) -> (r: (Definitions, Errors))
    ensures
        defs_view(r.0@) == as_defs(v@).0,
        errs_view(r.1@) == as_defs(v@).1,
{
    match v {
        Value::Defs(d, e) => (d, e),
        _ => {
            let r: (Definitions, Errors) = (Vec::new(), Vec::new());
            proof {
                assert(defs_view(r.0@) =~= Seq::<(Seq<u8>, SpecDefBinding)>::empty());
                assert(errs_view(r.1@) =~= Seq::<SpecError>::empty());
            }
            r
        },
    }
}

fn take_statement(v: Value) -> (r: Option<TopLevelStatement>)
    ensures
        match (r, as_statement(v@)) {
            (Some(a), Some(b)) => a@ == b,
            (None, None) => true,
            _ => false,
        },
{
    match v {
        Value::Statement(s) => s,
        _ => None,
    }
}

fn take_resolution(v: Value) -> (r: ResolutionResult)
    ensures
        r@ == as_resolution(v@),
{
    match v {
        Value::Resolution(r0) => r0,
        _ => {
            let r = ResolutionResult { origins: Vec::new(), errors: Vec::new() };
            proof {
                assert(r@.origins =~= Seq::<(ExprId, crate::name_resolution::SpecOrigin)>::empty());
                assert(r@.errors =~= Seq::<SpecError>::empty());
            }
            r
        },
    }
}

fn take_def_type(v: Value) -> (r: TopLevelDefinitionType)
    ensures
        r@ == as_def_type(v@),
{
    match v {
        Value::DefType(t) => t,
        _ => {
            let r = TopLevelDefinitionType {
                type_variables: Vec::new(),
                typ: crate::type_inference::Type::Error,
            };
            proof {
                assert(r@.type_variables =~= Seq::<crate::type_inference::TypeVariableId>::empty());
            }
            r
        },
    }
}

fn take_type_check(v: Value) -> (r: TypeCheckResult)
    ensures
        r@ == as_type_check(v@),
{
    match v {
        Value::TypeCheckRes(t) => t,
        _ => {
            let r = TypeCheckResult {
                typ: TopLevelDefinitionType {
                    type_variables: Vec::new(),
                    typ: crate::type_inference::Type::Error,
                },
                types: Vec::new(),
                errors: Vec::new(),
            };
            proof {
                assert(r@.typ.type_variables =~= Seq::<
                    crate::type_inference::TypeVariableId,
                >::empty());
                assert(r@.types =~= Seq::<(ExprId, crate::type_inference::SpecInfType)>::empty());
                assert(r@.errors =~= Seq::<SpecError>::empty());
            }
            r
        },
    }
}

} // verus!

verus! {

// ---------------------------------------------------------------------------
// The database
// ---------------------------------------------------------------------------
/// An engine-level failure; recomputation failures are diagnostics in the
/// values, never engine errors.
pub enum EngineError {
    /// `set_source_file` was called while a query was executing.
    InputMutationDuringQuery,
}

/// The model of the input table.
pub open spec fn inputs_view(s: Seq<(Vec<u8>, Vec<u8>)>) -> Seq<(Seq<u8>, Seq<u8>)> {
    s.map_values(|p: (Vec<u8>, Vec<u8>)| (p.0@, p.1@))
}

/// The model of the execution log.
pub open spec fn keys_view(s: Seq<QueryKey>) -> Seq<SpecQueryKey> {
    s.map_values(|k: QueryKey| k@)
}

pub(crate) struct Entry {
    pub key: QueryKey,
    pub value: Value,
    pub verified_at: u64,
    pub fuel: u32,
}

/// The database: the one place the pipeline's state lives.  Inputs are set
/// from outside between query sessions; derived values are memoized here.
pub struct Database {
    pub(crate) inputs: Vec<(Vec<u8>, Vec<u8>)>,
    pub(crate) entries: Vec<Entry>,
    pub(crate) revision: u64,
    pub(crate) query_depth: u32,
    pub(crate) log: Vec<QueryKey>,
}

/// The model of the database: its inputs, revision, query nesting, and the
/// log of executed passes.
pub ghost struct SpecDb {
    pub inputs: Seq<(Seq<u8>, Seq<u8>)>,
    pub revision: u64,
    pub query_depth: u32,
    pub log: Seq<SpecQueryKey>,
}

impl View for Database {
    type V = SpecDb;

    closed spec fn view(&self) -> SpecDb {
        SpecDb {
            inputs: inputs_view(self.inputs@),
            revision: self.revision,
            query_depth: self.query_depth,
            log: keys_view(self.log@),
        }
    }
}

impl Database {
    /// Every memoized value that counts as fresh really is the query's
    /// value under the current inputs.
    pub closed spec fn wf(&self) -> bool {
        forall|i: int|
            0 <= i < self.entries@.len() ==> ((#[trigger] self.entries@[i]).verified_at
                <= self.revision && (self.entries@[i].verified_at == self.revision
                ==> self.entries@[i].value@ == sp_eval(
                self.entries@[i].key@,
                inputs_view(self.inputs@),
                self.entries@[i].fuel as int,
            )))
    }

    /// An empty database: no inputs, nothing cached.
    pub fn new() -> (r: Database)
        ensures
            r.wf(),
            r@.inputs == Seq::<(Seq<u8>, Seq<u8>)>::empty(),
            r@.revision == 0,
            r@.query_depth == 0,
            r@.log == Seq::<SpecQueryKey>::empty(),
    {
        let r = Database {
            inputs: Vec::new(),
            entries: Vec::new(),
            revision: 0,
            query_depth: 0,
            log: Vec::new(),
        };
        proof {
            assert(r@.inputs =~= Seq::<(Seq<u8>, Seq<u8>)>::empty());
            assert(r@.log =~= Seq::<SpecQueryKey>::empty());
        }
        r
    }

    /// The number of passes executed so far.
    pub fn log_len(&self) -> (r: usize)
        ensures
            r == self@.log.len(),
    {
        self.log.len()
    }

    /// The key of the `i`-th executed pass.
    pub fn log_entry(&self, i: usize) -> (r: QueryKey)
        requires
            i < self@.log.len(),
        ensures
            r@ == self@.log[i as int],
    {
        key_copy(&self.log[i])
    }

    /// Evaluate a query: from the cache when fresh, else by running the
    /// pass, memoizing and logging it.
    pub fn get(&mut self, k: &QueryKey) -> (r: Value)
        requires
            old(self).wf(),
        ensures
            final(self).wf(),
            r@ == sp_eval(k@, old(self)@.inputs, sp_query_fuel()),
            final(self)@.inputs == old(self)@.inputs,
            final(self)@.revision == old(self)@.revision,
            final(self)@.query_depth == old(self)@.query_depth,
            final(self)@.log.len() >= old(self)@.log.len(),
            final(self)@.log.subrange(0, old(self)@.log.len() as int) == old(self)@.log,
    {
        self.get_inner(k, 2048)
    }

    #[verifier::loop_isolation(false)]
    #[verifier::rlimit(100)]
    #[verifier::spinoff_prover]
    fn get_inner(&mut self, k: &QueryKey, fuel: u32) -> (r: Value)
        requires
            old(self).wf(),
        ensures
            final(self).wf(),
            r@ == sp_eval(k@, old(self)@.inputs, fuel as int),
            final(self)@.inputs == old(self)@.inputs,
            final(self)@.revision == old(self)@.revision,
            final(self)@.query_depth == old(self)@.query_depth,
            final(self)@.log.len() >= old(self)@.log.len(),
            final(self)@.log.subrange(0, old(self)@.log.len() as int) == old(self)@.log,
        decreases fuel, sp_rank(k@), 0int,
    {
        if fuel == 0 {
            return Value::Missing;
        }
        // a fresh cached value answers at once, with no pass executed
        let n = self.entries.len();
        let mut i: usize = 0;
        while i < n
            invariant
                n == self.entries@.len(),
                0 <= i <= n,
                self@ == old(self)@,
                self.wf(),
                self.entries@ == old(self).entries@,
            decreases n - i,
        {
            let hit = key_eq(&self.entries[i].key, k) && self.entries[i].verified_at
                == self.revision && self.entries[i].fuel == fuel;
            if hit {
                return value_copy(&self.entries[i].value);
            }
            i = i + 1;
        }
        // run the pass
        let v: Value = match k {
            QueryKey::SourceFile(q) => {
                let m = self.inputs.len();
                let mut j: usize = 0;
                let mut found: Option<Vec<u8>> = None;
                while j < m
                    invariant
                        m == self.inputs@.len(),
                        0 <= j <= m,
                        self@ == old(self)@,
                        self.wf(),
                        self.entries@ == old(self).entries@,
                        match found {
                            Some(t) => t@ == as_text(
                                sp_eval(k@, old(self)@.inputs, fuel as int),
                            ) && sp_eval(k@, old(self)@.inputs, fuel as int) is Text,
                            None => forall|x: int|
                                0 <= x < j ==> (#[trigger] self.inputs@[x]).0@ != q.file_name@,
                        },
                    decreases m - j, (if found is Some { 0int } else { 1int }),
                {
                    match &found {
                        Some(_) => {
                            break;
                        },
                        None => {},
                    }
                    if bytes_eq(&self.inputs[j].0, &q.file_name) {
                        proof {
                            assert(inputs_view(self.inputs@)[j as int] == (
                                self.inputs@[j as int].0@,
                                self.inputs@[j as int].1@,
                            ));
                            lemma_assoc_lookup_at(
                                inputs_view(self.inputs@),
                                q.file_name@,
                                j as int,
                            );
                        }
                        found = Some(bytes_clone(&self.inputs[j].1));
                    } else {
                        j = j + 1;
                    }
                }
                match found {
                    Some(t) => Value::Text(t),
                    None => {
                        proof {
                            lemma_assoc_lookup_absent(inputs_view(self.inputs@), q.file_name@);
                        }
                        Value::Missing
                    },
                }
            },
            QueryKey::Parse(q) => {
                let tv = self.get_inner(
                    &QueryKey::SourceFile(SourceFile { file_name: bytes_clone(&q.file_name) }),
                    fuel,
                );
                let missing = matches!(tv, Value::Missing);
                let text = take_text(tv);
                let mut pr = crate::parser::parse_impl(&q.file_name, &text);
                if missing {
                    let ghost pre_errs = errs_view(pr.errors@);
                    let position = Position { byte_index: 0, line_number: 1, column_number: 1 };
                    let location = LocationData {
                        file_name: bytes_clone(&q.file_name),
                        start: position,
                        end: position,
                    };
                    let e = Error::UnknownImportFile {
                        file_name: bytes_clone(&q.file_name),
                        location,
                    };
                    let ghost ev = e@;
                    pr.errors.push(e);
                    proof {
                        assert(errs_view(pr.errors@) =~= pre_errs + seq![ev]);
                    }
                }
                Value::ParseResult(pr)
            },
            QueryKey::ExportedDefinitions(q) => {
                let pv = self.get_inner(
                    &QueryKey::Parse(Parse { file_name: bytes_clone(&q.file_name) }),
                    fuel,
                );
                let pr = take_parse(pv);
                let (d, e) = crate::definition_collection::exported_definitions_impl(
                    &pr,
                    &q.file_name,
                );
                Value::Defs(d, e)
            },
            QueryKey::GetImports(q) => {
                let pv = self.get_inner(
                    &QueryKey::Parse(Parse { file_name: bytes_clone(&q.file_name) }),
                    fuel,
                );
                let pr = take_parse(pv);
                Value::Imports(
                    crate::definition_collection::get_imports_impl(&pr, &q.file_name),
                )
            },
            QueryKey::GetStatement(q) => {
                let pv = self.get_inner(
                    &QueryKey::Parse(Parse { file_name: bytes_clone(&q.0.file_path) }),
                    fuel,
                );
                let pr = take_parse(pv);
                let sn = pr.ast.statements.len();
                let mut j: usize = 0;
                let mut found: Option<TopLevelStatement> = None;
                while j < sn && matches!(found, None)
                    invariant
                        sn == pr.ast.statements@.len(),
                        0 <= j <= sn,
                        match found {
                            Some(s) => Some(s@) == sp_find_statement(
                                pr@.ast.statements,
                                0,
                                q.0@,
                            ),
                            None => sp_find_statement(pr@.ast.statements, 0, q.0@)
                                == sp_find_statement(pr@.ast.statements, j as int, q.0@),
                        },
                    decreases sn - j, (if found is Some { 0int } else { 1int }),
                {
                    proof {
                        assert(pr@.ast.statements[j as int] == pr.ast.statements@[j as int]@);
                    }
                    if pr.ast.statements[j].id().same_as(&q.0) {
                        found = Some(crate::ast::statement_copy(&pr.ast.statements[j]));
                    } else {
                        j = j + 1;
                    }
                }
                proof {
                    if found is None {
                        assert(sp_find_statement(pr@.ast.statements, sn as int, q.0@) is None);
                    }
                }
                Value::Statement(found)
            },
            QueryKey::VisibleDefinitions(q) => {
                let ov = self.get_inner(
                    &QueryKey::ExportedDefinitions(
                        ExportedDefinitions { file_name: bytes_clone(&q.file_name) },
                    ),
                    fuel,
                );
                let own = take_defs(ov);
                let pv = self.get_inner(
                    &QueryKey::Parse(Parse { file_name: bytes_clone(&q.file_name) }),
                    fuel,
                );
                let pr = take_parse(pv);
                let sn = pr.ast.statements.len();
                let mut imported: Vec<(Definitions, Errors)> = Vec::new();
                let mut j: usize = 0;
                while j < sn
                    invariant
                        sn == pr.ast.statements@.len(),
                        0 <= j <= sn,
                        self.wf(),
                        self@.inputs == old(self)@.inputs,
                        self@.revision == old(self)@.revision,
                        self@.query_depth == old(self)@.query_depth,
                        self@.log.len() >= old(self)@.log.len(),
                        self@.log.subrange(0, old(self)@.log.len() as int) == old(self)@.log,
                        fuel > 0,
                        sp_fetch_imports(pr@.ast.statements, 0, old(self)@.inputs, fuel as int)
                            =~= crate::definition_collection::fetched_view(imported@)
                            + sp_fetch_imports(
                            pr@.ast.statements,
                            j as int,
                            old(self)@.inputs,
                            fuel as int,
                        ),
                    decreases sn - j,
                {
                    let ghost pre = crate::definition_collection::fetched_view(imported@);
                    proof {
                        assert(pr@.ast.statements[j as int] == pr.ast.statements@[j as int]@);
                    }
                    match &pr.ast.statements[j] {
                        TopLevelStatement::Import { file_name, id } => {
                            let ev = self.get_inner(
                                &QueryKey::ExportedDefinitions(
                                    ExportedDefinitions { file_name: bytes_clone(&file_name.name) },
                                ),
                                fuel,
                            );
                            let fetched = take_defs(ev);
                            imported.push(fetched);
                            proof {
                                assert(crate::definition_collection::fetched_view(imported@)
                                    =~= pre + seq![
                                    as_defs(
                                        sp_eval(
                                            SpecQueryKey::ExportedDefinitions(file_name.name@),
                                            old(self)@.inputs,
                                            fuel as int,
                                        ),
                                    ),
                                ]);
                            }
                        },
                        _ => {},
                    }
                    j = j + 1;
                }
                proof {
                    assert(sp_fetch_imports(
                        pr@.ast.statements,
                        sn as int,
                        old(self)@.inputs,
                        fuel as int,
                    ) =~= Seq::<(Seq<(Seq<u8>, SpecDefBinding)>, Seq<SpecError>)>::empty());
                    assert(crate::definition_collection::fetched_view(imported@)
                        =~= sp_fetch_imports(
                        pr@.ast.statements,
                        0,
                        old(self)@.inputs,
                        fuel as int,
                    ));
                }
                let (d, e) = crate::definition_collection::visible_definitions_impl(
                    &pr,
                    &own,
                    &imported,
                    &q.file_name,
                );
                Value::Defs(d, e)
            },
            QueryKey::Resolve(q) => {
                let sv = self.get_inner(&QueryKey::GetStatement(GetStatement(q.0.copied())), fuel);
                let stmt = take_statement(sv);
                let vv = self.get_inner(
                    &QueryKey::VisibleDefinitions(
                        VisibleDefinitions { file_name: bytes_clone(&q.0.file_path) },
                    ),
                    fuel,
                );
                let vis = take_defs(vv);
                let pv = self.get_inner(
                    &QueryKey::Parse(Parse { file_name: bytes_clone(&q.0.file_path) }),
                    fuel,
                );
                let pr = take_parse(pv);
                Value::Resolution(
                    crate::name_resolution::resolve_impl(
                        &stmt,
                        &vis.0,
                        &pr.top_level_data,
                        &q.0,
                        &q.0.file_path,
                    ),
                )
            },
            QueryKey::TypeCheck(q) => {
                let sv = self.get_inner(&QueryKey::GetStatement(GetStatement(q.0.copied())), fuel);
                let stmt = take_statement(sv);
                let rv = self.get_inner(&QueryKey::Resolve(Resolve(q.0.copied())), fuel);
                let res = take_resolution(rv);
                let pv = self.get_inner(
                    &QueryKey::Parse(Parse { file_name: bytes_clone(&q.0.file_path) }),
                    fuel,
                );
                let pr = take_parse(pv);
                // the scheme of every globally-resolved name this statement uses
                let on = res.origins.len();
                let mut globals: Vec<(TopLevelId, TopLevelDefinitionType)> = Vec::new();
                let mut j: usize = 0;
                while j < on
                    invariant
                        on == res.origins@.len(),
                        0 <= j <= on,
                        self.wf(),
                        self@.inputs == old(self)@.inputs,
                        self@.revision == old(self)@.revision,
                        self@.query_depth == old(self)@.query_depth,
                        self@.log.len() >= old(self)@.log.len(),
                        self@.log.subrange(0, old(self)@.log.len() as int) == old(self)@.log,
                        fuel > 0,
                        sp_fetch_globals(res@.origins, 0, old(self)@.inputs, fuel as int)
                            =~= crate::type_inference::globals_view(globals@) + sp_fetch_globals(
                            res@.origins,
                            j as int,
                            old(self)@.inputs,
                            fuel as int,
                        ),
                    decreases on - j,
                {
                    let ghost pre = crate::type_inference::globals_view(globals@);
                    proof {
                        assert(res@.origins[j as int] == (
                            res.origins@[j as int].0,
                            res.origins@[j as int].1@,
                        ));
                    }
                    match &res.origins[j].1 {
                        crate::name_resolution::Origin::TopLevelDefinition(tid) => {
                            let gv = self.get_inner(
                                &QueryKey::GetType(GetType(tid.copied())),
                                fuel - 1,
                            );
                            let g = take_def_type(gv);
                            globals.push((tid.copied(), g));
                            proof {
                                assert(crate::type_inference::globals_view(globals@) =~= pre
                                    + seq![
                                    (
                                        tid@,
                                        as_def_type(
                                            sp_eval(
                                                SpecQueryKey::GetType(tid@),
                                                old(self)@.inputs,
                                                fuel - 1,
                                            ),
                                        ),
                                    ),
                                ]);
                            }
                        },
                        _ => {},
                    }
                    j = j + 1;
                }
                proof {
                    assert(sp_fetch_globals(
                        res@.origins,
                        on as int,
                        old(self)@.inputs,
                        fuel as int,
                    ) =~= Seq::<(SpecTopLevelId, SpecTopType)>::empty());
                    assert(crate::type_inference::globals_view(globals@) =~= sp_fetch_globals(
                        res@.origins,
                        0,
                        old(self)@.inputs,
                        fuel as int,
                    ));
                }
                // this statement's recorded expression locations
                let tn = pr.top_level_data.len();
                let mut meta: Vec<(ExprId, LocationData)> = Vec::new();
                let mut found_meta = false;
                let mut j2: usize = 0;
                while j2 < tn && !found_meta
                    invariant
                        tn == pr.top_level_data@.len(),
                        0 <= j2 <= tn,
                        !found_meta ==> forall|x: int|
                            0 <= x < j2 ==> (#[trigger] pr.top_level_data@[x]).0@ != q.0@,
                        !found_meta ==> meta@.len() == 0,
                        found_meta ==> locs_view(meta@) == sp_meta_of(pr@.top_level_data, q.0@),
                    decreases tn - j2, (if found_meta { 0int } else { 1int }),
                {
                    if pr.top_level_data[j2].0.same_as(&q.0) {
                        proof {
                            assert(tld_view(pr.top_level_data@)[j2 as int] == (
                                pr.top_level_data@[j2 as int].0@,
                                pr.top_level_data@[j2 as int].1@,
                            ));
                            lemma_assoc_lookup_at(tld_view(pr.top_level_data@), q.0@, j2 as int);
                        }
                        meta = meta_locs_copy(&pr.top_level_data[j2].1.expr_locations);
                        found_meta = true;
                    } else {
                        j2 = j2 + 1;
                    }
                }
                proof {
                    if !found_meta {
                        lemma_assoc_lookup_absent(tld_view(pr.top_level_data@), q.0@);
                        assert(locs_view(meta@) =~= Seq::<(ExprId, SpecLocation)>::empty());
                    }
                }
                Value::TypeCheckRes(
                    crate::type_inference::type_check_impl(
                        &stmt,
                        &res,
                        &globals,
                        &meta,
                        &q.0.file_path,
                    ),
                )
            },
            QueryKey::GetType(q) => {
                let sv = self.get_inner(&QueryKey::GetStatement(GetStatement(q.0.copied())), fuel);
                let stmt = take_statement(sv);
                let needs_check = match &stmt {
                    Some(TopLevelStatement::Definition(d)) => matches!(d.typ, None),
                    _ => false,
                };
                let tc = if needs_check {
                    let tv = self.get_inner(&QueryKey::TypeCheck(TypeCheck(q.0.copied())), fuel);
                    take_type_check(tv)
                } else {
                    take_type_check(Value::Missing)
                };
                Value::DefType(crate::type_inference::get_type_impl(&stmt, &tc))
            },
            QueryKey::CompileFile(q) => {
                let pv = self.get_inner(
                    &QueryKey::Parse(Parse { file_name: bytes_clone(&q.file_name) }),
                    fuel,
                );
                let pr = take_parse(pv);
                let vv = self.get_inner(
                    &QueryKey::VisibleDefinitions(
                        VisibleDefinitions { file_name: bytes_clone(&q.file_name) },
                    ),
                    fuel,
                );
                let vis = take_defs(vv);
                let sn = pr.ast.statements.len();
                let mut checks: Vec<(ResolutionResult, TypeCheckResult)> = Vec::new();
                let mut j: usize = 0;
                while j < sn
                    invariant
                        sn == pr.ast.statements@.len(),
                        0 <= j <= sn,
                        self.wf(),
                        self@.inputs == old(self)@.inputs,
                        self@.revision == old(self)@.revision,
                        self@.query_depth == old(self)@.query_depth,
                        self@.log.len() >= old(self)@.log.len(),
                        self@.log.subrange(0, old(self)@.log.len() as int) == old(self)@.log,
                        fuel > 0,
                        sp_fetch_checks(pr@.ast.statements, 0, old(self)@.inputs, fuel as int)
                            =~= crate::backend::checks_view(checks@) + sp_fetch_checks(
                            pr@.ast.statements,
                            j as int,
                            old(self)@.inputs,
                            fuel as int,
                        ),
                    decreases sn - j,
                {
                    let ghost pre = crate::backend::checks_view(checks@);
                    proof {
                        assert(pr@.ast.statements[j as int] == pr.ast.statements@[j as int]@);
                    }
                    let sid = pr.ast.statements[j].id().copied();
                    let rv = self.get_inner(&QueryKey::Resolve(Resolve(sid)), fuel);
                    let res = take_resolution(rv);
                    let sid2 = pr.ast.statements[j].id().copied();
                    let tv = self.get_inner(&QueryKey::TypeCheck(TypeCheck(sid2)), fuel);
                    let tc = take_type_check(tv);
                    checks.push((res, tc));
                    proof {
                        assert(crate::backend::checks_view(checks@) =~= pre + seq![
                            (
                                as_resolution(
                                    sp_eval(
                                        SpecQueryKey::Resolve(
                                            pr@.ast.statements[j as int].spec_id(),
                                        ),
                                        old(self)@.inputs,
                                        fuel as int,
                                    ),
                                ).errors,
                                as_type_check(
                                    sp_eval(
                                        SpecQueryKey::TypeCheck(
                                            pr@.ast.statements[j as int].spec_id(),
                                        ),
                                        old(self)@.inputs,
                                        fuel as int,
                                    ),
                                ).errors,
                            ),
                        ]);
                    }
                    j = j + 1;
                }
                proof {
                    assert(sp_fetch_checks(
                        pr@.ast.statements,
                        sn as int,
                        old(self)@.inputs,
                        fuel as int,
                    ) =~= Seq::<(Seq<SpecError>, Seq<SpecError>)>::empty());
                    assert(crate::backend::checks_view(checks@) =~= sp_fetch_checks(
                        pr@.ast.statements,
                        0,
                        old(self)@.inputs,
                        fuel as int,
                    ));
                }
                let (text, errs) = crate::backend::compile_file_impl(&pr, &vis.1, &checks);
                Value::Compiled(text, errs)
            },
        };
        // memoize and log the execution
        let stored = value_copy(&v);
        let ghost pre_entries = self.entries@;
        self.entries.push(
            Entry { key: key_copy(k), value: stored, verified_at: self.revision, fuel },
        );
        proof {
            assert forall|x: int|
                0 <= x < self.entries@.len() implies ((#[trigger] self.entries@[x]).verified_at
                <= self.revision && (self.entries@[x].verified_at == self.revision
                ==> self.entries@[x].value@ == sp_eval(
                self.entries@[x].key@,
                inputs_view(self.inputs@),
                self.entries@[x].fuel as int,
            ))) by {
                if x < pre_entries.len() {
                    assert(self.entries@[x] == pre_entries[x]);
                }
            }
        }
        let ghost pre_log = self@.log;
        self.log.push(key_copy(k));
        proof {
            assert(keys_view(self.log@) =~= pre_log + seq![k@]);
            assert(self@.log.subrange(0, old(self)@.log.len() as int) =~= old(self)@.log);
        }
        v
    }
}

} // verus!

verus! {

/// Set (or replace) the text of a source file.  This is the only input of
/// the pipeline; a change bumps the revision, so cached results are no
/// longer fresh.  Setting a file to the very text it already holds is a
/// no-op: the database — revision and cache included — is left exactly as
/// it was, so nothing is re-executed on its account.  While any query is
/// executing, inputs must not move: the call fails instead.
pub fn set_source_file(file_name: Vec<u8>, text: Vec<u8>, db: &mut Database) -> (r: Result<
    (),
    EngineError,
>)
    requires
        old(db).wf(),
    ensures
        final(db).wf(),
        old(db)@.query_depth > 0 ==> r is Err && final(db)@ == old(db)@,
        old(db)@.query_depth == 0 ==> r is Ok && final(db)@.inputs == assoc_insert(
            old(db)@.inputs,
            file_name@,
            text@,
        ) && final(db)@.query_depth == 0 && (assoc_lookup(old(db)@.inputs, file_name@) == Some(
            text@,
        ) ==> final(db)@ == old(db)@) && (assoc_lookup(old(db)@.inputs, file_name@) != Some(text@)
            ==> final(db)@.log == old(db)@.log && (old(db)@.revision < u64::MAX
            ==> final(db)@.revision == old(db)@.revision + 1) && (old(db)@.revision == u64::MAX
            ==> final(db)@.revision == u64::MAX)),
{
    if db.query_depth > 0 {
        return Err(EngineError::InputMutationDuringQuery);
    }
    let ghost before = inputs_view(db.inputs@);
    let n = db.inputs.len();
    let mut i: usize = 0;
    let mut found = false;
    while i < n && !found
        invariant
            n == db.inputs@.len(),
            0 <= i <= n,
            db@ == old(db)@,
            db.wf(),
            !found ==> forall|j: int| 0 <= j < i ==> (#[trigger] db.inputs@[j]).0@ != file_name@,
            found ==> i < n && db.inputs@[i as int].0@ == file_name@ && forall|j: int|
                0 <= j < i ==> (#[trigger] db.inputs@[j]).0@ != file_name@,
        decreases n - i, (if found { 0int } else { 1int }),
    {
        if bytes_eq(&db.inputs[i].0, &file_name) {
            found = true;
        } else {
            i = i + 1;
        }
    }
    if found {
        if bytes_eq(&db.inputs[i].1, &text) {
            // the very text the file already holds: nothing moves
            proof {
                assert(inputs_view(db.inputs@)[i as int] == (
                    db.inputs@[i as int].0@,
                    db.inputs@[i as int].1@,
                ));
                lemma_assoc_lookup_at(inputs_view(db.inputs@), file_name@, i as int);
                crate::table::lemma_insert_same(inputs_view(db.inputs@), file_name@, text@);
            }
            return Ok(());
        }
        proof {
            assert(inputs_view(db.inputs@)[i as int] == (
                db.inputs@[i as int].0@,
                db.inputs@[i as int].1@,
            ));
            lemma_assoc_lookup_at(inputs_view(db.inputs@), file_name@, i as int);
        }
        db.inputs[i] = (file_name, text);
        proof {
            crate::table::lemma_assoc_insert_at(
                before,
                db.inputs@[i as int].0@,
                db.inputs@[i as int].1@,
                i as int,
            );
            assert(inputs_view(db.inputs@) =~= assoc_insert(
                before,
                db.inputs@[i as int].0@,
                db.inputs@[i as int].1@,
            ));
        }
    } else {
        let ghost fv = file_name@;
        let ghost tv = text@;
        proof {
            lemma_assoc_lookup_absent(inputs_view(db.inputs@), fv);
        }
        db.inputs.push((file_name, text));
        proof {
            crate::table::lemma_assoc_insert_absent(before, fv, tv);
            assert(inputs_view(db.inputs@) =~= assoc_insert(before, fv, tv));
        }
    }
    if db.revision < u64::MAX {
        db.revision = db.revision + 1;
    } else {
        // the counter cannot grow: drop the cache instead
        db.entries.clear();
    }
    Ok(())
}

/// The text of a file, if it was ever set.
pub fn get_source_file(file_name: &Vec<u8>, db: &mut Database) -> (r: Option<Vec<u8>>)
    requires
        old(db).wf(),
    ensures
        final(db).wf(),
        final(db)@.inputs == old(db)@.inputs,
        final(db)@.revision == old(db)@.revision,
        final(db)@.query_depth == old(db)@.query_depth,
        match r {
            Some(t) => sp_eval(
                SpecQueryKey::SourceFile(file_name@),
                old(db)@.inputs,
                sp_query_fuel(),
            ) == SpecValue::Text(t@),
            None => sp_eval(
                SpecQueryKey::SourceFile(file_name@),
                old(db)@.inputs,
                sp_query_fuel(),
            ) is Missing,
        },
{
    let v = db.get(&QueryKey::SourceFile(SourceFile { file_name: bytes_clone(file_name) }));
    match v {
        Value::Text(t) => Some(t),
        _ => None,
    }
}

/// Parse a file (memoized): its AST and its parse errors.
pub fn parse(file_name: &Vec<u8>, db: &mut Database) -> (r: (Program, Errors))
    requires
        old(db).wf(),
    ensures
        final(db).wf(),
        final(db)@.inputs == old(db)@.inputs,
        final(db)@.revision == old(db)@.revision,
        final(db)@.query_depth == old(db)@.query_depth,
        ({
            let pr = as_parse(
                sp_eval(SpecQueryKey::Parse(file_name@), old(db)@.inputs, sp_query_fuel()),
            );
            r.0@ == pr.ast && errs_view(r.1@) == pr.errors
        }),
{
    let v = db.get(&QueryKey::Parse(Parse { file_name: bytes_clone(file_name) }));
    let pr = take_parse(v);
    (pr.ast, pr.errors)
}

/// Enter a query scope: while the depth is positive, inputs cannot be set.
pub fn enter_query(db: &mut Database)
    requires
        old(db).wf(),
    ensures
        final(db).wf(),
        final(db)@.query_depth >= old(db)@.query_depth,
        final(db)@.inputs == old(db)@.inputs,
        final(db)@.revision == old(db)@.revision,
        old(db)@.query_depth < u32::MAX ==> final(db)@.query_depth == old(db)@.query_depth + 1,
{
    if db.query_depth < u32::MAX {
        db.query_depth = db.query_depth + 1;
    }
}

/// Leave a query scope.
pub fn exit_query(db: &mut Database)
    requires
        old(db).wf(),
    ensures
        final(db).wf(),
        final(db)@.inputs == old(db)@.inputs,
        final(db)@.revision == old(db)@.revision,
        old(db)@.query_depth > 0 ==> final(db)@.query_depth == old(db)@.query_depth - 1,
{
    if db.query_depth > 0 {
        db.query_depth = db.query_depth - 1;
    }
}

} // verus!

verus! {

impl Database {
    /// The input table, for the persistence layer.
    pub(crate) fn inputs_ref(&self) -> (r: &Vec<(Vec<u8>, Vec<u8>)>)
        ensures
            inputs_view(r@) == self@.inputs,
    {
        &self.inputs
    }

    /// The revision counter, for the persistence layer.
    pub(crate) fn revision_val(&self) -> (r: u64)
        ensures
            r == self@.revision,
    {
        self.revision
    }

    /// A database restored from persisted parts: the given inputs and
    /// revision, with a cold cache.
    pub(crate) fn from_parts(inputs: Vec<(Vec<u8>, Vec<u8>)>, revision: u64) -> (r: Database)
        ensures
            r.wf(),
            r@.inputs == inputs_view(inputs@),
            r@.revision == revision,
            r@.query_depth == 0,
            r@.log == Seq::<SpecQueryKey>::empty(),
    {
        let r = Database { inputs, entries: Vec::new(), revision, query_depth: 0, log: Vec::new() };
        proof {
            assert(r@.log =~= Seq::<SpecQueryKey>::empty());
        }
        r
    }
}

/// Re-setting a file to the very text it already holds leaves the input
/// table — and therefore, by `get`'s contract, every derived value —
/// unchanged.  (`set_source_file` leaves the whole database alone in that
/// case, so cached entries stay fresh and nothing re-executes.)
pub proof fn lemma_set_same_text_values(inputs: Seq<(Seq<u8>, Seq<u8>)>, f: Seq<u8>, t: Seq<u8>)
    requires
        assoc_lookup(inputs, f) == Some(t),
    ensures
        assoc_insert(inputs, f, t) == inputs,
        forall|k: SpecQueryKey, fuel: int|
            sp_eval(k, #[trigger] assoc_insert(inputs, f, t), fuel) == sp_eval(k, inputs, fuel),
{
    crate::table::lemma_insert_same(inputs, f, t);
}

} // verus!
