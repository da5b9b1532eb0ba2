//! Definition collection: which names a file exports, and which names are
//! visible inside it (its own definitions plus those of its imports).
//!
//! Name tables are kept strictly ordered by name, so that iterating them —
//! and therefore the order of collision diagnostics — is deterministic.

use vstd::prelude::*;

use crate::ast::{SpecStatement, TopLevelStatement};
use crate::errors::{
    bytes_clone, bytes_eq, location_copy, Error, Errors, LocationData, SpecError, SpecLocation,
};
use crate::ids::{ExprId, SpecTopLevelId, TopLevelId};
use crate::parser::{
    errs_view, ParserResult, SpecMetaData, SpecParserResult, TopLevelMetaData, SpecParser,
    start_position,
};
use crate::table::{
    assoc_lookup, bytes_less, bytes_lt, lemma_assoc_lookup_absent, lemma_assoc_lookup_at,
    lemma_smap_lower_bounds, lemma_smap_lower_char, smap_insert, smap_lower,
};

verus! {

/// What a name is bound to: the statement that defines it, and where.
pub struct DefBinding {
    pub id: TopLevelId,
    pub location: LocationData,
}

pub ghost struct SpecDefBinding {
    pub id: SpecTopLevelId,
    pub location: SpecLocation,
}

impl View for DefBinding {
    type V = SpecDefBinding;

    open spec fn view(&self) -> SpecDefBinding {
        SpecDefBinding { id: self.id@, location: self.location@ }
    }
}

/// A name table: names to bindings, strictly ordered by name.
pub type Definitions = Vec<(Vec<u8>, DefBinding)>;

/// The model of a name table.
pub open spec fn defs_view(s: Seq<(Vec<u8>, DefBinding)>) -> Seq<(Seq<u8>, SpecDefBinding)> {
    s.map_values(|p: (Vec<u8>, DefBinding)| (p.0@, p.1@))
}

/// The model of a collected import list.
pub open spec fn imports_view(s: Seq<(Vec<u8>, LocationData)>) -> Seq<(Seq<u8>, SpecLocation)> {
    s.map_values(|p: (Vec<u8>, LocationData)| (p.0@, p.1@))
}

// ---------------------------------------------------------------------------
// Metadata lookups
// ---------------------------------------------------------------------------
/// The recorded span of a statement, or an empty span at the file start.
pub open spec fn sp_meta_location(
    tld: Seq<(SpecTopLevelId, SpecMetaData)>,
    id: SpecTopLevelId,
    file: Seq<u8>,
) -> SpecLocation {
    match assoc_lookup(tld, id) {
        Some(m) => m.location,
        None => SpecLocation { file_name: file, start: start_position(), end: start_position() },
    }
}

/// The recorded span of an expression inside a statement.
pub open spec fn sp_expr_location(
    tld: Seq<(SpecTopLevelId, SpecMetaData)>,
    id: SpecTopLevelId,
    eid: ExprId,
    file: Seq<u8>,
) -> SpecLocation {
    match assoc_lookup(tld, id) {
        Some(m) => match assoc_lookup(m.expr_locations, eid) {
            Some(l) => l,
            None => SpecLocation {
                file_name: file,
                start: start_position(),
                end: start_position(),
            },
        },
        None => SpecLocation { file_name: file, start: start_position(), end: start_position() },
    }
}

/// Look up the recorded span of statement `id`.
pub fn meta_location(
    tld: &Vec<(TopLevelId, TopLevelMetaData)>,
    id: &TopLevelId,
    file: &Vec<u8>,
) -> (r: LocationData)
    ensures
        r@ == sp_meta_location(crate::parser::tld_view(tld@), id@, file@),
{
    let n = tld.len();
    let mut i: usize = 0;
    while i < n
        invariant
            n == tld@.len(),
            0 <= i <= n,
            forall|j: int| 0 <= j < i ==> (#[trigger] tld@[j]).0@ != id@,
        decreases n - i,
    {
        if tld[i].0.same_as(id) {
            proof {
                lemma_assoc_lookup_at(crate::parser::tld_view(tld@), id@, i as int);
            }
            return location_copy(&tld[i].1.location);
        }
        i = i + 1;
    }
    proof {
        lemma_assoc_lookup_absent(crate::parser::tld_view(tld@), id@);
    }
    LocationData {
        file_name: bytes_clone(file),
        start: crate::errors::Position { byte_index: 0, line_number: 1, column_number: 1 },
        end: crate::errors::Position { byte_index: 0, line_number: 1, column_number: 1 },
    }
}

/// Look up the recorded span of expression `eid` inside statement `id`.
#[verifier::loop_isolation(false)]
pub fn expr_location(
    tld: &Vec<(TopLevelId, TopLevelMetaData)>,
    id: &TopLevelId,
    eid: ExprId,
    file: &Vec<u8>,
) -> (r: LocationData)
    ensures
        r@ == sp_expr_location(crate::parser::tld_view(tld@), id@, eid, file@),
{
    let fallback = LocationData {
        file_name: bytes_clone(file),
        start: crate::errors::Position { byte_index: 0, line_number: 1, column_number: 1 },
        end: crate::errors::Position { byte_index: 0, line_number: 1, column_number: 1 },
    };
    let n = tld.len();
    let mut i: usize = 0;
    while i < n
        invariant
            n == tld@.len(),
            0 <= i <= n,
            forall|j: int| 0 <= j < i ==> (#[trigger] tld@[j]).0@ != id@,
            fallback@ == (SpecLocation {
                file_name: file@,
                start: start_position(),
                end: start_position(),
            }),
        decreases n - i,
    {
        if tld[i].0.same_as(id) {
            proof {
                lemma_assoc_lookup_at(crate::parser::tld_view(tld@), id@, i as int);
            }
            let locs = &tld[i].1.expr_locations;
            let m = locs.len();
            let mut k: usize = 0;
            while k < m
                invariant
                    m == locs@.len(),
                    0 <= k <= m,
                    forall|j: int| 0 <= j < k ==> (#[trigger] locs@[j]).0 != eid,
                decreases m - k,
            {
                if locs[k].0 == eid {
                    proof {
                        assert(crate::parser::locs_view(locs@)[k as int] == (
                            locs@[k as int].0,
                            locs@[k as int].1@,
                        ));
                        lemma_assoc_lookup_at(crate::parser::locs_view(locs@), eid, k as int);
                    }
                    return location_copy(&locs[k].1);
                }
                k = k + 1;
            }
            proof {
                lemma_assoc_lookup_absent(crate::parser::locs_view(locs@), eid);
            }
            return fallback;
        }
        i = i + 1;
    }
    proof {
        lemma_assoc_lookup_absent(crate::parser::tld_view(tld@), id@);
    }
    fallback
}

// ---------------------------------------------------------------------------
// Name tables
// ---------------------------------------------------------------------------
/// Look up a name.
pub fn defs_lookup<'a>(defs: &'a Definitions, name: &Vec<u8>) -> (r: Option<&'a DefBinding>)
    ensures
        match r {
            Some(b) => assoc_lookup(defs_view(defs@), name@) == Some(b@),
            None => assoc_lookup(defs_view(defs@), name@) is None,
        },
{
    let n = defs.len();
    let mut i: usize = 0;
    while i < n
        invariant
            n == defs@.len(),
            0 <= i <= n,
            forall|j: int| 0 <= j < i ==> (#[trigger] defs@[j]).0@ != name@,
        decreases n - i,
    {
        if bytes_eq(&defs[i].0, name) {
            proof {
                lemma_assoc_lookup_at(defs_view(defs@), name@, i as int);
            }
            return Some(&defs[i].1);
        }
        i = i + 1;
    }
    proof {
        lemma_assoc_lookup_absent(defs_view(defs@), name@);
    }
    None
}

/// Insert a name at its ordered position (used only for absent names).
pub fn defs_insert(defs: &mut Definitions, name: Vec<u8>, binding: DefBinding)
    ensures
        defs_view(final(defs)@) == smap_insert(defs_view(old(defs)@), name@, binding@),
{
    let ghost dv = defs_view(defs@);
    let n = defs.len();
    let mut i: usize = 0;
    while i < n && bytes_less(&defs[i].0, &name)
        invariant
            n == defs@.len(),
            0 <= i <= n,
            forall|j: int| 0 <= j < i ==> bytes_lt((#[trigger] defs@[j]).0@, name@),
        decreases n - i,
    {
        i = i + 1;
    }
    proof {
        assert forall|j: int| 0 <= j < i implies bytes_lt((#[trigger] dv[j]).0, name@) by {
            assert(dv[j] == (defs@[j].0@, defs@[j].1@));
        }
        if i < n {
            assert(dv[i as int] == (defs@[i as int].0@, defs@[i as int].1@));
        }
        lemma_smap_lower_char(dv, name@, i as int);
    }
    defs.insert(i, (name, binding));
    proof {
        lemma_smap_lower_bounds(dv, name@);
        assert(defs_view(defs@) =~= smap_insert(dv, name@, binding@));
    }
}

/// A fresh copy of a name table.
pub fn defs_copy(defs: &Definitions) -> (r: Definitions)
    ensures
        defs_view(r@) == defs_view(defs@),
{
    let mut r: Definitions = Vec::new();
    let n = defs.len();
    let mut i: usize = 0;
    while i < n
        invariant
            n == defs@.len(),
            0 <= i <= n,
            r@.len() == i,
            forall|j: int|
                0 <= j < i ==> (#[trigger] r@[j]).0@ == defs@[j].0@ && r@[j].1@ == defs@[j].1@,
        decreases n - i,
    {
        let b = DefBinding {
            id: defs[i].1.id.copied(),
            location: location_copy(&defs[i].1.location),
        };
        r.push((bytes_clone(&defs[i].0), b));
        i = i + 1;
    }
    proof {
        assert(defs_view(r@) =~= defs_view(defs@));
    }
    r
}

} // verus!

verus! {

// ---------------------------------------------------------------------------
// Exported definitions
// ---------------------------------------------------------------------------
/// Collect every `def` of the file, front to back; a duplicate name keeps
/// the first binding and reports `NameAlreadyInScope`.
pub open spec fn sp_exported_from(
    stmts: Seq<SpecStatement>,
    i: int,
    defs: Seq<(Seq<u8>, SpecDefBinding)>,
    errs: Seq<SpecError>,
    tld: Seq<(SpecTopLevelId, SpecMetaData)>,
    file: Seq<u8>,
) -> (Seq<(Seq<u8>, SpecDefBinding)>, Seq<SpecError>)
    decreases stmts.len() - i,
{
    if i < 0 || i >= stmts.len() {
        (defs, errs)
    } else {
        match stmts[i] {
            SpecStatement::Definition(d) => {
                match assoc_lookup(defs, d.name.name) {
                    Some(existing) => {
                        let e = SpecError::NameAlreadyInScope {
                            name: d.name.name,
                            first_location: existing.location,
                            second_location: sp_expr_location(tld, d.id, d.name.id, file),
                        };
                        sp_exported_from(stmts, i + 1, defs, errs + seq![e], tld, file)
                    },
                    None => {
                        let b = SpecDefBinding {
                            id: d.id,
                            location: sp_meta_location(tld, d.id, file),
                        };
                        sp_exported_from(
                            stmts,
                            i + 1,
                            smap_insert(defs, d.name.name, b),
                            errs,
                            tld,
                            file,
                        )
                    },
                }
            },
            _ => sp_exported_from(stmts, i + 1, defs, errs, tld, file),
        }
    }
}

/// The exported names of a file: its own `def`s, with the parse errors
/// carried along.
pub open spec fn sp_exported_definitions(pr: SpecParserResult, file: Seq<u8>) -> (
    Seq<(Seq<u8>, SpecDefBinding)>,
    Seq<SpecError>,
) {
    sp_exported_from(
        pr.ast.statements,
        0,
        Seq::empty(),
        pr.errors,
        pr.top_level_data,
        file,
    )
}

/// Collect only the exported definitions within a file: every top level
/// `def`, except imported names.
#[verifier::loop_isolation(false)]
pub fn exported_definitions_impl(parse: &ParserResult, file: &Vec<u8>) -> (r: (Definitions, Errors))
    ensures
        defs_view(r.0@) == sp_exported_definitions(parse@, file@).0,
        errs_view(r.1@) == sp_exported_definitions(parse@, file@).1,
{
    let ghost target = sp_exported_definitions(parse@, file@);
    let mut defs: Definitions = Vec::new();
    let mut errors: Errors = crate::errors::errors_copy(&parse.errors);
    let n = parse.ast.statements.len();
    let mut i: usize = 0;
    proof {
        assert(defs_view(defs@) =~= Seq::<(Seq<u8>, SpecDefBinding)>::empty());
        assert(parse@.ast.statements.len() == n);
    }
    while i < n
        invariant
            n == parse.ast.statements@.len(),
            0 <= i <= n,
            target == sp_exported_from(
                parse@.ast.statements,
                i as int,
                defs_view(defs@),
                errs_view(errors@),
                parse@.top_level_data,
                file@,
            ),
        decreases n - i,
    {
        let ghost pre_defs = defs_view(defs@);
        let ghost pre_errs = errs_view(errors@);
        proof {
            assert(parse@.ast.statements[i as int] == parse.ast.statements@[i as int]@);
        }
        match &parse.ast.statements[i] {
            TopLevelStatement::Definition(d) => {
                match defs_lookup(&defs, &d.name.name) {
                    Some(existing) => {
                        let e = Error::NameAlreadyInScope {
                            name: bytes_clone(&d.name.name),
                            first_location: location_copy(&existing.location),
                            second_location: expr_location(
                                &parse.top_level_data,
                                &d.id,
                                d.name.id,
                                file,
                            ),
                        };
                        errors.push(e);
                        proof {
                            assert(errs_view(errors@) =~= pre_errs + seq![e@]);
                        }
                    },
                    None => {
                        let b = DefBinding {
                            id: d.id.copied(),
                            location: meta_location(&parse.top_level_data, &d.id, file),
                        };
                        defs_insert(&mut defs, bytes_clone(&d.name.name), b);
                    },
                }
            },
            _ => {},
        }
        i = i + 1;
    }
    (defs, errors)
}

// ---------------------------------------------------------------------------
// Imports of a file
// ---------------------------------------------------------------------------
pub open spec fn sp_imports_from(
    stmts: Seq<SpecStatement>,
    i: int,
    acc: Seq<(Seq<u8>, SpecLocation)>,
    tld: Seq<(SpecTopLevelId, SpecMetaData)>,
    file: Seq<u8>,
) -> Seq<(Seq<u8>, SpecLocation)>
    decreases stmts.len() - i,
{
    if i < 0 || i >= stmts.len() {
        acc
    } else {
        match stmts[i] {
            SpecStatement::Import { file_name, id } => sp_imports_from(
                stmts,
                i + 1,
                acc + seq![(file_name.name, sp_meta_location(tld, id, file))],
                tld,
                file,
            ),
            _ => sp_imports_from(stmts, i + 1, acc, tld, file),
        }
    }
}

/// The imported file names of a file, each with the import's location.
/// Duplicates are kept; the crawler deduplicates by file.
pub open spec fn sp_get_imports(pr: SpecParserResult, file: Seq<u8>) -> Seq<(Seq<u8>, SpecLocation)> {
    sp_imports_from(pr.ast.statements, 0, Seq::empty(), pr.top_level_data, file)
}

/// Collects the file names of all imports within this file.
#[verifier::loop_isolation(false)]
pub fn get_imports_impl(parse: &ParserResult, file: &Vec<u8>) -> (r: Vec<(Vec<u8>, LocationData)>)
    ensures
        imports_view(r@) == sp_get_imports(parse@, file@),
{
    let ghost target = sp_get_imports(parse@, file@);
    let mut imports: Vec<(Vec<u8>, LocationData)> = Vec::new();
    let n = parse.ast.statements.len();
    let mut i: usize = 0;
    proof {
        assert(imports_view(imports@) =~= Seq::<(Seq<u8>, SpecLocation)>::empty());
    }
    while i < n
        invariant
            n == parse.ast.statements@.len(),
            0 <= i <= n,
            target == sp_imports_from(
                parse@.ast.statements,
                i as int,
                imports_view(imports@),
                parse@.top_level_data,
                file@,
            ),
        decreases n - i,
    {
        let ghost pre = imports_view(imports@);
        proof {
            assert(parse@.ast.statements[i as int] == parse.ast.statements@[i as int]@);
        }
        match &parse.ast.statements[i] {
            TopLevelStatement::Import { file_name, id } => {
                let loc = meta_location(&parse.top_level_data, id, file);
                imports.push((bytes_clone(&file_name.name), loc));
                proof {
                    assert(imports_view(imports@) =~= pre + seq![
                        (
                            file_name.name@,
                            sp_meta_location(parse@.top_level_data, id@, file@),
                        ),
                    ]);
                }
            },
            _ => {},
        }
        i = i + 1;
    }
    imports
}

// ---------------------------------------------------------------------------
// Visible definitions
// ---------------------------------------------------------------------------
/// Merge one imported file's exports into the visible table: a colliding
/// name keeps the existing binding and reports `ImportedNameAlreadyInScope`.
pub open spec fn sp_merge_exports(
    exports: Seq<(Seq<u8>, SpecDefBinding)>,
    j: int,
    defs: Seq<(Seq<u8>, SpecDefBinding)>,
    errs: Seq<SpecError>,
    import_loc: SpecLocation,
) -> (Seq<(Seq<u8>, SpecDefBinding)>, Seq<SpecError>)
    decreases exports.len() - j,
{
    if j < 0 || j >= exports.len() {
        (defs, errs)
    } else {
        let (name, binding) = exports[j];
        match assoc_lookup(defs, name) {
            Some(existing) => {
                let e = SpecError::ImportedNameAlreadyInScope {
                    name: name,
                    first_location: existing.location,
                    second_location: import_loc,
                };
                sp_merge_exports(exports, j + 1, defs, errs + seq![e], import_loc)
            },
            None => sp_merge_exports(
                exports,
                j + 1,
                smap_insert(defs, name, binding),
                errs,
                import_loc,
            ),
        }
    }
}

/// Fold every import statement's exports into the table, in file order.
pub open spec fn sp_visible_from(
    stmts: Seq<SpecStatement>,
    i: int,
    k: int,
    imported: Seq<(Seq<(Seq<u8>, SpecDefBinding)>, Seq<SpecError>)>,
    defs: Seq<(Seq<u8>, SpecDefBinding)>,
    errs: Seq<SpecError>,
    tld: Seq<(SpecTopLevelId, SpecMetaData)>,
    file: Seq<u8>,
) -> (Seq<(Seq<u8>, SpecDefBinding)>, Seq<SpecError>)
    decreases stmts.len() - i,
{
    if i < 0 || i >= stmts.len() {
        (defs, errs)
    } else {
        match stmts[i] {
            SpecStatement::Import { file_name, id } => {
                let (exports, more) = if 0 <= k < imported.len() {
                    imported[k]
                } else {
                    (Seq::empty(), Seq::empty())
                };
                let import_loc = sp_meta_location(tld, id, file);
                let (defs2, errs2) = sp_merge_exports(exports, 0, defs, errs + more, import_loc);
                sp_visible_from(stmts, i + 1, k + 1, imported, defs2, errs2, tld, file)
            },
            _ => sp_visible_from(stmts, i + 1, k, imported, defs, errs, tld, file),
        }
    }
}

/// The names visible in a file: its own exports plus those of its imports,
/// collisions reporting `ImportedNameAlreadyInScope`.
pub open spec fn sp_visible_definitions(
    pr: SpecParserResult,
    own: (Seq<(Seq<u8>, SpecDefBinding)>, Seq<SpecError>),
    imported: Seq<(Seq<(Seq<u8>, SpecDefBinding)>, Seq<SpecError>)>,
    file: Seq<u8>,
) -> (Seq<(Seq<u8>, SpecDefBinding)>, Seq<SpecError>) {
    sp_visible_from(pr.ast.statements, 0, 0, imported, own.0, own.1, pr.top_level_data, file)
}

/// The model of a list of fetched exports.
pub open spec fn fetched_view(s: Seq<(Definitions, Errors)>) -> Seq<
    (Seq<(Seq<u8>, SpecDefBinding)>, Seq<SpecError>),
> {
    s.map_values(|p: (Definitions, Errors)| (defs_view(p.0@), errs_view(p.1@)))
}

/// Collect all definitions visible to expressions in this file: its own
/// exported definitions and those of every file it imports.  `imported`
/// holds the exports of each `import` statement, in file order.
#[verifier::loop_isolation(false)]
pub fn visible_definitions_impl(
    parse: &ParserResult,
    own: &(Definitions, Errors),
    imported: &Vec<(Definitions, Errors)>,
    file: &Vec<u8>,
) -> (r: (Definitions, Errors))
    ensures
        defs_view(r.0@) == sp_visible_definitions(
            parse@,
            (defs_view(own.0@), errs_view(own.1@)),
            fetched_view(imported@),
            file@,
        ).0,
        errs_view(r.1@) == sp_visible_definitions(
            parse@,
            (defs_view(own.0@), errs_view(own.1@)),
            fetched_view(imported@),
            file@,
        ).1,
{
    let ghost target = sp_visible_definitions(
        parse@,
        (defs_view(own.0@), errs_view(own.1@)),
        fetched_view(imported@),
        file@,
    );
    let mut defs: Definitions = defs_copy(&own.0);
    let mut errors: Errors = crate::errors::errors_copy(&own.1);
    let n = parse.ast.statements.len();
    let mut i: usize = 0;
    let mut k: usize = 0;
    while i < n
        invariant
            n == parse.ast.statements@.len(),
            0 <= i <= n,
            k <= i,
            target == sp_visible_from(
                parse@.ast.statements,
                i as int,
                k as int,
                fetched_view(imported@),
                defs_view(defs@),
                errs_view(errors@),
                parse@.top_level_data,
                file@,
            ),
        decreases n - i,
    {
        let ghost pre_defs = defs_view(defs@);
        let ghost pre_errs = errs_view(errors@);
        proof {
            assert(parse@.ast.statements[i as int] == parse.ast.statements@[i as int]@);
        }
        match &parse.ast.statements[i] {
            TopLevelStatement::Import { file_name, id } => {
                let import_loc = meta_location(&parse.top_level_data, id, file);
                let have_fetched = k < imported.len();
                let ghost fetched = if 0 <= k < fetched_view(imported@).len() {
                    fetched_view(imported@)[k as int]
                } else {
                    (Seq::<(Seq<u8>, SpecDefBinding)>::empty(), Seq::<SpecError>::empty())
                };
                // carry the imported file's own errors along
                if have_fetched {
                    proof {
                        assert(fetched_view(imported@)[k as int] == (
                            defs_view(imported@[k as int].0@),
                            errs_view(imported@[k as int].1@),
                        ));
                    }
                    let more = crate::errors::errors_copy(&imported[k].1);
                    let mm = more.len();
                    let mut q: usize = 0;
                    while q < mm
                        invariant
                            mm == more@.len(),
                            0 <= q <= mm,
                            errs_view(errors@) =~= pre_errs + errs_view(more@).subrange(
                                0,
                                q as int,
                            ),
                        decreases mm - q,
                    {
                        let ghost e_prev = errs_view(errors@);
                        let copied = crate::errors::error_copy(&more[q]);
                        let ghost cv = copied@;
                        errors.push(copied);
                        proof {
                            assert(errs_view(more@)[q as int] == more@[q as int]@);
                            assert(errs_view(errors@) =~= e_prev + seq![cv]);
                            assert(errs_view(more@).subrange(0, q + 1) =~= errs_view(
                                more@,
                            ).subrange(0, q as int) + seq![cv]);
                            assert(errs_view(errors@) =~= pre_errs + errs_view(more@).subrange(
                                0,
                                q + 1,
                            ));
                        }
                        q = q + 1;
                    }
                    proof {
                        assert(errs_view(more@).subrange(0, mm as int) =~= errs_view(more@));
                        assert(errs_view(errors@) =~= pre_errs + fetched.1);
                    }
                } else {
                    proof {
                        assert(fetched.1 =~= Seq::<SpecError>::empty());
                        assert(errs_view(errors@) =~= pre_errs + fetched.1);
                    }
                }
                let ghost errs_after = errs_view(errors@);
                // merge the exports, front to back
                let ghost exports = fetched.0;
                let en = if have_fetched {
                    imported[k].0.len()
                } else {
                    0
                };
                let mut j: usize = 0;
                proof {
                    if have_fetched {
                        assert(exports =~= defs_view(imported@[k as int].0@));
                    } else {
                        assert(exports =~= Seq::<(Seq<u8>, SpecDefBinding)>::empty());
                    }
                    assert(en == exports.len());
                }
                while j < en
                    invariant
                        en == exports.len(),
                        0 <= j <= en,
                        have_fetched ==> k < imported@.len() && exports == defs_view(
                            imported@[k as int].0@,
                        ),
                        !have_fetched ==> en == 0,
                        sp_merge_exports(exports, j as int, defs_view(defs@), errs_view(errors@), import_loc@)
                            == sp_merge_exports(exports, 0, pre_defs, errs_after, import_loc@),
                    decreases en - j,
                {
                    let ghost d0 = defs_view(defs@);
                    let ghost e0 = errs_view(errors@);
                    proof {
                        assert(exports[j as int] == (
                            imported@[k as int].0@[j as int].0@,
                            imported@[k as int].0@[j as int].1@,
                        ));
                    }
                    let export_name = &imported[k].0[j].0;
                    let export_binding = &imported[k].0[j].1;
                    match defs_lookup(&defs, export_name) {
                        Some(existing) => {
                            let e = Error::ImportedNameAlreadyInScope {
                                name: bytes_clone(export_name),
                                first_location: location_copy(&existing.location),
                                second_location: location_copy(&import_loc),
                            };
                            errors.push(e);
                            proof {
                                assert(errs_view(errors@) =~= e0 + seq![e@]);
                            }
                        },
                        None => {
                            let b = DefBinding {
                                id: export_binding.id.copied(),
                                location: location_copy(&export_binding.location),
                            };
                            defs_insert(&mut defs, bytes_clone(export_name), b);
                        },
                    }
                    j = j + 1;
                }
                k = k + 1;
            },
            _ => {},
        }
        i = i + 1;
    }
    (defs, errors)
}

} // verus!
