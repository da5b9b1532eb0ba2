//! The import crawl: discover every file the entry file reaches through
//! `import` statements, feeding each one's text into the database as it is
//! found.
//!
//! Inputs must not move while a query runs, so the crawl works in rounds:
//! it asks the database for a file's imports only after setting that file's
//! text.  The caller owns the file reads: texts are handed in as a table,
//! and when the crawl meets a file the table does not hold, it stops and
//! names it, to be called again with the table extended.  A file the caller
//! could not read is recorded as empty text with an `UnknownImportFile`
//! diagnostic, so one missing file never stops the rest of the program from
//! being checked.
//!
//! The crawl is proved to terminate on every table — import cycles simply
//! find their files already done — and to return exactly the
//! transitive-import closure of the entry: every import of a discovered
//! file is itself discovered, and every discovered file is reached from
//! the entry by a chain of imports.

use vstd::prelude::*;

use crate::errors::{bytes_clone, bytes_eq, location_copy, Error, Errors, LocationData, Position, SpecError, SpecLocation};
use crate::incremental::{
    as_parse, set_source_file, sp_eval, sp_query_fuel, Database, GetImports, QueryKey, SpecQueryKey,
    SpecValue, Value,
};
use crate::table::{assoc_lookup, lemma_assoc_lookup_absent, lemma_assoc_lookup_at, lemma_insert_lookup, lemma_insert_other};

verus! {

/// One round of the crawl.
pub enum CrawlResult {
    /// Every reachable file is known: the discovered files, and a
    /// diagnostic for each one whose text could not be read.
    Done(Vec<Vec<u8>>, Errors),
    /// The crawl reached a file the read table does not hold: read it and
    /// call again with the table extended.
    NeedFile(Vec<u8>),
}

/// The model of a list of file names.
pub open spec fn names_view(s: Seq<Vec<u8>>) -> Seq<Seq<u8>> {
    s.map_values(|n: Vec<u8>| n@)
}

/// The model of the caller's read table: file name to text, or `None` for
/// a file that could not be read.
pub open spec fn disk_view(s: Seq<(Vec<u8>, Option<Vec<u8>>)>) -> Seq<(Seq<u8>, Option<Seq<u8>>)> {
    s.map_values(
        |p: (Vec<u8>, Option<Vec<u8>>)|
            (
                p.0@,
                match p.1 {
                    Some(t) => Some(t@),
                    None => None,
                },
            ),
    )
}

pub open spec fn names_contains(s: Seq<Seq<u8>>, x: Seq<u8>) -> bool {
    exists|i: int| 0 <= i < s.len() && s[i] == x
}

/// The names a queue of pending imports holds.
pub open spec fn queue_names(q: Seq<(Vec<u8>, LocationData)>) -> Seq<Seq<u8>> {
    q.map_values(|p: (Vec<u8>, LocationData)| p.0@)
}

/// The imports of file `f` under the given inputs, as the import query
/// reports them.  Opaque: proofs reason about it through
/// [`lemma_imports_frame`] and [`lemma_get_imports_eval`].
#[verifier::opaque]
pub open spec fn sp_imports_of(f: Seq<u8>, inputs: Seq<(Seq<u8>, Seq<u8>)>) -> Seq<(Seq<u8>, SpecLocation)> {
    crate::definition_collection::sp_get_imports(
        as_parse(sp_eval(SpecQueryKey::Parse(f), inputs, sp_query_fuel())),
        f,
    )
}

/// A set of files closed under imports: whatever a member imports is a
/// member.
pub open spec fn sp_import_closed(done: Seq<Seq<u8>>, inputs: Seq<(Seq<u8>, Seq<u8>)>) -> bool {
    forall|i: int, j: int|
        #![trigger sp_imports_of(done[i], inputs)[j]]
        0 <= i < done.len() && 0 <= j < sp_imports_of(done[i], inputs).len()
            ==> names_contains(done, sp_imports_of(done[i], inputs)[j].0)
}

/// A file's imports depend only on that file's own text.
pub proof fn lemma_imports_frame(
    f: Seq<u8>,
    inputs1: Seq<(Seq<u8>, Seq<u8>)>,
    inputs2: Seq<(Seq<u8>, Seq<u8>)>,
)
    requires
        assoc_lookup(inputs1, f) == assoc_lookup(inputs2, f),
    ensures
        sp_imports_of(f, inputs1) == sp_imports_of(f, inputs2),
{
    reveal(sp_imports_of);
    assert(sp_eval(SpecQueryKey::SourceFile(f), inputs1, sp_query_fuel()) == sp_eval(
        SpecQueryKey::SourceFile(f),
        inputs2,
        sp_query_fuel(),
    ));
    assert(sp_eval(SpecQueryKey::Parse(f), inputs1, sp_query_fuel()) == sp_eval(
        SpecQueryKey::Parse(f),
        inputs2,
        sp_query_fuel(),
    ));
}

/// What the import query evaluates to: the imports the crawl enqueues.
pub proof fn lemma_get_imports_eval(f: Seq<u8>, inputs: Seq<(Seq<u8>, Seq<u8>)>)
    ensures
        sp_eval(SpecQueryKey::GetImports(f), inputs, sp_query_fuel()) == SpecValue::Imports(
            sp_imports_of(f, inputs),
        ),
{
    reveal(sp_imports_of);
}

/// A chain of imports: it starts at `entry`, and each later file is an
/// import of the one before it, under the given inputs.
pub open spec fn sp_import_path(
    p: Seq<Seq<u8>>,
    entry: Seq<u8>,
    inputs: Seq<(Seq<u8>, Seq<u8>)>,
) -> bool {
    p.len() >= 1 && p[0] == entry && forall|i: int|
        0 <= i < p.len() - 1 ==> exists|j: int|
            0 <= j < sp_imports_of(#[trigger] p[i], inputs).len() && sp_imports_of(p[i], inputs)[j].0
                == p[i + 1]
}

/// `f` lies in the transitive-import closure of `entry`.
pub open spec fn sp_import_reachable(
    f: Seq<u8>,
    entry: Seq<u8>,
    inputs: Seq<(Seq<u8>, Seq<u8>)>,
) -> bool {
    exists|p: Seq<Seq<u8>>| sp_import_path(p, entry, inputs) && p[p.len() - 1] == f
}

/// Every file a chain passes through (all but its last) is in `done`.
pub open spec fn sp_path_through(p: Seq<Seq<u8>>, done: Seq<Seq<u8>>) -> bool {
    forall|i: int| 0 <= i < p.len() - 1 ==> names_contains(done, #[trigger] p[i])
}

/// Reachable from `entry` by a chain that passes only through `done`.
pub open spec fn sp_reach_via(
    f: Seq<u8>,
    entry: Seq<u8>,
    done: Seq<Seq<u8>>,
    inputs: Seq<(Seq<u8>, Seq<u8>)>,
) -> bool {
    exists|p: Seq<Seq<u8>>|
        sp_import_path(p, entry, inputs) && p[p.len() - 1] == f && sp_path_through(p, done)
}

/// The text the crawl feeds the database for a file: what the read table
/// holds, or empty when the read failed or the file is not in the table.
pub open spec fn sp_disk_text(d: Seq<(Seq<u8>, Option<Seq<u8>>)>, f: Seq<u8>) -> Seq<u8> {
    match assoc_lookup(d, f) {
        Some(Some(t)) => t,
        _ => Seq::empty(),
    }
}

/// Whether a crawl diagnostic names file `f` as unreadable.
pub open spec fn sp_error_names(e: SpecError, f: Seq<u8>) -> bool {
    match e {
        SpecError::UnknownImportFile { file_name, location } => file_name == f,
        _ => false,
    }
}

/// A chain through files whose texts did not move survives an input change.
#[verifier::rlimit(100)]
pub proof fn lemma_reach_via_frame(
    f: Seq<u8>,
    entry: Seq<u8>,
    done: Seq<Seq<u8>>,
    inputs1: Seq<(Seq<u8>, Seq<u8>)>,
    inputs2: Seq<(Seq<u8>, Seq<u8>)>,
)
    requires
        sp_reach_via(f, entry, done, inputs1),
        forall|x: int|
            0 <= x < done.len() ==> assoc_lookup(inputs2, #[trigger] done[x]) == assoc_lookup(
                inputs1,
                done[x],
            ),
    ensures
        sp_reach_via(f, entry, done, inputs2),
{
    let p = choose|p: Seq<Seq<u8>>|
        sp_import_path(p, entry, inputs1) && p[p.len() - 1] == f && sp_path_through(p, done);
    assert forall|i: int| 0 <= i < p.len() - 1 implies exists|j: int|
        0 <= j < sp_imports_of(#[trigger] p[i], inputs2).len() && sp_imports_of(p[i], inputs2)[j].0
            == p[i + 1] by {
        assert(names_contains(done, p[i]));
        let x = choose|x: int| 0 <= x < done.len() && done[x] == p[i];
        assert(assoc_lookup(inputs2, done[x]) == assoc_lookup(inputs1, done[x]));
        lemma_imports_frame(p[i], inputs1, inputs2);
        let j = choose|j: int|
            0 <= j < sp_imports_of(p[i], inputs1).len() && sp_imports_of(p[i], inputs1)[j].0 == p[i
                + 1];
        assert(sp_imports_of(p[i], inputs2)[j].0 == p[i + 1]);
    }
    assert(sp_import_path(p, entry, inputs2));
}

/// Growing the discovered set keeps every chain through it.
pub proof fn lemma_reach_via_grow(
    f: Seq<u8>,
    entry: Seq<u8>,
    done: Seq<Seq<u8>>,
    g: Seq<u8>,
    inputs: Seq<(Seq<u8>, Seq<u8>)>,
)
    requires
        sp_reach_via(f, entry, done, inputs),
    ensures
        sp_reach_via(f, entry, done.push(g), inputs),
{
    let p = choose|p: Seq<Seq<u8>>|
        sp_import_path(p, entry, inputs) && p[p.len() - 1] == f && sp_path_through(p, done);
    assert forall|i: int| 0 <= i < p.len() - 1 implies names_contains(done.push(g), #[trigger] p[i]) by {
        lemma_contains_push(done, g, p[i]);
    }
    assert(sp_path_through(p, done.push(g)));
}

/// One more import step extends a chain whose end is discovered.
#[verifier::rlimit(100)]
pub proof fn lemma_reach_via_step(
    f: Seq<u8>,
    g: Seq<u8>,
    entry: Seq<u8>,
    done: Seq<Seq<u8>>,
    inputs: Seq<(Seq<u8>, Seq<u8>)>,
)
    requires
        sp_reach_via(f, entry, done, inputs),
        names_contains(done, f),
        exists|j: int|
            0 <= j < sp_imports_of(f, inputs).len() && sp_imports_of(f, inputs)[j].0 == g,
    ensures
        sp_reach_via(g, entry, done, inputs),
{
    let p = choose|p: Seq<Seq<u8>>|
        sp_import_path(p, entry, inputs) && p[p.len() - 1] == f && sp_path_through(p, done);
    let q = p.push(g);
    assert(q[q.len() - 1] == g);
    assert(q[0] == p[0]);
    assert forall|i: int| 0 <= i < q.len() - 1 implies exists|j: int|
        0 <= j < sp_imports_of(#[trigger] q[i], inputs).len() && sp_imports_of(q[i], inputs)[j].0
            == q[i + 1] by {
        if i < p.len() - 1 {
            assert(q[i] == p[i] && q[i + 1] == p[i + 1]);
        } else {
            assert(q[i] == p[p.len() - 1] && q[i + 1] == g);
        }
    }
    assert forall|i: int| 0 <= i < q.len() - 1 implies names_contains(done, #[trigger] q[i]) by {
        if i < p.len() - 1 {
            assert(q[i] == p[i]);
        } else {
            assert(q[i] == f);
        }
    }
    assert(sp_import_path(q, entry, inputs));
    assert(sp_path_through(q, done));
}

/// A chain through the discovered set is in particular a chain.
pub proof fn lemma_reach_via_reachable(
    f: Seq<u8>,
    entry: Seq<u8>,
    done: Seq<Seq<u8>>,
    inputs: Seq<(Seq<u8>, Seq<u8>)>,
)
    requires
        sp_reach_via(f, entry, done, inputs),
    ensures
        sp_import_reachable(f, entry, inputs),
{
    let p = choose|p: Seq<Seq<u8>>|
        sp_import_path(p, entry, inputs) && p[p.len() - 1] == f && sp_path_through(p, done);
    assert(sp_import_path(p, entry, inputs) && p[p.len() - 1] == f);
}

pub proof fn lemma_contains_push(done: Seq<Seq<u8>>, g: Seq<u8>, k: Seq<u8>)
    ensures
        names_contains(done.push(g), k) <==> (names_contains(done, k) || k == g),
{
    if names_contains(done.push(g), k) {
        let i = choose|i: int| 0 <= i < done.push(g).len() && done.push(g)[i] == k;
        if i < done.len() {
            assert(done[i] == k);
        }
    }
    if names_contains(done, k) {
        let i = choose|i: int| 0 <= i < done.len() && done[i] == k;
        assert(done.push(g)[i] == k);
    }
    if k == g {
        assert(done.push(g)[done.len() as int] == k);
    }
}

/// How many table entries name a file not yet discovered; the crawl's
/// termination measure.
pub open spec fn sp_remaining(d: Seq<(Seq<u8>, Option<Seq<u8>>)>, done: Seq<Seq<u8>>) -> int
    decreases d.len(),
{
    if d.len() == 0 {
        0
    } else {
        (if names_contains(done, d[0].0) {
            0int
        } else {
            1int
        }) + sp_remaining(d.drop_first(), done)
    }
}

pub proof fn lemma_remaining_nonneg(d: Seq<(Seq<u8>, Option<Seq<u8>>)>, done: Seq<Seq<u8>>)
    ensures
        sp_remaining(d, done) >= 0,
    decreases d.len(),
{
    if d.len() > 0 {
        lemma_remaining_nonneg(d.drop_first(), done);
    }
}

pub proof fn lemma_remaining_mono(d: Seq<(Seq<u8>, Option<Seq<u8>>)>, done: Seq<Seq<u8>>, g: Seq<u8>)
    ensures
        sp_remaining(d, done.push(g)) <= sp_remaining(d, done),
    decreases d.len(),
{
    if d.len() > 0 {
        lemma_contains_push(done, g, d[0].0);
        lemma_remaining_mono(d.drop_first(), done, g);
    }
}

/// Discovering a file the table names strictly shrinks the measure.
pub proof fn lemma_remaining_push(
    d: Seq<(Seq<u8>, Option<Seq<u8>>)>,
    done: Seq<Seq<u8>>,
    g: Seq<u8>,
)
    requires
        !names_contains(done, g),
        exists|i: int| 0 <= i < d.len() && (#[trigger] d[i]).0 == g,
    ensures
        sp_remaining(d, done.push(g)) < sp_remaining(d, done),
    decreases d.len(),
{
    assert(d.len() > 0) by {
        let i = choose|i: int| 0 <= i < d.len() && (#[trigger] d[i]).0 == g;
    }
    lemma_contains_push(done, g, d[0].0);
    if d[0].0 == g {
        lemma_remaining_mono(d.drop_first(), done, g);
        lemma_remaining_nonneg(d.drop_first(), done);
    } else {
        let i = choose|i: int| 0 <= i < d.len() && (#[trigger] d[i]).0 == g;
        assert(d.drop_first()[i - 1].0 == g);
        lemma_remaining_push(d.drop_first(), done, g);
    }
}

/// Crawl the import graph from `entry`, using `disk` as the table of file
/// texts the caller has read so far (`None`: the read failed).  On `Done`,
/// the discovered set is exactly the transitive-import closure of the
/// entry: it contains the entry, is closed under imports, holds only files
/// reachable from the entry by a chain of imports, and names no file
/// twice; every discovered file's text stands in the database (the table's
/// text, or empty where the read failed), and the diagnostics name the
/// unreadable discovered files, one each, and nothing else.  Import cycles
/// terminate: a file already discovered is never processed again.  On
/// `NeedFile`, the named file is absent from the table, is reachable from
/// the entry, and is the entry itself or an import of a file the table
/// already holds; the caller reads it and calls again.
#[verifier::loop_isolation(false)]
#[verifier::rlimit(100)]
pub fn collect_all_changed_files(
    entry: &Vec<u8>,
    disk: &Vec<(Vec<u8>, Option<Vec<u8>>)>,
    db: &mut Database,
) -> (r: CrawlResult)
    requires
        old(db).wf(),
        old(db)@.query_depth == 0,
    ensures
        final(db).wf(),
        final(db)@.query_depth == 0,
        match r {
            CrawlResult::Done(done, errors) => names_contains(names_view(done@), entry@)
                && sp_import_closed(names_view(done@), final(db)@.inputs) && (forall|i: int|
                0 <= i < names_view(done@).len() ==> sp_import_reachable(
                    #[trigger] names_view(done@)[i],
                    entry@,
                    final(db)@.inputs,
                )) && (forall|i: int, j: int|
                0 <= i < j < names_view(done@).len() ==> names_view(done@)[i] != names_view(
                    done@,
                )[j]) && (forall|i: int|
                0 <= i < names_view(done@).len() ==> assoc_lookup(
                    final(db)@.inputs,
                    #[trigger] names_view(done@)[i],
                ) == Some(sp_disk_text(disk_view(disk@), names_view(done@)[i]))) && (forall|i: int|
                0 <= i < names_view(done@).len() && assoc_lookup(
                    disk_view(disk@),
                    #[trigger] names_view(done@)[i],
                ) == Some(Option::<Seq<u8>>::None) ==> exists|k: int|
                    0 <= k < errors@.len() && sp_error_names(
                        #[trigger] errors@[k]@,
                        names_view(done@)[i],
                    )) && (forall|k: int|
                0 <= k < errors@.len() ==> match (#[trigger] errors@[k])@ {
                    SpecError::UnknownImportFile { file_name, location } => names_contains(
                        names_view(done@),
                        file_name,
                    ) && assoc_lookup(disk_view(disk@), file_name) == Some(
                        Option::<Seq<u8>>::None,
                    ),
                    _ => false,
                }) && (forall|k1: int, k2: int, f: Seq<u8>|
                0 <= k1 < k2 < errors@.len() && #[trigger] sp_error_names(errors@[k1]@, f)
                    ==> !(#[trigger] sp_error_names(errors@[k2]@, f))),
            CrawlResult::NeedFile(f) => assoc_lookup(disk_view(disk@), f@) is None
                && sp_import_reachable(f@, entry@, final(db)@.inputs) && (f@ == entry@ || exists|
                g: Seq<u8>,
                j: int,
            |
                assoc_lookup(disk_view(disk@), g) is Some && 0 <= j < sp_imports_of(
                    g,
                    final(db)@.inputs,
                ).len() && sp_imports_of(g, final(db)@.inputs)[j].0 == f@),
        },
{
    let mut done: Vec<Vec<u8>> = Vec::new();
    let mut queue: Vec<(Vec<u8>, LocationData)> = Vec::new();
    let mut errors: Errors = Vec::new();
    let position = Position { byte_index: 0, line_number: 1, column_number: 1 };
    let entry_location = LocationData {
        file_name: bytes_clone(entry),
        start: position,
        end: position,
    };
    queue.push((bytes_clone(entry), entry_location));
    proof {
        lemma_remaining_nonneg(disk_view(disk@), names_view(done@));
        assert(queue_names(queue@) =~= seq![entry@]);
        assert(names_contains(queue_names(queue@), entry@)) by {
            assert(queue_names(queue@)[0] == entry@);
        }
        // the entry reaches itself by the one-file chain
        let p0 = seq![entry@];
        assert(p0[0] == entry@ && p0[p0.len() - 1] == entry@);
        assert(sp_import_path(p0, entry@, db@.inputs));
        assert(sp_path_through(p0, names_view(done@)));
        assert(sp_reach_via(entry@, entry@, names_view(done@), db@.inputs));
    }
    while queue.len() > 0
        invariant
            db.wf(),
            db@.query_depth == 0,
            sp_remaining(disk_view(disk@), names_view(done@)) >= 0,
            names_contains(names_view(done@), entry@) || names_contains(
                queue_names(queue@),
                entry@,
            ),
            forall|i: int, j: int|
                #![trigger sp_imports_of(names_view(done@)[i], db@.inputs)[j]]
                0 <= i < names_view(done@).len() && 0 <= j < sp_imports_of(
                    names_view(done@)[i],
                    db@.inputs,
                ).len() ==> names_contains(
                    names_view(done@),
                    sp_imports_of(names_view(done@)[i], db@.inputs)[j].0,
                ) || names_contains(
                    queue_names(queue@),
                    sp_imports_of(names_view(done@)[i], db@.inputs)[j].0,
                ),
            forall|k: int|
                0 <= k < errors@.len() ==> match (#[trigger] errors@[k])@ {
                    SpecError::UnknownImportFile { file_name, location } => names_contains(
                        names_view(done@),
                        file_name,
                    ) && assoc_lookup(disk_view(disk@), file_name) == Some(
                        Option::<Seq<u8>>::None,
                    ),
                    _ => false,
                },
            // every discovered file stands in the read table
            forall|i: int|
                0 <= i < names_view(done@).len() ==> assoc_lookup(
                    disk_view(disk@),
                    #[trigger] names_view(done@)[i],
                ) is Some,
            // no file is discovered twice
            forall|i: int, j: int|
                0 <= i < j < names_view(done@).len() ==> names_view(done@)[i] != names_view(
                    done@,
                )[j],
            // every discovered file's text is in place
            forall|i: int|
                0 <= i < names_view(done@).len() ==> assoc_lookup(
                    db@.inputs,
                    #[trigger] names_view(done@)[i],
                ) == Some(sp_disk_text(disk_view(disk@), names_view(done@)[i])),
            // discovered and pending files are reached through discovered ones
            forall|i: int|
                0 <= i < names_view(done@).len() ==> sp_reach_via(
                    #[trigger] names_view(done@)[i],
                    entry@,
                    names_view(done@),
                    db@.inputs,
                ),
            forall|i: int|
                0 <= i < queue_names(queue@).len() ==> sp_reach_via(
                    #[trigger] queue_names(queue@)[i],
                    entry@,
                    names_view(done@),
                    db@.inputs,
                ),
            // an unreadable discovered file has its diagnostic
            forall|i: int|
                0 <= i < names_view(done@).len() && assoc_lookup(
                    disk_view(disk@),
                    #[trigger] names_view(done@)[i],
                ) == Some(Option::<Seq<u8>>::None) ==> exists|k: int|
                    0 <= k < errors@.len() && sp_error_names(
                        #[trigger] errors@[k]@,
                        names_view(done@)[i],
                    ),
            // no two diagnostics name the same file
            forall|k1: int, k2: int, f: Seq<u8>|
                0 <= k1 < k2 < errors@.len() && #[trigger] sp_error_names(errors@[k1]@, f)
                    ==> !(#[trigger] sp_error_names(errors@[k2]@, f)),
        decreases sp_remaining(disk_view(disk@), names_view(done@)), queue@.len(),
    {
        let ghost old_queue = queue@;
        let ghost old_done = names_view(done@);
        let ghost old_inputs = db@.inputs;
        let (file, location) = match queue.pop() {
            Some(p) => p,
            None => {
                proof {
                    assert(false);
                }
                return CrawlResult::NeedFile(Vec::new());
            },
        };
        proof {
            assert(queue_names(old_queue) =~= queue_names(queue@).push(file@));
        }
        // already discovered: its imports are already accounted for
        let mut seen = false;
        let dn = done.len();
        let mut di: usize = 0;
        while di < dn && !seen
            invariant
                dn == done@.len(),
                0 <= di <= dn,
                !seen ==> forall|x: int| 0 <= x < di ==> (#[trigger] done@[x])@ != file@,
                seen ==> names_contains(names_view(done@), file@),
            decreases dn - di, (if seen { 0int } else { 1int }),
        {
            if bytes_eq(&done[di], &file) {
                proof {
                    assert(names_view(done@)[di as int] == file@);
                }
                seen = true;
            } else {
                di = di + 1;
            }
        }
        if seen {
            proof {
                assert forall|i: int| 0 <= i < queue_names(queue@).len() implies sp_reach_via(
                    #[trigger] queue_names(queue@)[i],
                    entry@,
                    names_view(done@),
                    db@.inputs,
                ) by {
                    assert(queue_names(queue@)[i] == queue_names(old_queue)[i]);
                }
                if !names_contains(names_view(done@), entry@) {
                    assert(names_contains(queue_names(old_queue), entry@));
                    let x = choose|x: int|
                        0 <= x < queue_names(old_queue).len() && queue_names(old_queue)[x]
                            == entry@;
                    if x < queue_names(queue@).len() {
                        assert(queue_names(queue@)[x] == entry@);
                    } else {
                        assert(entry@ == file@);
                    }
                }
                assert forall|i: int, j: int|
                    #![trigger sp_imports_of(names_view(done@)[i], db@.inputs)[j]]
                    0 <= i < names_view(done@).len() && 0 <= j < sp_imports_of(
                        names_view(done@)[i],
                        db@.inputs,
                    ).len() implies names_contains(
                    names_view(done@),
                    sp_imports_of(names_view(done@)[i], db@.inputs)[j].0,
                ) || names_contains(
                    queue_names(queue@),
                    sp_imports_of(names_view(done@)[i], db@.inputs)[j].0,
                ) by {
                    let g = sp_imports_of(names_view(done@)[i], db@.inputs)[j].0;
                    if !names_contains(names_view(done@), g) {
                        assert(names_contains(queue_names(old_queue), g));
                        let x = choose|x: int|
                            0 <= x < queue_names(old_queue).len() && queue_names(old_queue)[x]
                                == g;
                        if x < queue_names(queue@).len() {
                            assert(queue_names(queue@)[x] == g);
                        } else {
                            assert(g == file@);
                        }
                    }
                }
            }
            continue;
        }
        proof {
            assert(!names_contains(names_view(done@), file@)) by {
                if names_contains(names_view(done@), file@) {
                    let x = choose|x: int|
                        0 <= x < names_view(done@).len() && names_view(done@)[x] == file@;
                    assert(done@[x]@ != file@);
                }
            }
        }
        // find the file's text in the read table
        let kn = disk.len();
        let mut ki: usize = 0;
        let mut found = false;
        while ki < kn && !found
            invariant
                kn == disk@.len(),
                0 <= ki <= kn,
                !found ==> forall|x: int| 0 <= x < ki ==> (#[trigger] disk@[x]).0@ != file@,
                found ==> ki < kn && disk@[ki as int].0@ == file@ && forall|x: int|
                    0 <= x < ki ==> (#[trigger] disk@[x]).0@ != file@,
            decreases kn - ki, (if found { 0int } else { 1int }),
        {
            if bytes_eq(&disk[ki].0, &file) {
                found = true;
            } else {
                ki = ki + 1;
            }
        }
        if !found {
            proof {
                lemma_assoc_lookup_absent(disk_view(disk@), file@);
                // the pending file was reached through the discovered ones:
                // it is the entry, or an import of a discovered file, and
                // every discovered file stands in the read table
                let donev = names_view(done@);
                assert(queue_names(old_queue)[queue_names(old_queue).len() - 1] == file@);
                assert(sp_reach_via(file@, entry@, donev, db@.inputs));
                lemma_reach_via_reachable(file@, entry@, donev, db@.inputs);
                let p = choose|p: Seq<Seq<u8>>|
                    sp_import_path(p, entry@, db@.inputs) && p[p.len() - 1] == file@
                        && sp_path_through(p, donev);
                if p.len() == 1 {
                    assert(file@ == entry@);
                } else {
                    let g = p[p.len() - 2];
                    assert(names_contains(donev, g));
                    let x = choose|x: int| 0 <= x < donev.len() && donev[x] == g;
                    assert(assoc_lookup(disk_view(disk@), g) is Some);
                    let j = choose|j: int|
                        0 <= j < sp_imports_of(g, db@.inputs).len() && sp_imports_of(
                            g,
                            db@.inputs,
                        )[j].0 == p[p.len() - 1];
                    assert(assoc_lookup(disk_view(disk@), g) is Some && 0 <= j < sp_imports_of(
                        g,
                        db@.inputs,
                    ).len() && sp_imports_of(g, db@.inputs)[j].0 == file@);
                }
            }
            return CrawlResult::NeedFile(file);
        }
        proof {
            assert(disk_view(disk@)[ki as int] == (
                disk@[ki as int].0@,
                match disk@[ki as int].1 {
                    Some(t) => Some(t@),
                    None => None,
                },
            ));
            lemma_assoc_lookup_at(disk_view(disk@), file@, ki as int);
        }
        let unreadable = matches!(&disk[ki].1, None);
        let text = match &disk[ki].1 {
            Some(t) => bytes_clone(t),
            None => Vec::new(),
        };
        let ghost tv = text@;
        let set_result = set_source_file(bytes_clone(&file), text, db);
        proof {
            assert(set_result is Ok);
        }
        let ghost old_errors = errors@;
        if unreadable {
            let e = Error::UnknownImportFile { file_name: bytes_clone(&file), location };
            errors.push(e);
        }
        done.push(bytes_clone(&file));
        proof {
            assert(names_view(done@) =~= old_done.push(file@));
            lemma_remaining_push(disk_view(disk@), old_done, file@);
            lemma_remaining_nonneg(disk_view(disk@), names_view(done@));
        }
        // the file is in place: ask for its imports and enqueue them
        let v = db.get(&QueryKey::GetImports(GetImports { file_name: file }));
        proof {
            lemma_get_imports_eval(file@, db@.inputs);
        }
        let imports = match v {
            Value::Imports(i) => i,
            _ => {
                proof {
                    assert(false);
                }
                Vec::new()
            },
        };
        let ghost queue_before = queue@;
        let im = imports.len();
        let mut q: usize = 0;
        while q < im
            invariant
                im == imports@.len(),
                0 <= q <= im,
                queue@.len() == queue_before.len() + q,
                forall|x: int|
                    0 <= x < queue_before.len() ==> (#[trigger] queue@[x]) == queue_before[x],
                forall|x: int|
                    0 <= x < q ==> (#[trigger] queue@[queue_before.len() + x]).0@
                        == imports@[x].0@,
            decreases im - q,
        {
            queue.push((bytes_clone(&imports[q].0), location_copy(&imports[q].1)));
            q = q + 1;
        }
        proof {
            let inputs2 = db@.inputs;
            let donev = names_view(done@);
            // the new file's imports are exactly what was just enqueued
            assert(crate::definition_collection::imports_view(imports@) == sp_imports_of(
                file@,
                inputs2,
            ));
            assert forall|i: int, j: int|
                #![trigger sp_imports_of(donev[i], inputs2)[j]]
                0 <= i < donev.len() && 0 <= j < sp_imports_of(
                    donev[i],
                    inputs2,
                ).len() implies names_contains(donev, sp_imports_of(donev[i], inputs2)[j].0)
                || names_contains(queue_names(queue@), sp_imports_of(donev[i], inputs2)[j].0) by {
                let g = sp_imports_of(donev[i], inputs2)[j].0;
                if i < old_done.len() {
                    // an old file: its text was untouched by the new input
                    assert(donev[i] == old_done[i]);
                    assert(old_done[i] != file@) by {
                        if old_done[i] == file@ {
                            assert(names_contains(old_done, file@));
                        }
                    }
                    crate::table::lemma_insert_other(old_inputs, file@, tv, old_done[i]);
                    assert(inputs2 == crate::table::assoc_insert(old_inputs, file@, tv));
                    assert(assoc_lookup(inputs2, old_done[i]) == assoc_lookup(
                        old_inputs,
                        old_done[i],
                    ));
                    lemma_imports_frame(old_done[i], inputs2, old_inputs);
                    assert(g == sp_imports_of(old_done[i], old_inputs)[j].0);
                    if !names_contains(old_done, g) {
                        assert(names_contains(queue_names(old_queue), g));
                        let x = choose|x: int|
                            0 <= x < queue_names(old_queue).len() && queue_names(old_queue)[x]
                                == g;
                        if x < queue_names(queue_before).len() {
                            assert(queue_names(queue@)[x] == g);
                            assert(names_contains(queue_names(queue@), g));
                        } else {
                            assert(g == file@);
                            lemma_contains_push(old_done, file@, g);
                            assert(names_contains(donev, g));
                        }
                    } else {
                        lemma_contains_push(old_done, file@, g);
                        assert(names_contains(donev, g));
                    }
                } else {
                    // the new file: every one of its imports was enqueued
                    assert(donev[i] == file@);
                    assert(queue@[queue_before.len() + j].0@ == imports@[j].0@);
                    assert(crate::definition_collection::imports_view(imports@)[j] == (
                        imports@[j].0@,
                        imports@[j].1@,
                    ));
                    assert(queue_names(queue@)[queue_before.len() + j] == g);
                    assert(names_contains(queue_names(queue@), g));
                }
            }
            // the entry stays accounted for
            if !names_contains(old_done, entry@) {
                assert(names_contains(queue_names(old_queue), entry@));
                let x = choose|x: int|
                    0 <= x < queue_names(old_queue).len() && queue_names(old_queue)[x] == entry@;
                if x < queue_names(queue_before).len() {
                    assert(queue_names(queue@)[x] == entry@);
                    assert(names_contains(queue_names(queue@), entry@));
                } else {
                    assert(entry@ == file@);
                    lemma_contains_push(old_done, file@, entry@);
                }
            } else {
                lemma_contains_push(old_done, file@, entry@);
            }
            // recorded diagnostics still point at discovered, unreadable files
            assert forall|k: int|
                0 <= k < errors@.len() implies match (#[trigger] errors@[k])@ {
                SpecError::UnknownImportFile { file_name, location } => names_contains(
                    names_view(done@),
                    file_name,
                ) && assoc_lookup(disk_view(disk@), file_name) == Some(Option::<Seq<u8>>::None),
                _ => false,
            } by {
                if k < old_errors.len() {
                    assert(errors@[k] == old_errors[k]);
                    match errors@[k]@ {
                        SpecError::UnknownImportFile { file_name, location: l2 } => {
                            lemma_contains_push(old_done, file@, file_name);
                        },
                        _ => {},
                    }
                } else {
                    // the diagnostic recorded this iteration names this file
                    assert(unreadable);
                    match errors@[k]@ {
                        SpecError::UnknownImportFile { file_name, location: l2 } => {
                            assert(file_name == file@);
                            lemma_contains_push(old_done, file@, file_name);
                        },
                        _ => {},
                    }
                }
            }
            // the input change touched only the new file's text
            assert forall|x: int| 0 <= x < old_done.len() implies assoc_lookup(
                inputs2,
                #[trigger] old_done[x],
            ) == assoc_lookup(old_inputs, old_done[x]) by {
                assert(old_done[x] != file@) by {
                    if old_done[x] == file@ {
                        assert(names_contains(old_done, file@));
                    }
                }
                lemma_insert_other(old_inputs, file@, tv, old_done[x]);
            }
            // every discovered file is still in the read table, none twice
            assert forall|i: int| 0 <= i < donev.len() implies assoc_lookup(
                disk_view(disk@),
                #[trigger] donev[i],
            ) is Some by {
                if i < old_done.len() {
                    assert(donev[i] == old_done[i]);
                }
            }
            assert forall|i: int, j: int| 0 <= i < j < donev.len() implies donev[i] != donev[j] by {
                if j == old_done.len() {
                    assert(donev[j] == file@);
                    assert(donev[i] == old_done[i]);
                    if donev[i] == file@ {
                        assert(names_contains(old_done, file@));
                    }
                }
            }
            // every discovered file's text stands in the database
            assert forall|i: int| 0 <= i < donev.len() implies assoc_lookup(
                inputs2,
                #[trigger] donev[i],
            ) == Some(sp_disk_text(disk_view(disk@), donev[i])) by {
                if i < old_done.len() {
                    assert(donev[i] == old_done[i]);
                } else {
                    assert(donev[i] == file@);
                    lemma_insert_lookup(old_inputs, file@, tv);
                    assert(tv == sp_disk_text(disk_view(disk@), file@)) by {
                        if disk@[ki as int].1 is None {
                            assert(tv =~= Seq::<u8>::empty());
                        }
                    }
                }
            }
            // chains: discovered files are reached through discovered files
            assert forall|i: int| 0 <= i < donev.len() implies sp_reach_via(
                #[trigger] donev[i],
                entry@,
                donev,
                inputs2,
            ) by {
                if i < old_done.len() {
                    assert(donev[i] == old_done[i]);
                    assert(sp_reach_via(old_done[i], entry@, old_done, old_inputs));
                    lemma_reach_via_frame(old_done[i], entry@, old_done, old_inputs, inputs2);
                    lemma_reach_via_grow(old_done[i], entry@, old_done, file@, inputs2);
                } else {
                    assert(donev[i] == file@);
                    assert(queue_names(old_queue)[queue_names(old_queue).len() - 1] == file@);
                    assert(sp_reach_via(file@, entry@, old_done, old_inputs));
                    lemma_reach_via_frame(file@, entry@, old_done, old_inputs, inputs2);
                    lemma_reach_via_grow(file@, entry@, old_done, file@, inputs2);
                }
            }
            // ... and so are the pending ones
            assert(queue_names(old_queue)[queue_names(old_queue).len() - 1] == file@);
            assert(sp_reach_via(file@, entry@, old_done, old_inputs));
            lemma_reach_via_frame(file@, entry@, old_done, old_inputs, inputs2);
            lemma_reach_via_grow(file@, entry@, old_done, file@, inputs2);
            assert(sp_reach_via(file@, entry@, donev, inputs2));
            assert(names_contains(donev, file@)) by {
                lemma_contains_push(old_done, file@, file@);
            }
            assert forall|i: int| 0 <= i < queue_names(queue@).len() implies sp_reach_via(
                #[trigger] queue_names(queue@)[i],
                entry@,
                donev,
                inputs2,
            ) by {
                if i < queue_before.len() {
                    assert(queue_names(queue@)[i] == queue_names(queue_before)[i]);
                    assert(queue_names(old_queue)[i] == queue_names(queue_before)[i]);
                    assert(sp_reach_via(queue_names(old_queue)[i], entry@, old_done, old_inputs));
                    lemma_reach_via_frame(
                        queue_names(old_queue)[i],
                        entry@,
                        old_done,
                        old_inputs,
                        inputs2,
                    );
                    lemma_reach_via_grow(
                        queue_names(old_queue)[i],
                        entry@,
                        old_done,
                        file@,
                        inputs2,
                    );
                } else {
                    let x = i - queue_before.len();
                    assert(queue@[queue_before.len() + x].0@ == imports@[x].0@);
                    assert(queue_names(queue@)[i] == imports@[x].0@);
                    assert(crate::definition_collection::imports_view(imports@)[x] == (
                        imports@[x].0@,
                        imports@[x].1@,
                    ));
                    assert(sp_imports_of(file@, inputs2)[x].0 == imports@[x].0@);
                    lemma_reach_via_step(file@, imports@[x].0@, entry@, donev, inputs2);
                }
            }
            // an unreadable discovered file has its diagnostic, and no two
            // diagnostics name one file
            assert forall|i: int|
                0 <= i < donev.len() && assoc_lookup(disk_view(disk@), #[trigger] donev[i])
                    == Some(Option::<Seq<u8>>::None) implies exists|k: int|
                0 <= k < errors@.len() && sp_error_names(#[trigger] errors@[k]@, donev[i]) by {
                if i < old_done.len() {
                    assert(donev[i] == old_done[i]);
                    assert(exists|k: int|
                        0 <= k < old_errors.len() && sp_error_names(
                            #[trigger] old_errors[k]@,
                            old_done[i],
                        ));
                    let k = choose|k: int|
                        0 <= k < old_errors.len() && sp_error_names(
                            #[trigger] old_errors[k]@,
                            old_done[i],
                        );
                    assert(errors@[k]@ == old_errors[k]@);
                    assert(sp_error_names(errors@[k]@, donev[i]));
                } else {
                    assert(donev[i] == file@);
                    assert(unreadable);
                    let k = old_errors.len() as int;
                    assert(sp_error_names(errors@[k]@, file@));
                }
            }
            assert forall|k1: int, k2: int, f: Seq<u8>|
                0 <= k1 < k2 < errors@.len() && #[trigger] sp_error_names(errors@[k1]@, f) implies !(
            #[trigger] sp_error_names(errors@[k2]@, f)) by {
                if k2 >= old_errors.len() {
                    // the new diagnostic names a file no older one could:
                    // older ones name files discovered before this round
                    assert(errors@[k1]@ == old_errors[k1]@);
                    if sp_error_names(errors@[k2]@, f) {
                        assert(f == file@);
                        match old_errors[k1]@ {
                            SpecError::UnknownImportFile { file_name, location } => {
                                assert(names_contains(old_done, file_name));
                                assert(file_name == f);
                                assert(names_contains(old_done, file@));
                            },
                            _ => {},
                        }
                    }
                } else {
                    assert(errors@[k1]@ == old_errors[k1]@);
                    assert(errors@[k2]@ == old_errors[k2]@);
                    assert(sp_error_names(old_errors[k1]@, f));
                    assert(sp_error_names(old_errors[k2]@, f) == sp_error_names(errors@[k2]@, f));
                }
            }
        }
    }
    proof {
        assert(queue_names(queue@).len() == 0);
        if !names_contains(names_view(done@), entry@) {
            let x = choose|x: int|
                0 <= x < queue_names(queue@).len() && queue_names(queue@)[x] == entry@;
        }
        assert forall|i: int| 0 <= i < names_view(done@).len() implies sp_import_reachable(
            #[trigger] names_view(done@)[i],
            entry@,
            db@.inputs,
        ) by {
            lemma_reach_via_reachable(
                names_view(done@)[i],
                entry@,
                names_view(done@),
                db@.inputs,
            );
        }
        assert forall|i: int, j: int|
            #![trigger sp_imports_of(names_view(done@)[i], db@.inputs)[j]]
            0 <= i < names_view(done@).len() && 0 <= j < sp_imports_of(
                names_view(done@)[i],
                db@.inputs,
            ).len() implies names_contains(
            names_view(done@),
            sp_imports_of(names_view(done@)[i], db@.inputs)[j].0,
        ) by {
            let g = sp_imports_of(names_view(done@)[i], db@.inputs)[j].0;
            if !names_contains(names_view(done@), g) {
                assert(names_contains(queue_names(queue@), g));
                let x = choose|x: int|
                    0 <= x < queue_names(queue@).len() && queue_names(queue@)[x] == g;
            }
        }
    }
    CrawlResult::Done(done, errors)
}

} // verus!
