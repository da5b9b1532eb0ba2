use exlang::incremental::{
    enter_query, exit_query, set_source_file, CompileFile, Database, QueryKey, Value,
};
use exlang::errors::{dec_i64, dec_u64};
use exlang::errors::Error;
use exlang::codec::{deserialize_db, serialize_db};
use exlang::find_changed_files::{collect_all_changed_files, CrawlResult};
use exlang::incremental::get_source_file;

fn compile(db: &mut Database, file: &str) -> (Vec<u8>, Vec<Error>) {
    let v = db.get(&QueryKey::CompileFile(CompileFile { file_name: file.as_bytes().to_vec() }));
    match v {
        Value::Compiled(text, errors) => (text, errors),
        _ => panic!("expected a compiled value"),
    }
}

fn set(db: &mut Database, file: &str, text: &str) {
    assert!(set_source_file(file.as_bytes().to_vec(), text.as_bytes().to_vec(), db).is_ok());
}

#[test]
fn identity_and_print() {
    let mut db = Database::new();
    set(&mut db, "input.ex", "def id = fn x -> x\nprint id 5");
    let (text, errors) = compile(&mut db, "input.ex");
    assert_eq!(errors.len(), 0);
    assert_eq!(
        String::from_utf8(text).unwrap(),
        "\nid = lambda x: x\nprint(id(5))\n"
    );
}

#[test]
fn arithmetic() {
    let mut db = Database::new();
    set(
        &mut db,
        "input.ex",
        "def add: Int -> Int -> Int = fn x y -> x + y\nprint add 2 3",
    );
    let (text, errors) = compile(&mut db, "input.ex");
    assert_eq!(errors.len(), 0);
    let text = String::from_utf8(text).unwrap();
    assert!(text.contains("add = lambda x: lambda y: (lambda x: lambda y: x + y)(x)(y)"));
    assert!(text.contains("print(add(2)(3))"));
}

#[test]
fn subtraction_renders_minus() {
    let mut db = Database::new();
    set(&mut db, "input.ex", "def sub = fn x y -> x - y");
    let (text, errors) = compile(&mut db, "input.ex");
    assert_eq!(errors.len(), 0);
    assert!(String::from_utf8(text).unwrap().contains("(lambda x: lambda y: x - y)"));
}

#[test]
fn type_mismatch() {
    let mut db = Database::new();
    set(&mut db, "input.ex", "def bad: Int = fn x -> x");
    let (_text, errors) = compile(&mut db, "input.ex");
    assert_eq!(errors.len(), 1);
    match &errors[0] {
        Error::ExpectedType { expected, .. } => {
            assert_eq!(expected, &b"Int".to_vec());
        }
        other => panic!("expected a type mismatch, got {}", String::from_utf8_lossy(&other.message())),
    }
}

#[test]
fn unknown_name() {
    let mut db = Database::new();
    set(&mut db, "input.ex", "def y = z");
    let (_text, errors) = compile(&mut db, "input.ex");
    assert_eq!(errors.len(), 1);
    match &errors[0] {
        Error::NameNotInScope { name, .. } => assert_eq!(name, &b"z".to_vec()),
        _ => panic!("expected an unknown-name error"),
    }
    assert_eq!(
        String::from_utf8(errors[0].message()).unwrap(),
        "input.ex:1: `z` is not defined, was it a typo?"
    );
}

#[test]
fn duplicate_definition() {
    let mut db = Database::new();
    set(&mut db, "input.ex", "def a = 1\ndef a = 2");
    let (_text, errors) = compile(&mut db, "input.ex");
    assert!(errors
        .iter()
        .any(|e| matches!(e, Error::NameAlreadyInScope { .. })));
}

#[test]
fn imports_bring_exports() {
    let mut db = Database::new();
    set(&mut db, "lib.ex", "def one = 1");
    set(&mut db, "input.ex", "import lib\nprint one");
    let (text, errors) = compile(&mut db, "input.ex");
    assert_eq!(errors.len(), 0);
    let text = String::from_utf8(text).unwrap();
    assert!(text.contains("from lib import *"));
    assert!(text.contains("print(one)"));
}

#[test]
fn import_collision_reported() {
    let mut db = Database::new();
    set(&mut db, "lib.ex", "def a = 1");
    set(&mut db, "input.ex", "import lib\ndef a = 2");
    let (_text, errors) = compile(&mut db, "input.ex");
    assert!(errors
        .iter()
        .any(|e| matches!(e, Error::ImportedNameAlreadyInScope { .. })));
}

#[test]
fn determinism_same_inputs_same_output() {
    let src = "def id = fn x -> x\nprint id 5\nprint id 6";
    let mut db1 = Database::new();
    set(&mut db1, "input.ex", src);
    let out1 = compile(&mut db1, "input.ex");
    let mut db2 = Database::new();
    set(&mut db2, "input.ex", src);
    let out2 = compile(&mut db2, "input.ex");
    assert_eq!(out1.0, out2.0);
    assert_eq!(out1.1.len(), out2.1.len());
    // asking again answers from the memo with the same bytes
    let again = compile(&mut db1, "input.ex");
    assert_eq!(again.0, out1.0);
}

#[test]
fn mutation_during_query_fails() {
    let mut db = Database::new();
    set(&mut db, "input.ex", "def a = 1");
    enter_query(&mut db);
    let r = set_source_file(b"input.ex".to_vec(), b"def a = 2".to_vec(), &mut db);
    assert!(r.is_err());
    exit_query(&mut db);
    assert!(set_source_file(b"input.ex".to_vec(), b"def a = 2".to_vec(), &mut db).is_ok());
}

#[test]
fn edit_changes_output() {
    let mut db = Database::new();
    set(&mut db, "input.ex", "def add: Int -> Int -> Int = fn x y -> x + y\nprint add 2 3");
    let (before, _) = compile(&mut db, "input.ex");
    set(&mut db, "input.ex", "def add: Int -> Int -> Int = fn x y -> x - y\nprint add 2 3");
    let (after, errors) = compile(&mut db, "input.ex");
    assert_eq!(errors.len(), 0);
    assert_ne!(before, after);
    assert!(String::from_utf8(after).unwrap().contains("x - y"));
}

#[test]
fn parse_error_recovers() {
    let mut db = Database::new();
    set(&mut db, "input.ex", ") )\ndef ok = 1");
    let (text, errors) = compile(&mut db, "input.ex");
    assert!(errors.iter().any(|e| matches!(e, Error::ParserExpected { .. })));
    assert!(String::from_utf8(text).unwrap().contains("ok = 1"));
}

#[test]
fn lexer_and_messages() {
    assert_eq!(dec_u64(0), b"0".to_vec());
    assert_eq!(dec_u64(90210), b"90210".to_vec());
    assert_eq!(dec_i64(-17), b"-17".to_vec());
    let toks = exlang::lexer::lex_file(&b"f.ex".to_vec(), &b"def a = 1 + 2 // c\n".to_vec());
    let kinds: Vec<String> = toks
        .iter()
        .map(|(t, _)| String::from_utf8(t.text()).unwrap())
        .collect();
    assert_eq!(kinds, vec!["def", "a", "=", "1", "+", "2"]);
}

#[test]
fn duplicate_definitions_get_distinct_ids() {
    let parse = exlang::parser::parse_impl(
        &b"input.ex".to_vec(),
        &b"def a = 1\ndef a = 2\ndef a = 3".to_vec(),
    );
    assert_eq!(parse.ast.statements.len(), 3);
    assert_eq!(parse.top_level_data.len(), 3);
    let id0 = parse.ast.statements[0].id();
    let id1 = parse.ast.statements[1].id();
    let id2 = parse.ast.statements[2].id();
    assert!(!id0.same_as(id1));
    assert!(!id0.same_as(id2));
    assert!(!id1.same_as(id2));
    assert_eq!(id0.collision, 0);
    assert_eq!(id1.collision, 1);
    assert_eq!(id2.collision, 2);
}

#[test]
fn duplicate_prints_get_distinct_ids() {
    let parse = exlang::parser::parse_impl(&b"input.ex".to_vec(), &b"print 1\nprint 1".to_vec());
    assert_eq!(parse.top_level_data.len(), 2);
    assert!(!parse.ast.statements[0].id().same_as(parse.ast.statements[1].id()));
}

#[test]
fn cache_round_trip() {
    let mut db = Database::new();
    set(&mut db, "input.ex", "def id = fn x -> x\nprint id 5");
    set(&mut db, "lib.ex", "def one = 1");
    let before = compile(&mut db, "input.ex");
    let bytes = serialize_db(&db);
    let mut restored = deserialize_db(&bytes);
    assert_eq!(
        get_source_file(&b"input.ex".to_vec(), &mut restored),
        Some(b"def id = fn x -> x\nprint id 5".to_vec())
    );
    assert_eq!(
        get_source_file(&b"lib.ex".to_vec(), &mut restored),
        Some(b"def one = 1".to_vec())
    );
    let after = compile(&mut restored, "input.ex");
    assert_eq!(before.0, after.0);
    assert_eq!(before.1.len(), after.1.len());
    // the same bytes come out again
    assert_eq!(bytes, serialize_db(&deserialize_db(&bytes)));
}

#[test]
fn corrupt_cache_becomes_empty_database() {
    let mut db = deserialize_db(&b"not a cache file at all".to_vec());
    assert_eq!(get_source_file(&b"input.ex".to_vec(), &mut db), None);
}

#[test]
fn crawler_discovers_imports() {
    let mut db = Database::new();
    let disk: Vec<(Vec<u8>, Option<Vec<u8>>)> = vec![
        (b"input.ex".to_vec(), Some(b"import lib\nprint one".to_vec())),
        (b"lib.ex".to_vec(), Some(b"def one = 1".to_vec())),
    ];
    match collect_all_changed_files(&b"input.ex".to_vec(), &disk, &mut db) {
        CrawlResult::Done(done, errors) => {
            assert!(done.contains(&b"input.ex".to_vec()));
            assert!(done.contains(&b"lib.ex".to_vec()));
            assert_eq!(errors.len(), 0);
        }
        CrawlResult::NeedFile(f) => panic!("unexpected read request for {:?}", f),
    }
}

#[test]
fn crawler_terminates_on_import_cycle() {
    let mut db = Database::new();
    let disk: Vec<(Vec<u8>, Option<Vec<u8>>)> = vec![
        (b"a.ex".to_vec(), Some(b"import b\ndef x = 1".to_vec())),
        (b"b.ex".to_vec(), Some(b"import a\ndef y = 2".to_vec())),
    ];
    match collect_all_changed_files(&b"a.ex".to_vec(), &disk, &mut db) {
        CrawlResult::Done(done, errors) => {
            assert_eq!(done.len(), 2);
            assert_eq!(errors.len(), 0);
        }
        CrawlResult::NeedFile(f) => panic!("unexpected read request for {:?}", f),
    }
    // both files compile without engine errors
    let (_, errs_a) = compile(&mut db, "a.ex");
    let (_, errs_b) = compile(&mut db, "b.ex");
    assert_eq!(errs_a.len(), 0);
    assert_eq!(errs_b.len(), 0);
}

#[test]
fn crawler_asks_for_unread_files_and_reports_unreadable_ones() {
    let mut db = Database::new();
    let mut disk: Vec<(Vec<u8>, Option<Vec<u8>>)> =
        vec![(b"input.ex".to_vec(), Some(b"import gone\nprint 1".to_vec()))];
    let needed = match collect_all_changed_files(&b"input.ex".to_vec(), &disk, &mut db) {
        CrawlResult::NeedFile(f) => f,
        CrawlResult::Done(..) => panic!("the crawl should ask for the imported file"),
    };
    assert_eq!(needed, b"gone.ex".to_vec());
    disk.push((needed, None));
    match collect_all_changed_files(&b"input.ex".to_vec(), &disk, &mut db) {
        CrawlResult::Done(done, errors) => {
            assert!(done.contains(&b"gone.ex".to_vec()));
            assert_eq!(errors.len(), 1);
            assert!(matches!(errors[0], Error::UnknownImportFile { .. }));
        }
        CrawlResult::NeedFile(f) => panic!("unexpected read request for {:?}", f),
    }
}

#[test]
fn reset_of_identical_text_keeps_values() {
    let mut db = Database::new();
    set(&mut db, "input.ex", "def id = fn x -> x\nprint id 5");
    let before = compile(&mut db, "input.ex");
    set(&mut db, "input.ex", "def id = fn x -> x\nprint id 5");
    let after = compile(&mut db, "input.ex");
    assert_eq!(before.0, after.0);
    assert_eq!(before.1.len(), after.1.len());
}

#[test]
fn missing_input_is_reported() {
    let mut db = Database::new();
    // no source was ever set for this file
    let (_text, errors) = compile(&mut db, "absent.ex");
    assert!(errors
        .iter()
        .any(|e| matches!(e, Error::UnknownImportFile { .. })));
}

#[test]
fn reset_of_identical_text_runs_no_pass() {
    let mut db = Database::new();
    set(&mut db, "input.ex", "def id = fn x -> x\nprint id 5");
    let before = compile(&mut db, "input.ex");
    let executed = db.log_len();
    // re-setting the very same text leaves the database untouched, so the
    // repeated compile answers from the memo without executing a pass
    set(&mut db, "input.ex", "def id = fn x -> x\nprint id 5");
    let after = compile(&mut db, "input.ex");
    assert_eq!(db.log_len(), executed);
    assert_eq!(before.0, after.0);
    assert_eq!(before.1.len(), after.1.len());
}

#[test]
fn crawler_cycle_discovers_exactly_both_files() {
    let mut db = Database::new();
    let disk: Vec<(Vec<u8>, Option<Vec<u8>>)> = vec![
        (b"a.ex".to_vec(), Some(b"import b\ndef x = 1".to_vec())),
        (b"b.ex".to_vec(), Some(b"import a\ndef y = 2".to_vec())),
    ];
    match collect_all_changed_files(&b"a.ex".to_vec(), &disk, &mut db) {
        CrawlResult::Done(done, errors) => {
            assert_eq!(done.len(), 2);
            assert!(done.contains(&b"a.ex".to_vec()));
            assert!(done.contains(&b"b.ex".to_vec()));
            assert_eq!(errors.len(), 0);
        }
        CrawlResult::NeedFile(f) => panic!("unexpected read request for {:?}", f),
    }
}
