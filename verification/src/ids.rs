//! Stable identities for AST nodes.
//!
//! A [`TopLevelId`] identifies a top level statement across edits and across
//! files: it is built from the file path, the kind of statement, what names
//! the statement (its defined or imported name, or, for `print`, the printed
//! expression itself), and a collision counter for duplicates.  An edit that
//! leaves those parts alone leaves the id alone, so caches keyed by it
//! survive the edit.
//!
//! An [`ExprId`] is a per-statement counter: it is reset at the start of each
//! top level statement, so edits to one statement never shift ids in another.

use vstd::prelude::*;

use crate::ast::{Expression, SpecExpr};
use crate::errors::bytes_clone;

verus! {

/// Statement-local identity of an expression node.
#[derive(Clone, Copy, PartialEq, Eq, Structural, Debug)]
pub struct ExprId(pub u32);

impl ExprId {
    pub fn new(id: u32) -> (r: ExprId)
        ensures
            r == ExprId(id),
    {
        ExprId(id)
    }
}

/// What kind of statement an id denotes, and what that statement names.
pub enum TopLevelKind {
    /// A `def`, keyed by the defined name.
    Definition { name: Vec<u8> },
    /// An `import`, keyed by the imported file name.
    Import { name: Vec<u8> },
    /// A `print`, keyed by the printed expression: prints have no name, so
    /// the expression structure itself identifies them, and editing what is
    /// printed re-identifies the statement.
    Print { summary: Box<Expression> },
}

pub ghost enum SpecTopLevelKind {
    Definition { name: Seq<u8> },
    Import { name: Seq<u8> },
    Print { summary: SpecExpr },
}

impl View for TopLevelKind {
    type V = SpecTopLevelKind;

    open spec fn view(&self) -> SpecTopLevelKind {
        match self {
            TopLevelKind::Definition { name } => SpecTopLevelKind::Definition { name: name@ },
            TopLevelKind::Import { name } => SpecTopLevelKind::Import { name: name@ },
            TopLevelKind::Print { summary } => SpecTopLevelKind::Print { summary: summary@ },
        }
    }
}

/// Globally unique identity of a top level statement.
pub struct TopLevelId {
    pub file_path: Vec<u8>,
    pub kind: TopLevelKind,
    /// Disambiguates duplicates within one file (two `def`s of one name).
    pub collision: u32,
}

pub ghost struct SpecTopLevelId {
    pub file_path: Seq<u8>,
    pub kind: SpecTopLevelKind,
    pub collision: u32,
}

impl View for TopLevelId {
    type V = SpecTopLevelId;

    open spec fn view(&self) -> SpecTopLevelId {
        SpecTopLevelId { file_path: self.file_path@, kind: self.kind@, collision: self.collision }
    }
}

pub open spec fn spec_definition_id(file_path: Seq<u8>, name: Seq<u8>, collision: u32) -> SpecTopLevelId {
    SpecTopLevelId {
        file_path: file_path,
        kind: SpecTopLevelKind::Definition { name: name },
        collision: collision,
    }
}

pub open spec fn spec_import_id(file_path: Seq<u8>, name: Seq<u8>, collision: u32) -> SpecTopLevelId {
    SpecTopLevelId {
        file_path: file_path,
        kind: SpecTopLevelKind::Import { name: name },
        collision: collision,
    }
}

pub open spec fn spec_print_id(file_path: Seq<u8>, summary: SpecExpr, collision: u32) -> SpecTopLevelId {
    SpecTopLevelId {
        file_path: file_path,
        kind: SpecTopLevelKind::Print { summary: summary },
        collision: collision,
    }
}

impl TopLevelId {
    /// The id of an `import` statement: file, imported name, duplicate count.
    pub fn new_import(file_path: Vec<u8>, import_name: &Vec<u8>, collision: u32) -> (r: TopLevelId)
        ensures
            r@ == spec_import_id(file_path@, import_name@, collision),
    {
        TopLevelId {
            file_path,
            kind: TopLevelKind::Import { name: bytes_clone(import_name) },
            collision,
        }
    }

    /// The id of a `def`: file, defined name, duplicate count.
    pub fn new_definition(file_path: Vec<u8>, definition_name: &Vec<u8>, collision: u32) -> (r:
        TopLevelId)
        ensures
            r@ == spec_definition_id(file_path@, definition_name@, collision),
    {
        TopLevelId {
            file_path,
            kind: TopLevelKind::Definition { name: bytes_clone(definition_name) },
            collision,
        }
    }

    /// The id of a `print`: file and the printed expression itself.
    pub fn new_print(file_path: Vec<u8>, expr: &Expression, collision: u32) -> (r: TopLevelId)
        ensures
            r@ == spec_print_id(file_path@, expr@, collision),
    {
        TopLevelId {
            file_path,
            kind: TopLevelKind::Print { summary: Box::new(crate::ast::expr_copy(expr)) },
            collision,
        }
    }

    /// Structural equality over the models.
    pub fn same_as(&self, other: &TopLevelId) -> (r: bool)
        ensures
            r == (self@ == other@),
    {
        if !crate::errors::bytes_eq(&self.file_path, &other.file_path) {
            return false;
        }
        if self.collision != other.collision {
            return false;
        }
        let kinds_equal = match (&self.kind, &other.kind) {
            (TopLevelKind::Definition { name: a }, TopLevelKind::Definition { name: b }) => {
                crate::errors::bytes_eq(a, b)
            },
            (TopLevelKind::Import { name: a }, TopLevelKind::Import { name: b }) => {
                crate::errors::bytes_eq(a, b)
            },
            (TopLevelKind::Print { summary: a }, TopLevelKind::Print { summary: b }) => {
                crate::ast::expr_eq(a, b)
            },
            _ => false,
        };
        proof {
            if kinds_equal {
                assert(self@ == other@);
            } else {
                assert(self@.kind != other@.kind);
            }
        }
        kinds_equal
    }

    /// A fresh copy.
    pub fn copied(&self) -> (r: TopLevelId)
        ensures
            r@ == self@,
    {
        let kind = match &self.kind {
            TopLevelKind::Definition { name } => TopLevelKind::Definition {
                name: bytes_clone(name),
            },
            TopLevelKind::Import { name } => TopLevelKind::Import { name: bytes_clone(name) },
            TopLevelKind::Print { summary } => TopLevelKind::Print {
                summary: Box::new(crate::ast::expr_copy(summary)),
            },
        };
        TopLevelId { file_path: bytes_clone(&self.file_path), kind, collision: self.collision }
    }
}

} // verus!

verus! {

impl TopLevelKind {
    /// Structural equality over the models.
    pub fn same_as(&self, other: &TopLevelKind) -> (r: bool)
        ensures
            r == (self@ == other@),
    {
        match (self, other) {
            (TopLevelKind::Definition { name: a }, TopLevelKind::Definition { name: b }) => {
                crate::errors::bytes_eq(a, b)
            },
            (TopLevelKind::Import { name: a }, TopLevelKind::Import { name: b }) => {
                crate::errors::bytes_eq(a, b)
            },
            (TopLevelKind::Print { summary: a }, TopLevelKind::Print { summary: b }) => {
                crate::ast::expr_eq(a, b)
            },
            _ => false,
        }
    }
}

} // verus!
