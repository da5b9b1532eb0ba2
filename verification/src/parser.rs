//! The parser: a hand-written, fault-tolerant recursive descent parser.
//!
//! It always produces an [`crate::ast::Program`]: on a failure inside a top
//! level statement it records the error and skips to the next token that can
//! begin a statement.  Every expression receives an [`ExprId`] from a counter
//! that is reset at the start of each top level statement, so edits to one
//! statement never shift the ids of another.
//!
//! The whole parse is specified by the `sp_*` spec functions, which thread an
//! explicit [`SpecParser`] state; the executable parser is proved to produce
//! exactly their result.  The spec functions take a fuel argument for
//! termination; the executable side shows the canonical budget is never
//! exhausted.

use vstd::prelude::*;

use crate::ast::{
    Definition, Expression, Identifier, Program, SpecAstType, SpecDefinition, SpecExpr,
    SpecIdentifier, SpecProgram, SpecStatement, TopLevelStatement, Type,
};
use crate::errors::{
    bytes_clone, Error, Errors, LocationData, Position, SpecError, SpecLocation,
};
use crate::ids::{
    spec_definition_id, spec_import_id, spec_print_id, ExprId, SpecTopLevelId, TopLevelId,
};
use crate::lexer::{lex_file, spec_lex, toks_view};
use crate::table::{assoc_insert, lemma_assoc_insert_absent, lemma_assoc_insert_at};
use crate::tokens::{spec_token_text, SpecToken, Token};

verus! {

// ---------------------------------------------------------------------------
// Results
// ---------------------------------------------------------------------------
/// Extra data about one top level statement: its span, and the span of every
/// expression node inside it, keyed by [`ExprId`].
pub struct TopLevelMetaData {
    pub location: LocationData,
    pub expr_locations: Vec<(ExprId, LocationData)>,
}

pub ghost struct SpecMetaData {
    pub location: SpecLocation,
    pub expr_locations: Seq<(ExprId, SpecLocation)>,
}

impl View for TopLevelMetaData {
    type V = SpecMetaData;

    open spec fn view(&self) -> SpecMetaData {
        SpecMetaData { location: self.location@, expr_locations: locs_view(self.expr_locations@) }
    }
}

/// Everything one parse produces: the AST, the errors, and per-statement
/// metadata keyed by [`TopLevelId`].
pub struct ParserResult {
    pub ast: Program,
    pub errors: Errors,
    pub top_level_data: Vec<(TopLevelId, TopLevelMetaData)>,
}

pub ghost struct SpecParserResult {
    pub ast: SpecProgram,
    pub errors: Seq<SpecError>,
    pub top_level_data: Seq<(SpecTopLevelId, SpecMetaData)>,
}

impl View for ParserResult {
    type V = SpecParserResult;

    open spec fn view(&self) -> SpecParserResult {
        SpecParserResult {
            ast: self.ast@,
            errors: errs_view(self.errors@),
            top_level_data: tld_view(self.top_level_data@),
        }
    }
}

/// The models of a list of recorded expression locations.
pub open spec fn locs_view(s: Seq<(ExprId, LocationData)>) -> Seq<(ExprId, SpecLocation)> {
    s.map_values(|p: (ExprId, LocationData)| (p.0, p.1@))
}

/// The models of a list of diagnostics.
pub open spec fn errs_view(s: Seq<Error>) -> Seq<SpecError> {
    s.map_values(|e: Error| e@)
}

/// The models of the per-statement metadata table.
pub open spec fn tld_view(s: Seq<(TopLevelId, TopLevelMetaData)>) -> Seq<
    (SpecTopLevelId, SpecMetaData),
> {
    s.map_values(|p: (TopLevelId, TopLevelMetaData)| (p.0@, p.1@))
}

/// The models of a list of statements.
pub open spec fn stmts_view(s: Seq<TopLevelStatement>) -> Seq<SpecStatement> {
    s.map_values(|t: TopLevelStatement| t@)
}

/// A `Result` seen through the models of both payloads.
pub open spec fn res_view<A: View, B: View>(r: Result<A, B>) -> Result<A::V, B::V> {
    match r {
        Ok(a) => Ok(a@),
        Err(b) => Err(b@),
    }
}

// ---------------------------------------------------------------------------
// Parser state
// ---------------------------------------------------------------------------
struct Parser {
    tokens: Vec<(Token, LocationData)>,
    current_token_index: usize,
    file_name: Vec<u8>,
    next_expr_id: u32,
    expr_locations: Vec<(ExprId, LocationData)>,
    errors: Vec<Error>,
    top_level_data: Vec<(TopLevelId, TopLevelMetaData)>,
}

/// The model of the parser state.
pub ghost struct SpecParser {
    pub toks: Seq<(SpecToken, SpecLocation)>,
    pub file: Seq<u8>,
    pub idx: int,
    pub next_id: u32,
    pub locs: Seq<(ExprId, SpecLocation)>,
    pub errors: Seq<SpecError>,
    pub tld: Seq<(SpecTopLevelId, SpecMetaData)>,
}

impl View for Parser {
    type V = SpecParser;

    closed spec fn view(&self) -> SpecParser {
        SpecParser {
            toks: toks_view(self.tokens@),
            file: self.file_name@,
            idx: self.current_token_index as int,
            next_id: self.next_expr_id,
            locs: locs_view(self.expr_locations@),
            errors: errs_view(self.errors@),
            tld: tld_view(self.top_level_data@),
        }
    }
}

/// Well-formedness: the index is in range and every token's location lies in
/// the parser's file (locations are merged, which needs one common file).
pub open spec fn sp_wf(p: SpecParser) -> bool {
    &&& 0 <= p.idx <= p.toks.len()
    &&& forall|k: int| 0 <= k < p.toks.len() ==> (#[trigger] p.toks[k]).1.file_name == p.file
}

/// The parts a parse never changes.
pub open spec fn sp_same_input(a: SpecParser, b: SpecParser) -> bool {
    a.toks == b.toks && a.file == b.file
}

// ---------------------------------------------------------------------------
// Small steps of the parser, as spec functions
// ---------------------------------------------------------------------------
pub open spec fn start_position() -> Position {
    Position { byte_index: 0, line_number: 1, column_number: 1 }
}

/// The current location: the current token's, else the last token's, else an
/// empty span at the start of the file.
pub open spec fn sp_cur_loc(p: SpecParser) -> SpecLocation {
    if 0 <= p.idx < p.toks.len() {
        p.toks[p.idx].1
    } else if p.toks.len() > 0 {
        p.toks[p.toks.len() - 1].1
    } else {
        SpecLocation { file_name: p.file, start: start_position(), end: start_position() }
    }
}

pub open spec fn sp_peek(p: SpecParser) -> Option<SpecToken> {
    if 0 <= p.idx < p.toks.len() {
        Some(p.toks[p.idx].0)
    } else {
        None
    }
}

pub open spec fn sp_advance(p: SpecParser) -> SpecParser {
    SpecParser { idx: p.idx + 1, ..p }
}

pub open spec fn sat_u32(x: u32) -> u32 {
    if x < u32::MAX {
        (x + 1) as u32
    } else {
        x
    }
}

/// Allocate the next expression id and record `loc` for it.
pub open spec fn sp_fresh(p: SpecParser, loc: SpecLocation) -> (SpecParser, ExprId) {
    let id = ExprId(p.next_id);
    (
        SpecParser {
            next_id: sat_u32(p.next_id),
            locs: assoc_insert(p.locs, id, loc),
            ..p
        },
        id,
    )
}

pub open spec fn sp_accept(p: SpecParser, t: SpecToken) -> (SpecParser, bool) {
    if sp_peek(p) == Some(t) {
        (sp_advance(p), true)
    } else {
        (p, false)
    }
}

/// The diagnostic for "expected `rule` here".
pub open spec fn sp_expected(rule: Seq<u8>, p: SpecParser) -> SpecError {
    SpecError::ParserExpected { rule, found: sp_peek(p), location: sp_cur_loc(p) }
}

/// `` `token` ``, the rule text used by `expect`.
pub open spec fn sp_backtick(t: SpecToken) -> Seq<u8> {
    seq![96u8] + spec_token_text(t) + seq![96u8]
}

pub open spec fn sp_expect(p: SpecParser, t: SpecToken) -> (SpecParser, Result<(), SpecError>) {
    if sp_peek(p) == Some(t) {
        (sp_advance(p), Ok(()))
    } else {
        (p, Err(sp_expected(sp_backtick(t), p)))
    }
}

/// name: a `Name` token becomes an identifier with a fresh id.
pub open spec fn sp_name(p: SpecParser) -> (SpecParser, Result<SpecIdentifier, SpecError>) {
    match sp_peek(p) {
        Some(SpecToken::Name(n)) => {
            let loc = sp_cur_loc(p);
            let p1 = sp_advance(p);
            let (p2, id) = sp_fresh(p1, loc);
            (p2, Ok(SpecIdentifier { name: n, id }))
        },
        _ => (p, Err(sp_expected(crate::errors::lit("a name"), p))),
    }
}

/// The span from the start of `a` to the end of `b`.
pub open spec fn sp_merge(a: SpecLocation, b: SpecLocation) -> SpecLocation {
    SpecLocation { file_name: a.file_name, start: a.start, end: b.end }
}

pub open spec fn sp_push_error(p: SpecParser, e: SpecError) -> SpecParser {
    SpecParser { errors: p.errors + seq![e], ..p }
}

/// Skip to the next token that can begin a top level statement.
pub open spec fn sp_skip_to_stmt(p: SpecParser) -> SpecParser
    decreases p.toks.len() - p.idx,
{
    if 0 <= p.idx < p.toks.len() && !p.toks[p.idx].0.spec_can_start_top_level_statement() {
        sp_skip_to_stmt(sp_advance(p))
    } else {
        p
    }
}

// ---------------------------------------------------------------------------
// Executable helpers
// ---------------------------------------------------------------------------
pub fn loc_copy(l: &LocationData) -> (r: LocationData)
    ensures
        r@ == l@,
{
    LocationData { file_name: bytes_clone(&l.file_name), start: l.start, end: l.end }
}

pub fn token_copy(t: &Token) -> (r: Token)
    ensures
        r@ == t@,
{
    match t {
        Token::Colon => Token::Colon,
        Token::Def => Token::Def,
        Token::Equals => Token::Equals,
        Token::Fn => Token::Fn,
        Token::Import => Token::Import,
        Token::Int => Token::Int,
        Token::Integer(x) => Token::Integer(*x),
        Token::Minus => Token::Minus,
        Token::Name(n) => Token::Name(bytes_clone(n)),
        Token::Plus => Token::Plus,
        Token::Print => Token::Print,
        Token::RightArrow => Token::RightArrow,
        Token::ParenLeft => Token::ParenLeft,
        Token::ParenRight => Token::ParenRight,
        Token::Unexpected(b) => Token::Unexpected(*b),
    }
}

impl Parser {
    fn new(file_name: Vec<u8>, tokens: Vec<(Token, LocationData)>) -> (r: Parser)
        ensures
            r@ == (SpecParser {
                toks: toks_view(tokens@),
                file: file_name@,
                idx: 0,
                next_id: 0,
                locs: Seq::<(ExprId, SpecLocation)>::empty(),
                errors: Seq::<SpecError>::empty(),
                tld: Seq::<(SpecTopLevelId, SpecMetaData)>::empty(),
            }),
    {
        let r = Parser {
            file_name,
            tokens,
            errors: Vec::new(),
            current_token_index: 0,
            next_expr_id: 0,
            top_level_data: Vec::new(),
            expr_locations: Vec::new(),
        };
        proof {
            assert(r@.locs =~= Seq::<(ExprId, SpecLocation)>::empty());
            assert(r@.errors =~= Seq::<SpecError>::empty());
            assert(r@.tld =~= Seq::<(SpecTopLevelId, SpecMetaData)>::empty());
        }
        r
    }

    /// The current location, or a fallback at the end or in an empty file.
    fn current_location(&self) -> (r: LocationData)
        ensures
            r@ == sp_cur_loc(self@),
    {
        if self.current_token_index < self.tokens.len() {
            loc_copy(&self.tokens[self.current_token_index].1)
        } else if self.tokens.len() > 0 {
            loc_copy(&self.tokens[self.tokens.len() - 1].1)
        } else {
            let position = Position { byte_index: 0, line_number: 1, column_number: 1 };
            LocationData {
                file_name: bytes_clone(&self.file_name),
                start: position,
                end: position,
            }
        }
    }

    /// The current token, cloned, or `None` at the end of input.
    fn current_token(&self) -> (r: Option<Token>)
        ensures
            match (r, sp_peek(self@)) {
                (Some(t), Some(st)) => t@ == st,
                (None, None) => true,
                _ => false,
            },
    {
        if self.current_token_index < self.tokens.len() {
            Some(token_copy(&self.tokens[self.current_token_index].0))
        } else {
            None
        }
    }

    fn advance(&mut self)
        requires
            old(self)@.idx < old(self)@.toks.len(),
        ensures
            final(self)@ == sp_advance(old(self)@),
    {
        let n = self.tokens.len();
        proof {
            assert(self@.toks.len() == self.tokens@.len());
        }
        self.current_token_index = self.current_token_index + 1;
    }

    /// Allocate the next expression id, recording its location.
    fn fresh_expr_id(&mut self, location: LocationData) -> (r: ExprId)
        ensures
            final(self)@ == sp_fresh(old(self)@, location@).0,
            r == sp_fresh(old(self)@, location@).1,
    {
        let id = ExprId(self.next_expr_id);
        if self.next_expr_id < u32::MAX {
            self.next_expr_id = self.next_expr_id + 1;
        }
        let ghost before = self@.locs;
        // replace an existing entry for this id, else append
        let n = self.expr_locations.len();
        let mut k: usize = 0;
        let mut found = false;
        while k < n && !found
            invariant
                n == self.expr_locations@.len(),
                0 <= k <= n,
                !found ==> forall|m: int|
                    0 <= m < k ==> (#[trigger] self.expr_locations@[m]).0 != id,
                found ==> k < n && self.expr_locations@[k as int].0 == id && forall|m: int|
                    0 <= m < k ==> (#[trigger] self.expr_locations@[m]).0 != id,
            decreases n - k, (if found { 0int } else { 1int }),
        {
            if self.expr_locations[k].0 == id {
                found = true;
            } else {
                k = k + 1;
            }
        }
        if found {
            self.expr_locations[k] = (id, location);
            proof {
                lemma_assoc_insert_at(before, id, location@, k as int);
                assert(self@.locs =~= assoc_insert(before, id, location@));
            }
        } else {
            self.expr_locations.push((id, location));
            proof {
                lemma_assoc_insert_absent(before, id, location@);
                assert(self@.locs =~= assoc_insert(before, id, location@));
            }
        }
        id
    }

    /// If the current token equals `t`, advance and return true.
    fn accept(&mut self, t: &Token) -> (r: bool)
        ensures
            final(self)@ == sp_accept(old(self)@, t@).0,
            r == sp_accept(old(self)@, t@).1,
    {
        if self.current_token_index < self.tokens.len() {
            if self.tokens[self.current_token_index].0.same_as(t) {
                self.advance();
                return true;
            }
        }
        false
    }

    /// Expect exactly token `t`, or report what was found instead.
    fn expect(&mut self, t: &Token) -> (r: Result<(), Error>)
        ensures
            final(self)@ == sp_expect(old(self)@, t@).0,
            res_view(r) == sp_expect(old(self)@, t@).1,
    {
        if self.accept(t) {
            Ok(())
        } else {
            let mut rule: Vec<u8> = Vec::new();
            rule.push(96u8);
            let text = t.text();
            crate::errors::append_vec(&mut rule, &text);
            rule.push(96u8);
            proof {
                assert(rule@ =~= sp_backtick(t@));
            }
            let found = self.current_token();
            let location = self.current_location();
            Err(Error::ParserExpected { rule, found, location })
        }
    }

    /// name: [a-zA-Z][a-zA-Z0-9_]*
    fn parse_name(&mut self) -> (r: Result<Identifier, Error>)
        ensures
            final(self)@ == sp_name(old(self)@).0,
            res_view(r) == sp_name(old(self)@).1,
            r is Ok ==> final(self)@.idx == old(self)@.idx + 1,
            r is Err ==> final(self)@ == old(self)@,
    {
        let is_name = if self.current_token_index < self.tokens.len() {
            matches!(&self.tokens[self.current_token_index].0, Token::Name(_))
        } else {
            false
        };
        if is_name {
            let location = self.current_location();
            let name = match &self.tokens[self.current_token_index].0 {
                Token::Name(n) => bytes_clone(n),
                _ => {
                    proof {
                        assert(false);
                    }
                    Vec::new()
                },
            };
            self.advance();
            let id = self.fresh_expr_id(location);
            Ok(Identifier { name, id })
        } else {
            let mut rule: Vec<u8> = Vec::new();
            crate::errors::append_bytes(&mut rule, "a name".as_bytes());
            proof {
                assert(rule@ =~= crate::errors::lit("a name"));
            }
            let found = self.current_token();
            let location = self.current_location();
            Err(Error::ParserExpected { rule, found, location })
        }
    }

    /// Skip tokens until one that can begin a top level statement.
    fn recover_to_next_top_level_statement(&mut self)
        ensures
            final(self)@ == sp_skip_to_stmt(old(self)@),
            final(self)@.idx >= old(self)@.idx,
            sp_wf(old(self)@) ==> sp_wf(final(self)@),
            sp_same_input(old(self)@, final(self)@),
            final(self)@.next_id == old(self)@.next_id,
            final(self)@.locs == old(self)@.locs,
            final(self)@.errors == old(self)@.errors,
            final(self)@.tld == old(self)@.tld,
    {
        loop
            invariant
                sp_skip_to_stmt(old(self)@) == sp_skip_to_stmt(self@),
                self@.idx >= old(self)@.idx,
                sp_same_input(old(self)@, self@),
                self@.next_id == old(self)@.next_id,
                self@.locs == old(self)@.locs,
                self@.errors == old(self)@.errors,
                self@.tld == old(self)@.tld,
                sp_wf(old(self)@) ==> sp_wf(self@),
                self@.idx <= self@.toks.len() || self@.idx == old(self)@.idx,
            ensures
                self@ == sp_skip_to_stmt(old(self)@),
                self@.idx >= old(self)@.idx,
                sp_wf(old(self)@) ==> sp_wf(self@),
                sp_same_input(old(self)@, self@),
                self@.next_id == old(self)@.next_id,
                self@.locs == old(self)@.locs,
                self@.errors == old(self)@.errors,
                self@.tld == old(self)@.tld,
            decreases self@.toks.len() - self@.idx + 1,
        {
            let stop = if self.current_token_index < self.tokens.len() {
                self.tokens[self.current_token_index].0.can_start_top_level_statement()
            } else {
                true
            };
            if stop {
                proof {
                    assert(sp_skip_to_stmt(self@) == self@);
                }
                break;
            }
            self.advance();
        }
    }
}

} // verus!

verus! {

// ---------------------------------------------------------------------------
// Expressions: specification
// ---------------------------------------------------------------------------
/// Frame of the expression parsers: they touch only the index, the id
/// counter and the recorded locations.
pub open spec fn sp_frame(a: SpecParser, b: SpecParser) -> bool {
    &&& sp_same_input(a, b)
    &&& a.errors == b.errors
    &&& a.tld == b.tld
    &&& b.idx >= a.idx
}

pub proof fn lemma_cur_loc_file(p: SpecParser)
    requires
        sp_wf(p),
    ensures
        sp_cur_loc(p).file_name == p.file,
{
}

/// Recovery stops only at a token that can begin a statement, or at the end.
pub proof fn lemma_skip_stops(p: SpecParser)
    ensures
        match sp_peek(sp_skip_to_stmt(p)) {
            Some(t) => t.spec_can_start_top_level_statement(),
            None => true,
        },
    decreases p.toks.len() - p.idx,
{
    if 0 <= p.idx < p.toks.len() && !p.toks[p.idx].0.spec_can_start_top_level_statement() {
        lemma_skip_stops(sp_advance(p));
    }
}

/// atom: name | integer | "(" expr ")"
pub open spec fn sp_atom(p: SpecParser, fuel: int) -> (SpecParser, Result<SpecExpr, SpecError>)
    decreases fuel, 2int,
{
    if fuel <= 0 {
        (p, Err(sp_expected(crate::errors::lit("an expression"), p)))
    } else {
        match sp_peek(p) {
            Some(SpecToken::Name(n)) => {
                let loc = sp_cur_loc(p);
                let (p1, id) = sp_fresh(p, loc);
                let p2 = sp_advance(p1);
                (p2, Ok(SpecExpr::Variable(SpecIdentifier { name: n, id })))
            },
            Some(SpecToken::Integer(x)) => {
                let loc = sp_cur_loc(p);
                let p1 = sp_advance(p);
                let (p2, id) = sp_fresh(p1, loc);
                (p2, Ok(SpecExpr::IntegerLiteral(x, id)))
            },
            Some(SpecToken::ParenLeft) => {
                let p1 = sp_advance(p);
                let (p2, r) = sp_expr(p1, fuel - 1);
                match r {
                    Ok(e) => {
                        let (p3, r2) = sp_expect(p2, SpecToken::ParenRight);
                        match r2 {
                            Ok(u) => (p3, Ok(e)),
                            Err(er) => (p3, Err(er)),
                        }
                    },
                    Err(er) => (p2, Err(er)),
                }
            },
            _ => (p, Err(sp_expected(crate::errors::lit("an expression"), p))),
        }
    }
}

/// call: atom atom*  (left associative application)
pub open spec fn sp_call(p: SpecParser, fuel: int) -> (SpecParser, Result<SpecExpr, SpecError>)
    decreases fuel, 3int,
{
    if fuel <= 0 {
        (p, Err(sp_expected(crate::errors::lit("an expression"), p)))
    } else {
        let start = sp_cur_loc(p);
        let (p1, r) = sp_atom(p, fuel - 1);
        match r {
            Err(e) => (p1, Err(e)),
            Ok(a) => sp_call_loop(p1, a, start, fuel - 1),
        }
    }
}

/// The argument loop of `call`; a failed argument parse ends the loop but its
/// state (consumed tokens, allocated ids) stands, as in the executable code.
pub open spec fn sp_call_loop(p: SpecParser, acc: SpecExpr, start: SpecLocation, fuel: int) -> (
    SpecParser,
    Result<SpecExpr, SpecError>,
)
    decreases fuel, 4int,
{
    if fuel <= 0 {
        (p, Ok(acc))
    } else {
        let (p1, r) = sp_atom(p, fuel - 1);
        match r {
            Err(e) => (p1, Ok(acc)),
            Ok(arg) => {
                let loc = sp_merge(start, sp_cur_loc(p1));
                let (p2, id) = sp_fresh(p1, loc);
                let acc2 = SpecExpr::FunctionCall {
                    function: Box::new(acc),
                    argument: Box::new(arg),
                    id,
                };
                sp_call_loop(p2, acc2, start, fuel - 1)
            },
        }
    }
}

/// infix: call (("+" | "-") call)*  (left associative; operators desugar to
/// curried calls of a variable named `+` or `-`)
pub open spec fn sp_infix(p: SpecParser, fuel: int) -> (SpecParser, Result<SpecExpr, SpecError>)
    decreases fuel, 5int,
{
    if fuel <= 0 {
        (p, Err(sp_expected(crate::errors::lit("an expression"), p)))
    } else {
        let start = sp_cur_loc(p);
        let (p1, r) = sp_call(p, fuel - 1);
        match r {
            Err(e) => (p1, Err(e)),
            Ok(e) => sp_infix_loop(p1, e, start, fuel - 1),
        }
    }
}

pub open spec fn sp_infix_loop(p: SpecParser, acc: SpecExpr, start: SpecLocation, fuel: int) -> (
    SpecParser,
    Result<SpecExpr, SpecError>,
)
    decreases fuel, 6int,
{
    if fuel <= 0 {
        (p, Ok(acc))
    } else {
        let op = sp_peek(p);
        if op == Some(SpecToken::Plus) || op == Some(SpecToken::Minus) {
            let op_name: Seq<u8> = if op == Some(SpecToken::Plus) {
                seq![43u8]
            } else {
                seq![45u8]
            };
            let operator_location = sp_cur_loc(p);
            let p1 = sp_advance(p);
            let (p2, id1) = sp_fresh(p1, operator_location);
            let function = SpecExpr::Variable(SpecIdentifier { name: op_name, id: id1 });
            let (p3, r) = sp_call(p2, fuel - 1);
            match r {
                Err(e) => (p3, Err(e)),
                Ok(rhs) => {
                    let call_location = sp_merge(start, sp_cur_loc(p3));
                    let (p4, id2) = sp_fresh(p3, call_location);
                    let call1 = SpecExpr::FunctionCall {
                        function: Box::new(function),
                        argument: Box::new(acc),
                        id: id2,
                    };
                    let (p5, id3) = sp_fresh(p4, call_location);
                    let acc2 = SpecExpr::FunctionCall {
                        function: Box::new(call1),
                        argument: Box::new(rhs),
                        id: id3,
                    };
                    sp_infix_loop(p5, acc2, start, fuel - 1)
                },
            }
        } else {
            (p, Ok(acc))
        }
    }
}

/// The optional extra parameters of a lambda: names accepted while they come.
pub open spec fn sp_params(p: SpecParser, acc: Seq<SpecIdentifier>, fuel: int) -> (
    SpecParser,
    Seq<SpecIdentifier>,
)
    decreases fuel, 0int,
{
    if fuel <= 0 {
        (p, acc)
    } else {
        let (p1, r) = sp_name(p);
        match r {
            Err(e) => (p1, acc),
            Ok(id) => sp_params(p1, acc.push(id), fuel - 1),
        }
    }
}

/// Currying: wrap the body once per parameter, innermost parameter first.
pub open spec fn sp_fold_lambda(
    p: SpecParser,
    params: Seq<SpecIdentifier>,
    body: SpecExpr,
    loc: SpecLocation,
) -> (SpecParser, SpecExpr)
    decreases params.len(),
{
    if params.len() == 0 {
        (p, body)
    } else {
        let (p1, id) = sp_fresh(p, loc);
        let body2 = SpecExpr::Lambda {
            parameter_name: params.last(),
            body: Box::new(body),
            id,
        };
        sp_fold_lambda(p1, params.drop_last(), body2, loc)
    }
}

/// lambda: "fn" name+ "->" expr  (multi-parameter lambdas are curried)
pub open spec fn sp_lambda(p: SpecParser, fuel: int) -> (SpecParser, Result<SpecExpr, SpecError>)
    decreases fuel, 7int,
{
    if fuel <= 0 {
        (p, Err(sp_expected(crate::errors::lit("an expression"), p)))
    } else {
        let start = sp_cur_loc(p);
        let (p1, r1) = sp_expect(p, SpecToken::Fn);
        match r1 {
            Err(e) => (p1, Err(e)),
            Ok(u) => {
                let (p2, r2) = sp_name(p1);
                match r2 {
                    Err(e) => (p2, Err(e)),
                    Ok(first) => {
                        let (p3, params) = sp_params(p2, seq![first], fuel - 1);
                        let (p4, r3) = sp_expect(p3, SpecToken::RightArrow);
                        match r3 {
                            Err(e) => (p4, Err(e)),
                            Ok(u2) => {
                                let (p5, r4) = sp_expr(p4, fuel - 1);
                                match r4 {
                                    Err(e) => (p5, Err(e)),
                                    Ok(body) => {
                                        let location = sp_merge(start, sp_cur_loc(p5));
                                        let (p6, e) = sp_fold_lambda(p5, params, body, location);
                                        (p6, Ok(e))
                                    },
                                }
                            },
                        }
                    },
                }
            },
        }
    }
}

/// expr: lambda | infix
pub open spec fn sp_expr(p: SpecParser, fuel: int) -> (SpecParser, Result<SpecExpr, SpecError>)
    decreases fuel, 8int,
{
    if fuel <= 0 {
        (p, Err(sp_expected(crate::errors::lit("an expression"), p)))
    } else {
        if sp_peek(p) == Some(SpecToken::Fn) {
            sp_lambda(p, fuel - 1)
        } else {
            sp_infix(p, fuel - 1)
        }
    }
}

/// basic_type: "Int" | name | "(" type ")"
pub open spec fn sp_basic_type(p: SpecParser, fuel: int) -> (
    SpecParser,
    Result<SpecAstType, SpecError>,
)
    decreases fuel, 0int,
{
    if fuel <= 0 {
        (p, Err(sp_expected(crate::errors::lit("a type"), p)))
    } else {
        match sp_peek(p) {
            Some(SpecToken::Int) => (sp_advance(p), Ok(SpecAstType::Int)),
            Some(SpecToken::Name(n)) => {
                let location = sp_cur_loc(p);
                let (p1, id) = sp_fresh(p, location);
                let p2 = sp_advance(p1);
                (p2, Ok(SpecAstType::Generic(SpecIdentifier { name: n, id })))
            },
            Some(SpecToken::ParenLeft) => {
                let p1 = sp_advance(p);
                let (p2, r) = sp_type(p1, fuel - 1);
                match r {
                    Err(e) => (p2, Err(e)),
                    Ok(t) => {
                        let (p3, r2) = sp_expect(p2, SpecToken::ParenRight);
                        match r2 {
                            Ok(u) => (p3, Ok(t)),
                            Err(er) => (p3, Err(er)),
                        }
                    },
                }
            },
            _ => (p, Err(sp_expected(crate::errors::lit("a type"), p))),
        }
    }
}

/// type: basic_type ("->" type)?  (right associative)
pub open spec fn sp_type(p: SpecParser, fuel: int) -> (SpecParser, Result<SpecAstType, SpecError>)
    decreases fuel, 1int,
{
    if fuel <= 0 {
        (p, Err(sp_expected(crate::errors::lit("a type"), p)))
    } else {
        let (p1, r) = sp_basic_type(p, fuel - 1);
        match r {
            Err(e) => (p1, Err(e)),
            Ok(t) => {
                let (p2, acc) = sp_accept(p1, SpecToken::RightArrow);
                if acc {
                    let (p3, r2) = sp_type(p2, fuel - 1);
                    match r2 {
                        Err(e) => (p3, Err(e)),
                        Ok(ret) => (
                            p3,
                            Ok(SpecAstType::Function {
                                parameter: Box::new(t),
                                return_type: Box::new(ret),
                            }),
                        ),
                    }
                } else {
                    (p2, Ok(t))
                }
            },
        }
    }
}

} // verus!

verus! {

impl Parser {
    /// atom: name | integer | "(" expr ")"
    fn parse_atom(&mut self, Ghost(fuel): Ghost<int>) -> (r: Result<Expression, Error>)
        requires
            sp_wf(old(self)@),
            fuel >= 8 * (old(self)@.toks.len() - old(self)@.idx) + 2,
        ensures
            sp_wf(final(self)@),
            sp_frame(old(self)@, final(self)@),
            final(self)@ == sp_atom(old(self)@, fuel).0,
            res_view(r) == sp_atom(old(self)@, fuel).1,
            r is Ok ==> final(self)@.idx > old(self)@.idx,
        decreases fuel, 2int,
    {
        let in_range = self.current_token_index < self.tokens.len();
        if in_range && matches!(&self.tokens[self.current_token_index].0, Token::Name(_)) {
            let location = self.current_location();
            let name = match &self.tokens[self.current_token_index].0 {
                Token::Name(n) => bytes_clone(n),
                _ => {
                    proof {
                        assert(false);
                    }
                    Vec::new()
                },
            };
            let id = self.fresh_expr_id(location);
            self.advance();
            Ok(Expression::Variable(Identifier { name, id }))
        } else if in_range && matches!(&self.tokens[self.current_token_index].0, Token::Integer(_)) {
            let location = self.current_location();
            let x = match &self.tokens[self.current_token_index].0 {
                Token::Integer(v) => *v,
                _ => {
                    proof {
                        assert(false);
                    }
                    0i64
                },
            };
            self.advance();
            let id = self.fresh_expr_id(location);
            Ok(Expression::IntegerLiteral(x, id))
        } else if in_range && matches!(&self.tokens[self.current_token_index].0, Token::ParenLeft) {
            self.advance();
            let e = self.parse_expr(Ghost(fuel - 1));
            match e {
                Ok(e) => {
                    match self.expect(&Token::ParenRight) {
                        Ok(_) => Ok(e),
                        Err(er) => Err(er),
                    }
                },
                Err(er) => Err(er),
            }
        } else {
            let mut rule: Vec<u8> = Vec::new();
            crate::errors::append_bytes(&mut rule, "an expression".as_bytes());
            proof {
                assert(rule@ =~= crate::errors::lit("an expression"));
            }
            let found = self.current_token();
            let location = self.current_location();
            Err(Error::ParserExpected { rule, found, location })
        }
    }

    /// call: atom atom*
    #[verifier::loop_isolation(false)]
    fn parse_call(&mut self, Ghost(fuel): Ghost<int>) -> (r: Result<Expression, Error>)
        requires
            sp_wf(old(self)@),
            fuel >= 8 * (old(self)@.toks.len() - old(self)@.idx) + 3,
        ensures
            sp_wf(final(self)@),
            sp_frame(old(self)@, final(self)@),
            final(self)@ == sp_call(old(self)@, fuel).0,
            res_view(r) == sp_call(old(self)@, fuel).1,
            r is Ok ==> final(self)@.idx > old(self)@.idx,
        decreases fuel, 3int,
    {
        let ghost target = sp_call(old(self)@, fuel);
        proof {
            lemma_cur_loc_file(old(self)@);
        }
        let start = self.current_location();
        let first = self.parse_atom(Ghost(fuel - 1));
        let mut acc = match first {
            Ok(e) => e,
            Err(e) => {
                return Err(e);
            },
        };
        let ghost mut lfuel: int = fuel - 1;
        proof {
            assert(target == sp_call_loop(self@, acc@, start@, fuel - 1));
        }
        let mut done = false;
        while !done
            invariant
                sp_wf(self@),
                sp_frame(old(self)@, self@),
                self@.idx > old(self)@.idx,
                lfuel < fuel,
                lfuel >= 8 * (self@.toks.len() - self@.idx) + 3,
                start@ == sp_cur_loc(old(self)@),
                !done ==> sp_call_loop(self@, acc@, start@, lfuel) == target,
                done ==> self@ == target.0 && target.1 == Ok::<SpecExpr, SpecError>(acc@),
            decreases lfuel, (if done { 0int } else { 1int }),
        {
            let ghost pre = self@;
            let ghost accv = acc@;
            let a = self.parse_atom(Ghost(lfuel - 1));
            match a {
                Err(_) => {
                    proof {
                        assert(sp_call_loop(pre, accv, start@, lfuel) == (self@, Ok::<
                            SpecExpr,
                            SpecError,
                        >(accv)));
                    }
                    done = true;
                },
                Ok(arg) => {
                    proof {
                        lemma_cur_loc_file(self@);
                    }
                    let location = start.to(&self.current_location());
                    let id = self.fresh_expr_id(location);
                    acc = Expression::FunctionCall {
                        function: Box::new(acc),
                        argument: Box::new(arg),
                        id,
                    };
                    proof {
                        assert(sp_call_loop(pre, accv, start@, lfuel) == sp_call_loop(
                            self@,
                            acc@,
                            start@,
                            lfuel - 1,
                        ));
                        lfuel = lfuel - 1;
                    }
                },
            }
        }
        Ok(acc)
    }

    /// infix: call (("+" | "-") call)*
    #[verifier::rlimit(60)]
    #[verifier::loop_isolation(false)]
    fn parse_infix_expr(&mut self, Ghost(fuel): Ghost<int>) -> (r: Result<Expression, Error>)
        requires
            sp_wf(old(self)@),
            fuel >= 8 * (old(self)@.toks.len() - old(self)@.idx) + 4,
        ensures
            sp_wf(final(self)@),
            sp_frame(old(self)@, final(self)@),
            final(self)@ == sp_infix(old(self)@, fuel).0,
            res_view(r) == sp_infix(old(self)@, fuel).1,
            r is Ok ==> final(self)@.idx > old(self)@.idx,
        decreases fuel, 5int,
    {
        let ghost target = sp_infix(old(self)@, fuel);
        proof {
            lemma_cur_loc_file(old(self)@);
        }
        let start = self.current_location();
        let first = self.parse_call(Ghost(fuel - 1));
        let mut acc = match first {
            Ok(e) => e,
            Err(e) => {
                return Err(e);
            },
        };
        let ghost mut lfuel: int = fuel - 1;
        proof {
            assert(target == sp_infix_loop(self@, acc@, start@, fuel - 1));
        }
        let mut done = false;
        while !done
            invariant
                sp_wf(self@),
                sp_frame(old(self)@, self@),
                self@.idx > old(self)@.idx,
                lfuel < fuel,
                lfuel >= 8 * (self@.toks.len() - self@.idx) + 4,
                start@ == sp_cur_loc(old(self)@),
                !done ==> sp_infix_loop(self@, acc@, start@, lfuel) == target,
                done ==> self@ == target.0 && target.1 == Ok::<SpecExpr, SpecError>(acc@),
            decreases lfuel, (if done { 0int } else { 1int }),
        {
            let ghost pre = self@;
            let ghost accv = acc@;
            let is_plus = self.current_token_index < self.tokens.len() && matches!(
                &self.tokens[self.current_token_index].0,
                Token::Plus,
            );
            let is_minus = self.current_token_index < self.tokens.len() && matches!(
                &self.tokens[self.current_token_index].0,
                Token::Minus,
            );
            if !(is_plus || is_minus) {
                proof {
                    assert(sp_infix_loop(pre, accv, start@, lfuel) == (pre, Ok::<
                        SpecExpr,
                        SpecError,
                    >(accv)));
                }
                done = true;
                continue;
            }
            proof {
                if is_plus {
                    assert(sp_peek(self@) == Some(SpecToken::Plus));
                } else {
                    assert(sp_peek(self@) == Some(SpecToken::Minus));
                }
            }
            let operator_location = self.current_location();
            self.advance();
            let id1 = self.fresh_expr_id(operator_location);
            let ghost p2g = self@;
            proof {
                assert(p2g == sp_fresh(sp_advance(pre), sp_cur_loc(pre)).0);
                assert(id1 == sp_fresh(sp_advance(pre), sp_cur_loc(pre)).1);
            }
            let mut op_name: Vec<u8> = Vec::new();
            if is_plus {
                op_name.push(43u8);
            } else {
                op_name.push(45u8);
            }
            proof {
                if is_plus {
                    assert(op_name@ =~= seq![43u8]);
                } else {
                    assert(op_name@ =~= seq![45u8]);
                }
            }
            let function = Expression::Variable(Identifier { name: op_name, id: id1 });
            let rhs = match self.parse_call(Ghost(lfuel - 1)) {
                Ok(e) => e,
                Err(e) => {
                    proof {
                        assert(self@ == sp_call(p2g, lfuel - 1).0);
                        assert(sp_call(p2g, lfuel - 1).1 == Err::<SpecExpr, SpecError>(e@));
                        assert(sp_infix_loop(pre, accv, start@, lfuel) == (self@, Err::<
                            SpecExpr,
                            SpecError,
                        >(e@)));
                    }
                    return Err(e);
                },
            };
            let ghost p3g = self@;
            proof {
                lemma_cur_loc_file(self@);
                assert(p3g == sp_call(p2g, lfuel - 1).0);
                assert(sp_call(p2g, lfuel - 1).1 == Ok::<SpecExpr, SpecError>(rhs@));
            }
            let call_location = start.to(&self.current_location());
            proof {
                assert(call_location@ == sp_merge(start@, sp_cur_loc(p3g)));
            }
            let id2 = self.fresh_expr_id(loc_copy(&call_location));
            let ghost p4g = self@;
            proof {
                assert(p4g == sp_fresh(p3g, call_location@).0);
                assert(id2 == sp_fresh(p3g, call_location@).1);
            }
            let call1 = Expression::FunctionCall {
                function: Box::new(function),
                argument: Box::new(acc),
                id: id2,
            };
            let id3 = self.fresh_expr_id(call_location);
            let ghost p5g = self@;
            proof {
                assert(p5g == sp_fresh(p4g, call_location@).0);
                assert(id3 == sp_fresh(p4g, call_location@).1);
            }
            acc = Expression::FunctionCall {
                function: Box::new(call1),
                argument: Box::new(rhs),
                id: id3,
            };
            proof {
                let ghost op_tok = sp_peek(pre);
                let ghost op_name_spec: Seq<u8> = if op_tok == Some(SpecToken::Plus) {
                    seq![43u8]
                } else {
                    seq![45u8]
                };
                assert(function@ == SpecExpr::Variable(
                    SpecIdentifier { name: op_name_spec, id: id1 },
                ));
                assert(call1@ == (SpecExpr::FunctionCall {
                    function: Box::new(SpecExpr::Variable(
                        SpecIdentifier { name: op_name_spec, id: id1 },
                    )),
                    argument: Box::new(accv),
                    id: id2,
                }));
                assert(acc@ == (SpecExpr::FunctionCall {
                    function: Box::new(SpecExpr::FunctionCall {
                        function: Box::new(SpecExpr::Variable(
                            SpecIdentifier { name: op_name_spec, id: id1 },
                        )),
                        argument: Box::new(accv),
                        id: id2,
                    }),
                    argument: Box::new(rhs@),
                    id: id3,
                }));
                assert(sp_infix_loop(pre, accv, start@, lfuel) == sp_infix_loop(
                    self@,
                    acc@,
                    start@,
                    lfuel - 1,
                ));
                lfuel = lfuel - 1;
            }
        }
        Ok(acc)
    }

    /// lambda: "fn" name+ "->" expr
    #[verifier::loop_isolation(false)]
    fn parse_lambda(&mut self, Ghost(fuel): Ghost<int>) -> (r: Result<Expression, Error>)
        requires
            sp_wf(old(self)@),
            fuel >= 8 * (old(self)@.toks.len() - old(self)@.idx) + 5,
        ensures
            sp_wf(final(self)@),
            sp_frame(old(self)@, final(self)@),
            final(self)@ == sp_lambda(old(self)@, fuel).0,
            res_view(r) == sp_lambda(old(self)@, fuel).1,
            r is Ok ==> final(self)@.idx > old(self)@.idx,
        decreases fuel, 7int,
    {
        let ghost target = sp_lambda(old(self)@, fuel);
        proof {
            lemma_cur_loc_file(old(self)@);
        }
        let start = self.current_location();
        match self.expect(&Token::Fn) {
            Ok(_) => {},
            Err(e) => {
                return Err(e);
            },
        }
        let first = match self.parse_name() {
            Ok(n) => n,
            Err(e) => {
                return Err(e);
            },
        };
        let mut parameters: Vec<Identifier> = Vec::new();
        parameters.push(first);
        let ghost p2 = self@;
        let ghost params0 = seq![first@];
        let ghost mut lfuel: int = fuel - 1;
        proof {
            assert(parameters@ =~= seq![first]);
        }
        let ghost mut pv: Seq<SpecIdentifier> = params0;
        let mut names_done = false;
        while !names_done
            invariant
                sp_wf(self@),
                sp_frame(old(self)@, self@),
                self@.idx > old(self)@.idx,
                lfuel >= (self@.toks.len() - self@.idx) + 1,
                pv.len() == parameters@.len(),
                forall|j: int| 0 <= j < pv.len() ==> pv[j] == (#[trigger] parameters@[j])@,
                !names_done ==> sp_params(self@, pv, lfuel) == sp_params(p2, params0, fuel - 1),
                names_done ==> (self@, pv) == sp_params(p2, params0, fuel - 1),
            decreases lfuel, (if names_done { 0int } else { 1int }),
        {
            let ghost pre = self@;
            let ghost pv0 = pv;
            match self.parse_name() {
                Ok(arg) => {
                    parameters.push(arg);
                    proof {
                        pv = pv.push(arg@);
                        assert(sp_params(pre, pv0, lfuel) == sp_params(self@, pv, lfuel - 1));
                        lfuel = lfuel - 1;
                    }
                },
                Err(_) => {
                    proof {
                        assert(sp_params(pre, pv0, lfuel) == (pre, pv0));
                    }
                    names_done = true;
                },
            }
        }
        match self.expect(&Token::RightArrow) {
            Ok(_) => {},
            Err(e) => {
                return Err(e);
            },
        }
        let body = match self.parse_expr(Ghost(fuel - 1)) {
            Ok(e) => e,
            Err(e) => {
                return Err(e);
            },
        };
        proof {
            lemma_cur_loc_file(self@);
        }
        let location = start.to(&self.current_location());
        // curry: wrap the body once per parameter, innermost first
        let ghost p5 = self@;
        let ghost body0 = body@;
        let ghost pvfull = pv;
        let mut expr = body;
        let mut k = parameters.len();
        proof {
            assert(pvfull.subrange(0, pvfull.len() as int) =~= pvfull);
        }
        while k > 0
            invariant
                sp_wf(self@),
                sp_frame(p5, self@),
                0 <= k <= parameters@.len(),
                pvfull.len() == parameters@.len(),
                sp_fold_lambda(
                    self@,
                    pvfull.subrange(0, k as int),
                    expr@,
                    sp_merge(start@, sp_cur_loc(p5)),
                ) == sp_fold_lambda(p5, pvfull, body0, sp_merge(start@, sp_cur_loc(p5))),
                location@ == sp_merge(start@, sp_cur_loc(p5)),
                self@.idx == p5.idx,
            decreases k,
        {
            let ghost pre = self@;
            let ghost pvk = pvfull.subrange(0, k as int);
            let ghost expr_pre = expr@;
            let parameter_name = match &parameters[k - 1] {
                i => Identifier { name: bytes_clone(&i.name), id: i.id },
            };
            let id = self.fresh_expr_id(loc_copy(&location));
            expr = Expression::Lambda { parameter_name, body: Box::new(expr), id };
            proof {
                assert(pvfull[k - 1] == parameters@[k - 1]@);
                assert(parameter_name@ == parameters@[k - 1]@);
                assert(pvk.last() == pvfull[k - 1]);
                assert(pvk.drop_last() =~= pvfull.subrange(0, k - 1));
                assert(parameter_name@ == pvfull[k - 1]);
                assert(expr@ == (SpecExpr::Lambda {
                    parameter_name: pvk.last(),
                    body: Box::new(expr_pre),
                    id: id,
                }));
                assert(sp_fold_lambda(pre, pvk, expr_pre, location@) == sp_fold_lambda(
                    self@,
                    pvfull.subrange(0, k - 1),
                    expr@,
                    location@,
                ));
            }
            k = k - 1;
        }
        proof {
            assert(pvfull.subrange(0, 0) =~= Seq::<SpecIdentifier>::empty());
        }
        Ok(expr)
    }

    /// expr: lambda | infix
    fn parse_expr(&mut self, Ghost(fuel): Ghost<int>) -> (r: Result<Expression, Error>)
        requires
            sp_wf(old(self)@),
            fuel >= 8 * (old(self)@.toks.len() - old(self)@.idx) + 6,
        ensures
            sp_wf(final(self)@),
            sp_frame(old(self)@, final(self)@),
            final(self)@ == sp_expr(old(self)@, fuel).0,
            res_view(r) == sp_expr(old(self)@, fuel).1,
            r is Ok ==> final(self)@.idx > old(self)@.idx,
        decreases fuel, 8int,
    {
        let is_fn = self.current_token_index < self.tokens.len() && matches!(
            &self.tokens[self.current_token_index].0,
            Token::Fn,
        );
        if is_fn {
            self.parse_lambda(Ghost(fuel - 1))
        } else {
            self.parse_infix_expr(Ghost(fuel - 1))
        }
    }

    /// basic_type: "Int" | name | "(" type ")"
    fn parse_basic_type(&mut self, Ghost(fuel): Ghost<int>) -> (r: Result<Type, Error>)
        requires
            sp_wf(old(self)@),
            fuel >= 8 * (old(self)@.toks.len() - old(self)@.idx) + 2,
        ensures
            sp_wf(final(self)@),
            sp_frame(old(self)@, final(self)@),
            final(self)@ == sp_basic_type(old(self)@, fuel).0,
            res_view(r) == sp_basic_type(old(self)@, fuel).1,
            r is Ok ==> final(self)@.idx > old(self)@.idx,
        decreases fuel, 0int,
    {
        let in_range = self.current_token_index < self.tokens.len();
        if in_range && matches!(&self.tokens[self.current_token_index].0, Token::Int) {
            self.advance();
            Ok(Type::Int)
        } else if in_range && matches!(&self.tokens[self.current_token_index].0, Token::Name(_)) {
            let location = self.current_location();
            let name = match &self.tokens[self.current_token_index].0 {
                Token::Name(n) => bytes_clone(n),
                _ => {
                    proof {
                        assert(false);
                    }
                    Vec::new()
                },
            };
            let id = self.fresh_expr_id(location);
            self.advance();
            Ok(Type::Generic(Identifier { name, id }))
        } else if in_range && matches!(&self.tokens[self.current_token_index].0, Token::ParenLeft) {
            self.advance();
            match self.parse_type(Ghost(fuel - 1)) {
                Ok(t) => {
                    match self.expect(&Token::ParenRight) {
                        Ok(_) => Ok(t),
                        Err(er) => Err(er),
                    }
                },
                Err(e) => Err(e),
            }
        } else {
            let mut rule: Vec<u8> = Vec::new();
            crate::errors::append_bytes(&mut rule, "a type".as_bytes());
            proof {
                assert(rule@ =~= crate::errors::lit("a type"));
            }
            let found = self.current_token();
            let location = self.current_location();
            Err(Error::ParserExpected { rule, found, location })
        }
    }

    /// type: basic_type ("->" type)?
    fn parse_type(&mut self, Ghost(fuel): Ghost<int>) -> (r: Result<Type, Error>)
        requires
            sp_wf(old(self)@),
            fuel >= 8 * (old(self)@.toks.len() - old(self)@.idx) + 3,
        ensures
            sp_wf(final(self)@),
            sp_frame(old(self)@, final(self)@),
            final(self)@ == sp_type(old(self)@, fuel).0,
            res_view(r) == sp_type(old(self)@, fuel).1,
            r is Ok ==> final(self)@.idx > old(self)@.idx,
        decreases fuel, 1int,
    {
        let t = match self.parse_basic_type(Ghost(fuel - 1)) {
            Ok(t) => t,
            Err(e) => {
                return Err(e);
            },
        };
        if self.accept(&Token::RightArrow) {
            match self.parse_type(Ghost(fuel - 1)) {
                Ok(ret) => Ok(
                    Type::Function { parameter: Box::new(t), return_type: Box::new(ret) },
                ),
                Err(e) => Err(e),
            }
        } else {
            Ok(t)
        }
    }
}

} // verus!

verus! {

// ---------------------------------------------------------------------------
// Statements: specification
// ---------------------------------------------------------------------------
/// Record the statement's span and its expression locations, and reset the
/// per-statement location table.
pub open spec fn sp_store_meta(p: SpecParser, id: SpecTopLevelId, loc: SpecLocation) -> SpecParser {
    SpecParser {
        tld: assoc_insert(
            p.tld,
            id,
            SpecMetaData { location: loc, expr_locations: p.locs },
        ),
        locs: Seq::empty(),
        ..p
    }
}

/// How many already-recorded statements of this file share this statement's
/// key parts.  The next duplicate of a defined or imported name — or of a
/// structurally equal printed expression — receives the next counter value,
/// so every statement's identity denotes at most one statement.
pub open spec fn sp_collision_from(
    tld: Seq<(SpecTopLevelId, SpecMetaData)>,
    i: int,
    file: Seq<u8>,
    kind: crate::ids::SpecTopLevelKind,
) -> u32
    decreases tld.len() - i,
{
    if i < 0 || i >= tld.len() {
        0
    } else {
        let rest = sp_collision_from(tld, i + 1, file, kind);
        if tld[i].0.file_path == file && tld[i].0.kind == kind {
            sat_u32(rest)
        } else {
            rest
        }
    }
}

/// definition: "def" name (":" type)? "=" expr
pub open spec fn sp_definition(p: SpecParser, fuel: int) -> (
    SpecParser,
    Result<SpecStatement, SpecError>,
) {
    let start = sp_cur_loc(p);
    let (p1, r1) = sp_expect(p, SpecToken::Def);
    match r1 {
        Err(e) => (p1, Err(e)),
        Ok(u) => {
            let (p2, r2) = sp_name(p1);
            match r2 {
                Err(e) => (p2, Err(e)),
                Ok(name) => {
                    let (p3, colon) = sp_accept(p2, SpecToken::Colon);
                    let (p4, rt) = if colon {
                        let (pa, rt0) = sp_type(p3, fuel - 1);
                        (
                            pa,
                            match rt0 {
                                Ok(t) => Ok(Some(t)),
                                Err(e) => Err(e),
                            },
                        )
                    } else {
                        (p3, Ok(None))
                    };
                    match rt {
                        Err(e) => (p4, Err(e)),
                        Ok(typ) => {
                            let (p5, r3) = sp_expect(p4, SpecToken::Equals);
                            match r3 {
                                Err(e) => (p5, Err(e)),
                                Ok(u2) => {
                                    let (p6, r4) = sp_expr(p5, fuel - 1);
                                    match r4 {
                                        Err(e) => (p6, Err(e)),
                                        Ok(body) => {
                                            let collision = sp_collision_from(
                                                p6.tld,
                                                0,
                                                p.file,
                                                crate::ids::SpecTopLevelKind::Definition {
                                                    name: name.name,
                                                },
                                            );
                                            let id = spec_definition_id(
                                                p.file,
                                                name.name,
                                                collision,
                                            );
                                            let location = sp_merge(start, sp_cur_loc(p6));
                                            let p7 = sp_store_meta(p6, id, location);
                                            (
                                                p7,
                                                Ok(SpecStatement::Definition(
                                                    SpecDefinition { name, typ, body, id },
                                                )),
                                            )
                                        },
                                    }
                                },
                            }
                        },
                    }
                },
            }
        },
    }
}

/// import: "import" name  (the file name is the imported name plus `.ex`)
pub open spec fn sp_import(p: SpecParser, fuel: int) -> (
    SpecParser,
    Result<SpecStatement, SpecError>,
) {
    let start = sp_cur_loc(p);
    let (p1, r1) = sp_expect(p, SpecToken::Import);
    match r1 {
        Err(e) => (p1, Err(e)),
        Ok(u) => {
            let (p2, r2) = sp_name(p1);
            match r2 {
                Err(e) => (p2, Err(e)),
                Ok(name) => {
                    let new_name = name.name + crate::errors::lit(".ex");
                    let collision = sp_collision_from(
                        p2.tld,
                        0,
                        p.file,
                        crate::ids::SpecTopLevelKind::Import { name: new_name },
                    );
                    let id = spec_import_id(p.file, new_name, collision);
                    let location = sp_merge(start, sp_cur_loc(p2));
                    let p3 = sp_store_meta(p2, id, location);
                    (
                        p3,
                        Ok(SpecStatement::Import {
                            file_name: SpecIdentifier { name: new_name, id: name.id },
                            id,
                        }),
                    )
                },
            }
        },
    }
}

/// print: "print" expr  (identified by the printed expression itself)
pub open spec fn sp_print(p: SpecParser, fuel: int) -> (
    SpecParser,
    Result<SpecStatement, SpecError>,
) {
    let start = sp_cur_loc(p);
    let (p1, r1) = sp_expect(p, SpecToken::Print);
    match r1 {
        Err(e) => (p1, Err(e)),
        Ok(u) => {
            let (p2, r2) = sp_expr(p1, fuel - 1);
            match r2 {
                Err(e) => (p2, Err(e)),
                Ok(body) => {
                    let location = sp_merge(start, sp_cur_loc(p2));
                    let collision = sp_collision_from(
                        p2.tld,
                        0,
                        p.file,
                        crate::ids::SpecTopLevelKind::Print { summary: body },
                    );
                    let id = spec_print_id(p.file, body, collision);
                    let p3 = sp_store_meta(p2, id, location);
                    (p3, Ok(SpecStatement::Print(body, id)))
                },
            }
        },
    }
}

/// One top level statement; the expression-id counter restarts here.
pub open spec fn sp_statement(p: SpecParser, fuel: int) -> (
    SpecParser,
    Result<SpecStatement, SpecError>,
) {
    let p0 = SpecParser { next_id: 0, ..p };
    match sp_peek(p0) {
        Some(SpecToken::Def) => sp_definition(p0, fuel - 1),
        Some(SpecToken::Import) => sp_import(p0, fuel - 1),
        Some(SpecToken::Print) => sp_print(p0, fuel - 1),
        _ => (p0, Err(sp_expected(crate::errors::lit("top level statement"), p0))),
    }
}

/// All top level statements; on a failure, record the error and skip to the
/// next token that can begin a statement.
pub open spec fn sp_statements(p: SpecParser, fuel: int) -> (SpecParser, Seq<SpecStatement>)
    decreases fuel,
{
    if fuel <= 0 {
        (p, Seq::empty())
    } else {
        match sp_peek(p) {
            None => (p, Seq::empty()),
            Some(t) => {
                let q = if !t.spec_can_start_top_level_statement() {
                    sp_skip_to_stmt(
                        sp_push_error(p, sp_expected(crate::errors::lit("top level statement"), p)),
                    )
                } else {
                    p
                };
                if sp_peek(q) is None {
                    (q, Seq::empty())
                } else {
                    let (q1, r) = sp_statement(q, fuel - 1);
                    match r {
                        Ok(s) => {
                            let (q2, rest) = sp_statements(q1, fuel - 1);
                            (q2, seq![s] + rest)
                        },
                        Err(e) => {
                            let q2 = sp_skip_to_stmt(sp_push_error(q1, e));
                            sp_statements(q2, fuel - 1)
                        },
                    }
                }
            },
        }
    }
}

/// A whole file.
pub open spec fn sp_parse(p: SpecParser, fuel: int) -> (SpecParser, Seq<SpecStatement>) {
    let (p1, stmts) = sp_statements(p, fuel);
    let p2 = if sp_peek(p1) is Some {
        sp_push_error(p1, sp_expected(crate::errors::lit("top level statement"), p1))
    } else {
        p1
    };
    (p2, stmts)
}

/// The canonical fuel: ample for the whole token list.
pub open spec fn sp_parse_fuel(n: int) -> int {
    8 * n + 32
}

/// What parsing a file produces, from its name and text alone.
pub open spec fn sp_parse_impl(file: Seq<u8>, text: Seq<u8>) -> SpecParserResult {
    let toks = spec_lex(file, text);
    let p0 = SpecParser {
        toks: toks,
        file: file,
        idx: 0,
        next_id: 0,
        locs: Seq::empty(),
        errors: Seq::empty(),
        tld: Seq::empty(),
    };
    let (p1, stmts) = sp_parse(p0, sp_parse_fuel(toks.len() as int));
    SpecParserResult {
        ast: SpecProgram { statements: stmts },
        errors: p1.errors,
        top_level_data: p1.tld,
    }
}

} // verus!

verus! {

impl Parser {
    /// Record a diagnostic.
    fn push_error(&mut self, e: Error)
        ensures
            final(self)@ == sp_push_error(old(self)@, e@),
    {
        self.errors.push(e);
        proof {
            assert(errs_view(self.errors@) =~= errs_view(old(self).errors@) + seq![e@]);
        }
    }

    /// The "expected a top level statement here" diagnostic.
    fn expected_top_level_statement(&self) -> (r: Error)
        ensures
            r@ == sp_expected(crate::errors::lit("top level statement"), self@),
    {
        let mut rule: Vec<u8> = Vec::new();
        crate::errors::append_bytes(&mut rule, "top level statement".as_bytes());
        proof {
            assert(rule@ =~= crate::errors::lit("top level statement"));
        }
        let found = self.current_token();
        let location = self.current_location();
        Error::ParserExpected { rule, found, location }
    }

    /// How many recorded statements already carry this statement's key
    /// parts; the new statement takes this value as its collision counter.
    fn count_collisions(&self, kind: &crate::ids::TopLevelKind) -> (r: u32)
        ensures
            r == sp_collision_from(self@.tld, 0, self@.file, kind@),
    {
        let n = self.top_level_data.len();
        let mut r: u32 = 0;
        let mut k: usize = n;
        proof {
            assert(self@.tld.len() == n);
        }
        while k > 0
            invariant
                n == self.top_level_data@.len(),
                0 <= k <= n,
                r == sp_collision_from(self@.tld, k as int, self@.file, kind@),
            decreases k,
        {
            k = k - 1;
            proof {
                assert(self@.tld[k as int] == (
                    self.top_level_data@[k as int].0@,
                    self.top_level_data@[k as int].1@,
                ));
            }
            let matches_key = crate::errors::bytes_eq(
                &self.top_level_data[k].0.file_path,
                &self.file_name,
            ) && self.top_level_data[k].0.kind.same_as(kind);
            if matches_key {
                if r < u32::MAX {
                    r = r + 1;
                }
            }
        }
        r
    }

    /// Store the metadata of a finished statement and reset the location
    /// table for the next one.
    fn store_top_level_metadata(&mut self, id: TopLevelId, location: LocationData)
        ensures
            final(self)@ == sp_store_meta(old(self)@, id@, location@),
    {
        let mut expr_locations: Vec<(ExprId, LocationData)> = Vec::new();
        let n = self.expr_locations.len();
        let mut i: usize = 0;
        while i < n
            invariant
                n == self.expr_locations@.len(),
                0 <= i <= n,
                expr_locations@.len() == i,
                forall|j: int|
                    0 <= j < i ==> (#[trigger] expr_locations@[j]).0
                        == self.expr_locations@[j].0 && expr_locations@[j].1@
                        == self.expr_locations@[j].1@,
                self@ == old(self)@,
            decreases n - i,
        {
            let entry_id = self.expr_locations[i].0;
            let entry_loc = loc_copy(&self.expr_locations[i].1);
            expr_locations.push((entry_id, entry_loc));
            i = i + 1;
        }
        proof {
            assert(locs_view(expr_locations@) =~= old(self)@.locs);
        }
        self.expr_locations.clear();
        proof {
            assert(locs_view(self.expr_locations@) =~= Seq::<(ExprId, SpecLocation)>::empty());
        }
        let meta = TopLevelMetaData { location, expr_locations };
        let ghost before = self@.tld;
        let m = self.top_level_data.len();
        let mut k: usize = 0;
        let mut found = false;
        while k < m && !found
            invariant
                m == self.top_level_data@.len(),
                0 <= k <= m,
                !found ==> forall|j: int|
                    0 <= j < k ==> (#[trigger] self.top_level_data@[j]).0@ != id@,
                found ==> k < m && self.top_level_data@[k as int].0@ == id@ && forall|j: int|
                    0 <= j < k ==> (#[trigger] self.top_level_data@[j]).0@ != id@,
                self.expr_locations@.len() == 0,
            decreases m - k, (if found { 0int } else { 1int }),
        {
            if self.top_level_data[k].0.same_as(&id) {
                found = true;
            } else {
                k = k + 1;
            }
        }
        if found {
            self.top_level_data[k] = (id, meta);
            proof {
                lemma_assoc_insert_at(before, id@, meta@, k as int);
                assert(tld_view(self.top_level_data@) =~= assoc_insert(before, id@, meta@));
            }
        } else {
            self.top_level_data.push((id, meta));
            proof {
                lemma_assoc_insert_absent(before, id@, meta@);
                assert(tld_view(self.top_level_data@) =~= assoc_insert(before, id@, meta@));
            }
        }
    }
}

} // verus!

verus! {

impl Parser {
    /// definition: "def" name (":" type)? "=" expr
    fn parse_definition(&mut self, Ghost(fuel): Ghost<int>) -> (r: Result<TopLevelStatement, Error>)
        requires
            sp_wf(old(self)@),
            fuel >= 8 * (old(self)@.toks.len() - old(self)@.idx) + 7,
        ensures
            sp_wf(final(self)@),
            sp_same_input(old(self)@, final(self)@),
            final(self)@.errors == old(self)@.errors,
            final(self)@.idx >= old(self)@.idx,
            final(self)@ == sp_definition(old(self)@, fuel).0,
            res_view(r) == sp_definition(old(self)@, fuel).1,
            sp_peek(old(self)@) == Some(SpecToken::Def) ==> final(self)@.idx > old(self)@.idx,
    {
        let ghost target = sp_definition(old(self)@, fuel);
        proof {
            lemma_cur_loc_file(old(self)@);
        }
        let start = self.current_location();
        match self.expect(&Token::Def) {
            Ok(_) => {},
            Err(e) => {
                return Err(e);
            },
        }
        let name = match self.parse_name() {
            Ok(n) => n,
            Err(e) => {
                return Err(e);
            },
        };
        let ghost p2 = self@;
        let mut typ: Option<Type> = None;
        let colon = self.accept(&Token::Colon);
        if colon {
            match self.parse_type(Ghost(fuel - 1)) {
                Ok(t) => {
                    typ = Some(t);
                },
                Err(e) => {
                    proof {
                        assert(target.0 == self@);
                        assert(target.1 == Err::<SpecStatement, SpecError>(e@));
                    }
                    return Err(e);
                },
            }
        }
        let ghost p4 = self@;
        proof {
            let (p3s, colon_s) = sp_accept(p2, SpecToken::Colon);
            assert(colon_s == colon);
            if colon {
                assert(p4 == sp_type(p3s, fuel - 1).0);
            } else {
                assert(p4 == p3s);
            }
            match &typ {
                Some(t) => assert(sp_type(p3s, fuel - 1).1 == Ok::<SpecAstType, SpecError>(t@)),
                None => assert(!colon),
            }
        }
        match self.expect(&Token::Equals) {
            Ok(_) => {},
            Err(e) => {
                return Err(e);
            },
        }
        let body = match self.parse_expr(Ghost(fuel - 1)) {
            Ok(e) => e,
            Err(e) => {
                return Err(e);
            },
        };
        let ghost p6 = self@;
        proof {
            lemma_cur_loc_file(self@);
        }
        let location = start.to(&self.current_location());
        let kind_probe = crate::ids::TopLevelKind::Definition {
            name: crate::errors::bytes_clone(&name.name),
        };
        let collision = self.count_collisions(&kind_probe);
        let file_path = crate::errors::bytes_clone(&self.file_name);
        let id = TopLevelId::new_definition(file_path, &name.name, collision);
        let id_for_meta = id.copied();
        self.store_top_level_metadata(id_for_meta, location);
        let stmt = TopLevelStatement::Definition(
            Definition { name, typ, body: Box::new(body), id },
        );
        proof {
            assert(self@ == target.0);
            assert(res_view(Ok::<TopLevelStatement, Error>(stmt)) == target.1);
        }
        Ok(stmt)
    }

    /// import: "import" name
    fn parse_import(&mut self, Ghost(fuel): Ghost<int>) -> (r: Result<TopLevelStatement, Error>)
        requires
            sp_wf(old(self)@),
            fuel >= 8 * (old(self)@.toks.len() - old(self)@.idx) + 7,
        ensures
            sp_wf(final(self)@),
            sp_same_input(old(self)@, final(self)@),
            final(self)@.errors == old(self)@.errors,
            final(self)@.idx >= old(self)@.idx,
            final(self)@ == sp_import(old(self)@, fuel).0,
            res_view(r) == sp_import(old(self)@, fuel).1,
            sp_peek(old(self)@) == Some(SpecToken::Import) ==> final(self)@.idx > old(self)@.idx,
    {
        let ghost target = sp_import(old(self)@, fuel);
        proof {
            lemma_cur_loc_file(old(self)@);
        }
        let start = self.current_location();
        match self.expect(&Token::Import) {
            Ok(_) => {},
            Err(e) => {
                return Err(e);
            },
        }
        let name = match self.parse_name() {
            Ok(n) => n,
            Err(e) => {
                return Err(e);
            },
        };
        // the module name plus the `.ex` suffix is the file name
        let mut file_name_bytes = name.name;
        crate::errors::append_bytes(&mut file_name_bytes, ".ex".as_bytes());
        let kind_probe = crate::ids::TopLevelKind::Import {
            name: crate::errors::bytes_clone(&file_name_bytes),
        };
        let collision = self.count_collisions(&kind_probe);
        let file_path = crate::errors::bytes_clone(&self.file_name);
        let id = TopLevelId::new_import(file_path, &file_name_bytes, collision);
        proof {
            lemma_cur_loc_file(self@);
        }
        let location = start.to(&self.current_location());
        let id_for_meta = id.copied();
        self.store_top_level_metadata(id_for_meta, location);
        let stmt = TopLevelStatement::Import {
            file_name: Identifier { name: file_name_bytes, id: name.id },
            id,
        };
        proof {
            assert(self@ == target.0);
            assert(res_view(Ok::<TopLevelStatement, Error>(stmt)) == target.1);
        }
        Ok(stmt)
    }

    /// print: "print" expr
    fn parse_print(&mut self, Ghost(fuel): Ghost<int>) -> (r: Result<TopLevelStatement, Error>)
        requires
            sp_wf(old(self)@),
            fuel >= 8 * (old(self)@.toks.len() - old(self)@.idx) + 7,
        ensures
            sp_wf(final(self)@),
            sp_same_input(old(self)@, final(self)@),
            final(self)@.errors == old(self)@.errors,
            final(self)@.idx >= old(self)@.idx,
            final(self)@ == sp_print(old(self)@, fuel).0,
            res_view(r) == sp_print(old(self)@, fuel).1,
            sp_peek(old(self)@) == Some(SpecToken::Print) ==> final(self)@.idx > old(self)@.idx,
    {
        let ghost target = sp_print(old(self)@, fuel);
        proof {
            lemma_cur_loc_file(old(self)@);
        }
        let start = self.current_location();
        match self.expect(&Token::Print) {
            Ok(_) => {},
            Err(e) => {
                return Err(e);
            },
        }
        let body = match self.parse_expr(Ghost(fuel - 1)) {
            Ok(e) => e,
            Err(e) => {
                return Err(e);
            },
        };
        proof {
            lemma_cur_loc_file(self@);
        }
        let location = start.to(&self.current_location());
        let kind_probe = crate::ids::TopLevelKind::Print {
            summary: Box::new(crate::ast::expr_copy(&body)),
        };
        let collision = self.count_collisions(&kind_probe);
        let file_path = crate::errors::bytes_clone(&self.file_name);
        let id = TopLevelId::new_print(file_path, &body, collision);
        let id_for_meta = id.copied();
        self.store_top_level_metadata(id_for_meta, location);
        let stmt = TopLevelStatement::Print(Box::new(body), id);
        proof {
            assert(self@ == target.0);
            assert(res_view(Ok::<TopLevelStatement, Error>(stmt)) == target.1);
        }
        Ok(stmt)
    }

    /// One top level statement; resets the expression-id counter first.
    fn parse_top_level_statement(&mut self, Ghost(fuel): Ghost<int>) -> (r: Result<
        TopLevelStatement,
        Error,
    >)
        requires
            sp_wf(old(self)@),
            fuel >= 8 * (old(self)@.toks.len() - old(self)@.idx) + 8,
        ensures
            sp_wf(final(self)@),
            sp_same_input(old(self)@, final(self)@),
            final(self)@.errors == old(self)@.errors,
            final(self)@.idx >= old(self)@.idx,
            final(self)@ == sp_statement(old(self)@, fuel).0,
            res_view(r) == sp_statement(old(self)@, fuel).1,
            (match sp_peek(old(self)@) {
                Some(t) => t.spec_can_start_top_level_statement(),
                None => false,
            }) ==> final(self)@.idx > old(self)@.idx,
    {
        self.next_expr_id = 0;
        proof {
            assert(self@ == (SpecParser { next_id: 0, ..old(self)@ }));
        }
        let in_range = self.current_token_index < self.tokens.len();
        if in_range && matches!(&self.tokens[self.current_token_index].0, Token::Def) {
            self.parse_definition(Ghost(fuel - 1))
        } else if in_range && matches!(&self.tokens[self.current_token_index].0, Token::Import) {
            self.parse_import(Ghost(fuel - 1))
        } else if in_range && matches!(&self.tokens[self.current_token_index].0, Token::Print) {
            self.parse_print(Ghost(fuel - 1))
        } else {
            let e = self.expected_top_level_statement();
            Err(e)
        }
    }
}

} // verus!

verus! {

impl Parser {
    /// Parse every top level statement, recovering after failures.
    #[verifier::loop_isolation(false)]
    #[verifier::rlimit(60)]
    fn parse_top_level_statements(&mut self, Ghost(fuel): Ghost<int>) -> (r: Vec<
        TopLevelStatement,
    >)
        requires
            sp_wf(old(self)@),
            fuel >= 8 * (old(self)@.toks.len() - old(self)@.idx) + 9,
        ensures
            sp_wf(final(self)@),
            sp_same_input(old(self)@, final(self)@),
            final(self)@.idx >= old(self)@.idx,
            final(self)@ == sp_statements(old(self)@, fuel).0,
            stmts_view(r@) == sp_statements(old(self)@, fuel).1,
    {
        let ghost target = sp_statements(old(self)@, fuel);
        let mut statements: Vec<TopLevelStatement> = Vec::new();
        let ghost mut sv: Seq<SpecStatement> = Seq::empty();
        let ghost mut lfuel: int = fuel;
        let mut done = false;
        while !done
            invariant
                sp_wf(self@),
                sp_same_input(old(self)@, self@),
                self@.idx >= old(self)@.idx,
                lfuel <= fuel,
                lfuel >= 8 * (self@.toks.len() - self@.idx) + 9,
                sv.len() == statements@.len(),
                forall|j: int| 0 <= j < sv.len() ==> (#[trigger] statements@[j])@ == sv[j],
                !done ==> target.0 == sp_statements(self@, lfuel).0 && target.1 == sv
                    + sp_statements(self@, lfuel).1,
                done ==> self@ == target.0 && sv == target.1,
            decreases lfuel, (if done { 0int } else { 1int }),
        {
            let ghost pre = self@;
            let ghost sv0 = sv;
            let in_range = self.current_token_index < self.tokens.len();
            if !in_range {
                proof {
                    assert(sp_statements(pre, lfuel) == (pre, Seq::<SpecStatement>::empty()));
                    assert(sv + Seq::<SpecStatement>::empty() =~= sv);
                }
                done = true;
                continue;
            }
            let can_start = self.tokens[
                self.current_token_index
            ].0.can_start_top_level_statement();
            if !can_start {
                let e = self.expected_top_level_statement();
                self.push_error(e);
                self.recover_to_next_top_level_statement();
                let still = self.current_token_index < self.tokens.len();
                if !still {
                    proof {
                        assert(sp_peek(self@) is None);
                        assert(self@ == sp_skip_to_stmt(
                            sp_push_error(
                                pre,
                                sp_expected(crate::errors::lit("top level statement"), pre),
                            ),
                        ));
                        assert(sp_statements(pre, lfuel).0 == self@);
                        assert(sp_statements(pre, lfuel).1 =~= Seq::<SpecStatement>::empty());
                        assert(sv + Seq::<SpecStatement>::empty() =~= sv);
                    }
                    done = true;
                    continue;
                }
            }
            let ghost q = self@;
            proof {
                assert(sp_peek(q) is Some);
                if !can_start {
                    lemma_skip_stops(
                        sp_push_error(
                            pre,
                            sp_expected(crate::errors::lit("top level statement"), pre),
                        ),
                    );
                } else {
                    assert(sp_peek(q) == Some(q.toks[q.idx].0));
                }
                assert(match sp_peek(q) {
                    Some(t) => t.spec_can_start_top_level_statement(),
                    None => false,
                });
            }
            let parsed = self.parse_top_level_statement(Ghost(lfuel - 1));
            match parsed {
                Ok(s) => {
                    proof {
                        sv = sv.push(s@);
                    }
                    statements.push(s);
                    proof {
                        let srest = sp_statements(self@, lfuel - 1).1;
                        assert(sp_statements(pre, lfuel).0 == sp_statements(self@, lfuel - 1).0);
                        assert(sp_statements(pre, lfuel).1 == seq![sv.last()] + srest);
                        assert(sv0 + (seq![sv.last()] + srest) =~= sv + srest);
                        lfuel = lfuel - 1;
                    }
                },
                Err(e) => {
                    self.push_error(e);
                    self.recover_to_next_top_level_statement();
                    proof {
                        assert(sp_statements(pre, lfuel).0 == sp_statements(self@, lfuel - 1).0);
                        assert(sp_statements(pre, lfuel).1 == sp_statements(self@, lfuel - 1).1);
                        lfuel = lfuel - 1;
                    }
                },
            }
        }
        proof {
            assert(stmts_view(statements@) =~= sv);
        }
        statements
    }

    /// Parse the whole program.
    fn parse(&mut self, Ghost(fuel): Ghost<int>) -> (r: Program)
        requires
            sp_wf(old(self)@),
            fuel >= 8 * (old(self)@.toks.len() - old(self)@.idx) + 9,
        ensures
            sp_wf(final(self)@),
            sp_same_input(old(self)@, final(self)@),
            final(self)@ == sp_parse(old(self)@, fuel).0,
            r@ == (SpecProgram { statements: sp_parse(old(self)@, fuel).1 }),
    {
        let statements = self.parse_top_level_statements(Ghost(fuel));
        let trailing = self.current_token_index < self.tokens.len();
        if trailing {
            // unparsed input remains
            let e = self.expected_top_level_statement();
            self.push_error(e);
        }
        let r = Program { statements };
        proof {
            assert(r@.statements == sp_parse(old(self)@, fuel).1);
        }
        r
    }
}

/// Parse one file: its name (used in locations and ids) and its text.
pub fn parse_impl(file_name: &Vec<u8>, source_text: &Vec<u8>) -> (r: ParserResult)
    ensures
        r@ == sp_parse_impl(file_name@, source_text@),
{
    let tokens = lex_file(file_name, source_text);
    let file_copy = crate::errors::bytes_clone(file_name);
    let mut parser = Parser::new(file_copy, tokens);
    proof {
        crate::lexer::lemma_lex_file_names(
            file_name@,
            source_text@,
            0,
            Position { byte_index: 0, line_number: 1, column_number: 1 },
        );
        assert(sp_wf(parser@));
    }
    let ghost fuel = sp_parse_fuel(parser@.toks.len() as int);
    let ast = parser.parse(Ghost(fuel));
    let ghost pf = parser@;
    let r = ParserResult {
        ast,
        errors: parser.errors,
        top_level_data: parser.top_level_data,
    };
    proof {
        assert(r@.errors == pf.errors);
        assert(r@.top_level_data == pf.tld);
    }
    r
}

} // verus!
