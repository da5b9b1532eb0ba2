//! Source positions, locations, and every diagnostic the compiler can issue,
//! together with small byte-string helpers used across the crate.
//!
//! Diagnostics are values carried alongside results, never thrown: every pass
//! produces `(value, errors)` and downstream passes union errors into their
//! own output.

use vstd::prelude::*;
use vstd::string::StringSliceAdditionalSpecFns;

use crate::tokens::{SpecToken, Token};

verus! {

/// A position in a source file, counted in bytes, lines and columns.
#[derive(Clone, Copy, PartialEq, Eq, Structural, Debug)]
pub struct Position {
    pub byte_index: usize,
    pub line_number: u32,
    pub column_number: u32,
}

impl Position {
    /// The position of the first byte of a file.
    pub fn start() -> (r: Position)
        ensures
            r == (Position { byte_index: 0, line_number: 1, column_number: 1 }),
    {
        Position { byte_index: 0, line_number: 1, column_number: 1 }
    }
}

/// A span inside one file.
#[derive(Clone, Debug)]
pub struct LocationData {
    pub file_name: Vec<u8>,
    pub start: Position,
    pub end: Position,
}

/// Model of a [`LocationData`]: the file name as a byte sequence.
pub ghost struct SpecLocation {
    pub file_name: Seq<u8>,
    pub start: Position,
    pub end: Position,
}

impl View for LocationData {
    type V = SpecLocation;

    open spec fn view(&self) -> SpecLocation {
        SpecLocation { file_name: self.file_name@, start: self.start, end: self.end }
    }
}

impl LocationData {
    /// Merge two spans of the same file into one that covers both.
    pub fn to(&self, end: &LocationData) -> (r: LocationData)
        requires
            self@.file_name == end@.file_name,
        ensures
            r@ == (SpecLocation { file_name: self@.file_name, start: self.start, end: end.end }),
    {
        LocationData { file_name: bytes_clone(&self.file_name), start: self.start, end: end.end }
    }

    /// Structural equality over the models.
    pub fn same_as(&self, other: &LocationData) -> (r: bool)
        ensures
            r == (self@ == other@),
    {
        let r = bytes_eq(&self.file_name, &other.file_name) && pos_eq(self.start, other.start)
            && pos_eq(self.end, other.end);
        proof {
            if r {
                assert(self@ == other@);
            }
        }
        r
    }
}

pub fn pos_eq(a: Position, b: Position) -> (r: bool)
    ensures
        r == (a == b),
{
    a.byte_index == b.byte_index && a.line_number == b.line_number && a.column_number
        == b.column_number
}

/// The list of diagnostics a pass hands back.
pub type Errors = Vec<Error>;

/// Any diagnostic that the compiler can issue.
#[derive(Clone, Debug)]
pub enum Error {
    ParserExpected { rule: Vec<u8>, found: Option<Token>, location: LocationData },
    NameAlreadyInScope { name: Vec<u8>, first_location: LocationData, second_location: LocationData },
    ImportedNameAlreadyInScope {
        name: Vec<u8>,
        first_location: LocationData,
        second_location: LocationData,
    },
    UnknownImportFile { file_name: Vec<u8>, location: LocationData },
    NameNotInScope { name: Vec<u8>, location: LocationData },
    ExpectedType { actual: Vec<u8>, expected: Vec<u8>, location: LocationData },
    RecursiveType { typ: Vec<u8>, location: LocationData },
}

/// Model of an [`Error`].
pub ghost enum SpecError {
    ParserExpected { rule: Seq<u8>, found: Option<SpecToken>, location: SpecLocation },
    NameAlreadyInScope { name: Seq<u8>, first_location: SpecLocation, second_location: SpecLocation },
    ImportedNameAlreadyInScope {
        name: Seq<u8>,
        first_location: SpecLocation,
        second_location: SpecLocation,
    },
    UnknownImportFile { file_name: Seq<u8>, location: SpecLocation },
    NameNotInScope { name: Seq<u8>, location: SpecLocation },
    ExpectedType { actual: Seq<u8>, expected: Seq<u8>, location: SpecLocation },
    RecursiveType { typ: Seq<u8>, location: SpecLocation },
}

impl View for Error {
    type V = SpecError;

    open spec fn view(&self) -> SpecError {
        match self {
            Error::ParserExpected { rule, found, location } => SpecError::ParserExpected {
                rule: rule@,
                found: match found {
                    Some(t) => Some(t@),
                    None => None,
                },
                location: location@,
            },
            Error::NameAlreadyInScope { name, first_location, second_location } => {
                SpecError::NameAlreadyInScope {
                    name: name@,
                    first_location: first_location@,
                    second_location: second_location@,
                }
            },
            Error::ImportedNameAlreadyInScope { name, first_location, second_location } => {
                SpecError::ImportedNameAlreadyInScope {
                    name: name@,
                    first_location: first_location@,
                    second_location: second_location@,
                }
            },
            Error::UnknownImportFile { file_name, location } => SpecError::UnknownImportFile {
                file_name: file_name@,
                location: location@,
            },
            Error::NameNotInScope { name, location } => SpecError::NameNotInScope {
                name: name@,
                location: location@,
            },
            Error::ExpectedType { actual, expected, location } => SpecError::ExpectedType {
                actual: actual@,
                expected: expected@,
                location: location@,
            },
            Error::RecursiveType { typ, location } => SpecError::RecursiveType {
                typ: typ@,
                location: location@,
            },
        }
    }
}

// ---------------------------------------------------------------------------
// Byte-string helpers
// ---------------------------------------------------------------------------
/// Element-wise equality of two byte strings.
pub fn bytes_eq(a: &Vec<u8>, b: &Vec<u8>) -> (r: bool)
    ensures
        r == (a@ == b@),
{
    if a.len() != b.len() {
        proof {
            assert(a@.len() != b@.len());
        }
        return false;
    }
    let n = a.len();
    let mut i: usize = 0;
    while i < n
        invariant
            n == a@.len(),
            n == b@.len(),
            0 <= i <= n,
            forall|j: int| 0 <= j < i ==> a@[j] == b@[j],
        decreases n - i,
    {
        if a[i] != b[i] {
            proof {
                assert(a@[i as int] != b@[i as int]);
            }
            return false;
        }
        i = i + 1;
    }
    proof {
        assert(a@ =~= b@);
    }
    true
}

/// Element-wise equality of a byte string and a slice.
pub fn bytes_eq_slice(a: &Vec<u8>, b: &[u8]) -> (r: bool)
    ensures
        r == (a@ == b@),
{
    if a.len() != b.len() {
        proof {
            assert(a@.len() != b@.len());
        }
        return false;
    }
    let n = a.len();
    let mut i: usize = 0;
    while i < n
        invariant
            n == a@.len(),
            n == b@.len(),
            0 <= i <= n,
            forall|j: int| 0 <= j < i ==> a@[j] == b@[j],
        decreases n - i,
    {
        if a[i] != b[i] {
            proof {
                assert(a@[i as int] != b@[i as int]);
            }
            return false;
        }
        i = i + 1;
    }
    proof {
        assert(a@ =~= b@);
    }
    true
}

/// A fresh copy of a byte string.
pub fn bytes_clone(v: &Vec<u8>) -> (r: Vec<u8>)
    ensures
        r@ == v@,
{
    let mut r: Vec<u8> = Vec::new();
    let n = v.len();
    let mut i: usize = 0;
    while i < n
        invariant
            n == v@.len(),
            0 <= i <= n,
            r@ =~= v@.subrange(0, i as int),
        decreases n - i,
    {
        r.push(v[i]);
        i = i + 1;
    }
    proof {
        assert(r@ =~= v@);
    }
    r
}

/// Append a byte slice to a buffer.
pub fn append_bytes(out: &mut Vec<u8>, s: &[u8])
    ensures
        final(out)@ == old(out)@ + s@,
{
    let n = s.len();
    let mut i: usize = 0;
    while i < n
        invariant
            n == s@.len(),
            0 <= i <= n,
            out@ =~= old(out)@ + s@.subrange(0, i as int),
        decreases n - i,
    {
        out.push(s[i]);
        i = i + 1;
    }
    proof {
        assert(out@ =~= old(out)@ + s@);
    }
}

/// Append a whole byte string to a buffer.
pub fn append_vec(out: &mut Vec<u8>, s: &Vec<u8>)
    ensures
        final(out)@ == old(out)@ + s@,
{
    append_bytes(out, s.as_slice());
}

// ---------------------------------------------------------------------------
// Decimal rendering
// ---------------------------------------------------------------------------
/// Decimal digits of a non-negative number, most significant first.
pub open spec fn spec_dec_nat(n: int) -> Seq<u8>
    decreases n,
{
    if n < 10 {
        seq![(48 + if n >= 0 { n } else { 0 }) as u8]
    } else {
        spec_dec_nat(n / 10) + seq![(48 + n % 10) as u8]
    }
}

/// Decimal rendering of a signed number: a minus sign, then the digits.
pub open spec fn spec_dec_i64(x: i64) -> Seq<u8> {
    if x >= 0 {
        spec_dec_nat(x as int)
    } else {
        seq![45u8] + spec_dec_nat(-(x as int))
    }
}

/// Renders a `u64` in decimal.
pub fn dec_u64(n: u64) -> (r: Vec<u8>)
    ensures
        r@ == spec_dec_nat(n as int),
{
    let mut digits: Vec<u8> = Vec::new();
    digits.push(48 + (n % 10) as u8);
    let mut m: u64 = n / 10;
    proof {
        if n < 10 {
            assert(digits@.reverse() =~= spec_dec_nat(n as int));
        } else {
            assert(digits@.reverse() =~= seq![(48 + (n as int) % 10) as u8]);
            assert(spec_dec_nat(n as int) =~= spec_dec_nat(m as int) + digits@.reverse());
        }
    }
    while m > 0
        invariant
            m > 0 ==> spec_dec_nat(n as int) =~= spec_dec_nat(m as int) + digits@.reverse(),
            m == 0 ==> spec_dec_nat(n as int) =~= digits@.reverse(),
        decreases m,
    {
        let ghost old_digits = digits@;
        let ghost old_m = m;
        let d: u8 = (m % 10) as u8;
        digits.push(48 + d);
        m = m / 10;
        proof {
            assert(digits@ =~= old_digits.push((48 + d) as u8));
            assert(digits@.reverse() =~= seq![(48 + d) as u8] + old_digits.reverse());
            if m > 0 {
                assert(spec_dec_nat(old_m as int) =~= spec_dec_nat(m as int) + seq![(48 + d) as u8]);
                assert(spec_dec_nat(n as int) =~= spec_dec_nat(m as int) + digits@.reverse());
            } else {
                assert(spec_dec_nat(old_m as int) =~= seq![(48 + d) as u8]);
                assert(spec_dec_nat(n as int) =~= digits@.reverse());
            }
        }
    }
    let mut r: Vec<u8> = Vec::new();
    let k = digits.len();
    let mut i: usize = 0;
    while i < k
        invariant
            k == digits@.len(),
            0 <= i <= k,
            r@ =~= digits@.reverse().subrange(0, i as int),
        decreases k - i,
    {
        r.push(digits[k - 1 - i]);
        proof {
            assert(r@ =~= digits@.reverse().subrange(0, i + 1));
        }
        i = i + 1;
    }
    proof {
        assert(r@ =~= digits@.reverse());
    }
    r
}

/// Renders a `u32` in decimal.
pub fn dec_u32(n: u32) -> (r: Vec<u8>)
    ensures
        r@ == spec_dec_nat(n as int),
{
    dec_u64(n as u64)
}

/// Renders an `i64` in decimal, with a leading minus sign when negative.
pub fn dec_i64(x: i64) -> (r: Vec<u8>)
    ensures
        r@ == spec_dec_i64(x),
{
    if x >= 0 {
        dec_u64(x as u64)
    } else {
        // magnitude without overflowing on the smallest value
        let mag: u64 = ((-(x + 1)) as u64) + 1;
        let mut r: Vec<u8> = Vec::new();
        r.push(45u8);
        let digits = dec_u64(mag);
        append_vec(&mut r, &digits);
        proof {
            assert(r@ =~= seq![45u8] + spec_dec_nat(-(x as int)));
        }
        r
    }
}

// ---------------------------------------------------------------------------
// Messages
// ---------------------------------------------------------------------------
/// `file:line`, the way a location is shown to users.
pub open spec fn spec_location_text(l: SpecLocation) -> Seq<u8> {
    l.file_name + seq![58u8] + spec_dec_nat(l.start.line_number as int)
}

/// Renders a location as `file:line`.
pub fn location_text(l: &LocationData) -> (r: Vec<u8>)
    ensures
        r@ == spec_location_text(l@),
{
    let mut r = bytes_clone(&l.file_name);
    r.push(58u8);
    let line = dec_u32(l.start.line_number);
    append_vec(&mut r, &line);
    proof {
        assert(r@ =~= spec_location_text(l@));
    }
    r
}

/// What a missing token is reported as.
pub open spec fn spec_found_text(found: Option<SpecToken>) -> Seq<u8> {
    match found {
        Some(t) => crate::tokens::spec_token_text(t),
        None => str_end_of_input(),
    }
}

pub open spec fn str_end_of_input() -> Seq<u8> {
    lit("(end of input)")
}

/// The rendered message of each diagnostic.
pub open spec fn spec_message(e: SpecError) -> Seq<u8> {
    match e {
        SpecError::ParserExpected { rule, found, location } => spec_location_text(location) + lit(
            ": Expected ",
        ) + rule + lit(" but found `") + spec_found_text(found) + lit("`"),
        SpecError::NameAlreadyInScope { name, first_location, second_location } => {
            spec_location_text(second_location) + lit(": `") + name + lit(
                "` was already defined at ",
            ) + spec_location_text(first_location)
        },
        SpecError::ImportedNameAlreadyInScope { name, first_location, second_location } => {
            spec_location_text(second_location) + lit(": This imports `") + name + lit(
                "`, which has already been defined here: ",
            ) + spec_location_text(first_location)
        },
        SpecError::UnknownImportFile { file_name, location } => {
            spec_location_text(location) + lit(": Cannot read source file `") + file_name + lit(
                "`, does it exist?",
            )
        },
        SpecError::NameNotInScope { name, location } => {
            spec_location_text(location) + lit(": `") + name + lit(
                "` is not defined, was it a typo?",
            )
        },
        SpecError::ExpectedType { actual, expected, location } => {
            spec_location_text(location) + lit(": Expected type `") + expected + lit(
                "` but found `",
            ) + actual + lit("`")
        },
        SpecError::RecursiveType { typ, location } => {
            spec_location_text(location) + lit(
                ": Binding here would create an infinitely recursive type with `",
            ) + typ + lit("`")
        },
    }
}

/// The bytes of a literal piece of message text.
pub open spec fn lit(s: &str) -> Seq<u8> {
    s.spec_bytes()
}

impl Error {
    /// Renders the diagnostic as the user sees it.
    pub fn message(&self) -> (r: Vec<u8>)
        ensures
            r@ == spec_message(self@),
    {
        broadcast use vstd::string::group_string_axioms;

        match self {
            Error::ParserExpected { rule, found, location } => {
                let mut r = location_text(location);
                append_bytes(&mut r, ": Expected ".as_bytes());
                append_vec(&mut r, rule);
                append_bytes(&mut r, " but found `".as_bytes());
                match found {
                    Some(t) => {
                        let tt = t.text();
                        append_vec(&mut r, &tt);
                    },
                    None => {
                        append_bytes(&mut r, "(end of input)".as_bytes());
                    },
                }
                append_bytes(&mut r, "`".as_bytes());
                proof {
                    assert(r@ =~= spec_message(self@));
                }
                r
            },
            Error::NameAlreadyInScope { name, first_location, second_location } => {
                let mut r = location_text(second_location);
                append_bytes(&mut r, ": `".as_bytes());
                append_vec(&mut r, name);
                append_bytes(&mut r, "` was already defined at ".as_bytes());
                let fl = location_text(first_location);
                append_vec(&mut r, &fl);
                proof {
                    assert(r@ =~= spec_message(self@));
                }
                r
            },
            Error::ImportedNameAlreadyInScope { name, first_location, second_location } => {
                let mut r = location_text(second_location);
                append_bytes(&mut r, ": This imports `".as_bytes());
                append_vec(&mut r, name);
                append_bytes(&mut r, "`, which has already been defined here: ".as_bytes());
                let fl = location_text(first_location);
                append_vec(&mut r, &fl);
                proof {
                    assert(r@ =~= spec_message(self@));
                }
                r
            },
            Error::UnknownImportFile { file_name, location } => {
                let mut r = location_text(location);
                append_bytes(&mut r, ": Cannot read source file `".as_bytes());
                append_vec(&mut r, file_name);
                append_bytes(&mut r, "`, does it exist?".as_bytes());
                proof {
                    assert(r@ =~= spec_message(self@));
                }
                r
            },
            Error::NameNotInScope { name, location } => {
                let mut r = location_text(location);
                append_bytes(&mut r, ": `".as_bytes());
                append_vec(&mut r, name);
                append_bytes(&mut r, "` is not defined, was it a typo?".as_bytes());
                proof {
                    assert(r@ =~= spec_message(self@));
                }
                r
            },
            Error::ExpectedType { actual, expected, location } => {
                let mut r = location_text(location);
                append_bytes(&mut r, ": Expected type `".as_bytes());
                append_vec(&mut r, expected);
                append_bytes(&mut r, "` but found `".as_bytes());
                append_vec(&mut r, actual);
                append_bytes(&mut r, "`".as_bytes());
                proof {
                    assert(r@ =~= spec_message(self@));
                }
                r
            },
            Error::RecursiveType { typ, location } => {
                let mut r = location_text(location);
                append_bytes(
                    &mut r,
                    ": Binding here would create an infinitely recursive type with `".as_bytes(),
                );
                append_vec(&mut r, typ);
                append_bytes(&mut r, "`".as_bytes());
                proof {
                    assert(r@ =~= spec_message(self@));
                }
                r
            },
        }
    }
}

} // verus!

verus! {

/// A fresh copy of a location.
pub fn location_copy(l: &LocationData) -> (r: LocationData)
    ensures
        r@ == l@,
{
    LocationData { file_name: bytes_clone(&l.file_name), start: l.start, end: l.end }
}

/// A fresh copy of a diagnostic.
pub fn error_copy(e: &Error) -> (r: Error)
    ensures
        r@ == e@,
{
    match e {
        Error::ParserExpected { rule, found, location } => Error::ParserExpected {
            rule: bytes_clone(rule),
            found: match found {
                Some(t) => Some(crate::parser::token_copy(t)),
                None => None,
            },
            location: location_copy(location),
        },
        Error::NameAlreadyInScope { name, first_location, second_location } => {
            Error::NameAlreadyInScope {
                name: bytes_clone(name),
                first_location: location_copy(first_location),
                second_location: location_copy(second_location),
            }
        },
        Error::ImportedNameAlreadyInScope { name, first_location, second_location } => {
            Error::ImportedNameAlreadyInScope {
                name: bytes_clone(name),
                first_location: location_copy(first_location),
                second_location: location_copy(second_location),
            }
        },
        Error::UnknownImportFile { file_name, location } => Error::UnknownImportFile {
            file_name: bytes_clone(file_name),
            location: location_copy(location),
        },
        Error::NameNotInScope { name, location } => Error::NameNotInScope {
            name: bytes_clone(name),
            location: location_copy(location),
        },
        Error::ExpectedType { actual, expected, location } => Error::ExpectedType {
            actual: bytes_clone(actual),
            expected: bytes_clone(expected),
            location: location_copy(location),
        },
        Error::RecursiveType { typ, location } => Error::RecursiveType {
            typ: bytes_clone(typ),
            location: location_copy(location),
        },
    }
}

/// A fresh copy of a diagnostic list.
pub fn errors_copy(es: &Errors) -> (r: Errors)
    ensures
        crate::parser::errs_view(r@) == crate::parser::errs_view(es@),
{
    let mut r: Errors = Vec::new();
    let n = es.len();
    let mut i: usize = 0;
    while i < n
        invariant
            n == es@.len(),
            0 <= i <= n,
            r@.len() == i,
            forall|j: int| 0 <= j < i ==> (#[trigger] r@[j])@ == es@[j]@,
        decreases n - i,
    {
        r.push(error_copy(&es[i]));
        i = i + 1;
    }
    proof {
        assert(crate::parser::errs_view(r@) =~= crate::parser::errs_view(es@));
    }
    r
}

} // verus!
