//! The `USE` statement: `USE` in any case, white space, and the name of a
//! database, bare or quoted as the dialect has it.

use crate::text::{ascii_string, chars_of};
use vstd::prelude::*;
use vstd::string::StringExecFns;

verus! {

/// The SQL dialect that a statement is read in.
#[derive(Clone, Copy, Debug, PartialEq, Eq, Structural)]
pub enum Dialect {
    /// Names are quoted with back quotes or square brackets.
    MySQL,
    /// Names are quoted with double quotes; a bare name is read in lower
    /// case.
    PostgreSQL,
}

/// A statement that selects a database.
#[derive(Clone, Debug, PartialEq, Eq, Hash)]
pub struct UseStatement {
    pub database: String,
}

/// What the parser was looking for when it gave up.
#[derive(Clone, Copy, Debug, PartialEq, Eq, Structural)]
pub enum Expected {
    /// The word `USE`.
    Keyword,
    /// At least one byte of white space.
    Whitespace,
    /// A bare or quoted name.
    Identifier,
}

/// Why a text is no `USE` statement, and the offset at which that showed.
#[derive(Clone, Copy, Debug, PartialEq, Eq, Structural)]
pub struct ParseError {
    pub at: usize,
    pub expected: Expected,
}

/// What a text holds, read as a `USE` statement.
pub enum Parsed {
    /// A statement with the bytes of its database name; `rest` is the offset
    /// behind it.
    Statement { name: Seq<u8>, rest: int },
    /// No statement.
    Failure { at: int, expected: Expected },
}

/// A space, a tab, a line feed or a carriage return.
pub open spec fn is_space(b: u8) -> bool {
    b == 32 || b == 9 || b == 10 || b == 13
}

/// An ASCII letter or digit, `_` or `@`.
pub open spec fn is_ident_byte(b: u8) -> bool {
    (48 <= b <= 57) || (65 <= b <= 90) || (97 <= b <= 122) || b == 95 || b == 64
}

/// The byte `b` with an ASCII capital letter turned into its small letter.
pub open spec fn lower(b: u8) -> u8 {
    if 65 <= b <= 90 {
        (b + 32) as u8
    } else {
        b
    }
}

/// The end of the run of white space that begins at `from`.
pub open spec fn space_end(s: Seq<u8>, from: int) -> int
    decreases s.len() - from,
{
    if 0 <= from < s.len() && is_space(s[from]) {
        space_end(s, from + 1)
    } else {
        from
    }
}

/// The end of the run of name bytes that begins at `from`.
pub open spec fn ident_end(s: Seq<u8>, from: int) -> int
    decreases s.len() - from,
{
    if 0 <= from < s.len() && is_ident_byte(s[from]) {
        ident_end(s, from + 1)
    } else {
        from
    }
}

/// `s` begins with `USE`, in any case.
pub open spec fn has_keyword(s: Seq<u8>) -> bool {
    s.len() >= 3 && lower(s[0]) == 117 && lower(s[1]) == 115 && lower(s[2]) == 101
}

/// The byte that closes a quoted name opened by `open`, if `open` opens one
/// in the dialect.
pub open spec fn closing_quote(dialect: Dialect, open: u8) -> Option<u8> {
    match dialect {
        Dialect::MySQL => if open == 96 {
            Some(96u8)
        } else if open == 91 {
            Some(93u8)
        } else {
            None
        },
        Dialect::PostgreSQL => if open == 34 {
            Some(34u8)
        } else {
            None
        },
    }
}

/// The bytes of a bare name as the dialect reads them.
pub open spec fn bare_name(dialect: Dialect, name: Seq<u8>) -> Seq<u8> {
    match dialect {
        Dialect::MySQL => name,
        Dialect::PostgreSQL => name.map_values(|b: u8| lower(b)),
    }
}

/// The name at offset `p` of `s`: a run of name bytes, or such a run between
/// quotes.
pub open spec fn parse_identifier(dialect: Dialect, s: Seq<u8>, p: int) -> Parsed {
    let bare = ident_end(s, p);
    if bare > p {
        Parsed::Statement { name: bare_name(dialect, s.subrange(p, bare)), rest: bare }
    } else if 0 <= p < s.len() && closing_quote(dialect, s[p]) is Some {
        let end = ident_end(s, p + 1);
        if end > p + 1 && end < s.len() && s[end] == closing_quote(dialect, s[p])->0 {
            Parsed::Statement { name: s.subrange(p + 1, end), rest: end + 1 }
        } else {
            Parsed::Failure { at: p, expected: Expected::Identifier }
        }
    } else {
        Parsed::Failure { at: p, expected: Expected::Identifier }
    }
}

/// What `s` holds, read as a `USE` statement of the dialect.
pub open spec fn parse_use(dialect: Dialect, s: Seq<u8>) -> Parsed {
    if !has_keyword(s) {
        Parsed::Failure { at: 0, expected: Expected::Keyword }
    } else if space_end(s, 3) == 3 {
        Parsed::Failure { at: 3, expected: Expected::Whitespace }
    } else {
        parse_identifier(dialect, s, space_end(s, 3))
    }
}

/// The end of a run is not before its start nor behind the text, every byte
/// of the run belongs to it, and the byte behind it does not.
pub proof fn lemma_ident_end(s: Seq<u8>, from: int)
    requires
        0 <= from <= s.len(),
    ensures
        from <= ident_end(s, from) <= s.len(),
        forall|i: int| from <= i < ident_end(s, from) ==> is_ident_byte(s[i]),
        ident_end(s, from) < s.len() ==> !is_ident_byte(s[ident_end(s, from)]),
    decreases s.len() - from,
{
    if from < s.len() && is_ident_byte(s[from]) {
        lemma_ident_end(s, from + 1);
    }
}

/// Every byte of a name can stand in a name and is below 128.
pub proof fn lemma_name_bytes(dialect: Dialect, s: Seq<u8>)
    ensures
        match parse_use(dialect, s) {
            Parsed::Statement { name, rest } => {
                &&& name.len() > 0
                &&& 3 < rest <= s.len()
                &&& forall|i: int| 0 <= i < name.len() ==> is_ident_byte(#[trigger] name[i])
            },
            Parsed::Failure { at, expected } => 0 <= at <= s.len(),
        },
{
    if has_keyword(s) {
        lemma_space_end(s, 3);
        let p = space_end(s, 3);
        lemma_ident_end(s, p);
        if p < s.len() {
            lemma_ident_end(s, p + 1);
        }
    }
}

/// The end of a run of white space is not before its start nor behind the
/// text.
pub proof fn lemma_space_end(s: Seq<u8>, from: int)
    requires
        0 <= from <= s.len(),
    ensures
        from <= space_end(s, from) <= s.len(),
    decreases s.len() - from,
{
    if from < s.len() && is_space(s[from]) {
        lemma_space_end(s, from + 1);
    }
}

fn to_lower(b: u8) -> (l: u8)
    ensures
        l == lower(b),
{
    if 65 <= b && b <= 90 {
        b + 32
    } else {
        b
    }
}

fn ident_byte(b: u8) -> (yes: bool)
    ensures
        yes == is_ident_byte(b),
{
    (48 <= b && b <= 57) || (65 <= b && b <= 90) || (97 <= b && b <= 122) || b == 95 || b == 64
}

/// Skips the run of white space that begins at `from`.
fn skip_space(input: &[u8], from: usize) -> (end: usize)
    requires
        from <= input@.len(),
    ensures
        end == space_end(input@, from as int),
        from <= end <= input@.len(),
{
    let mut i = from;
    while i < input.len() && (input[i] == 32 || input[i] == 9 || input[i] == 10 || input[i] == 13)
        invariant
            from <= i <= input@.len(),
            space_end(input@, from as int) == space_end(input@, i as int),
        decreases input@.len() - i,
    {
        i += 1;
    }
    i
}

/// Skips the run of name bytes that begins at `from`.
fn skip_ident(input: &[u8], from: usize) -> (end: usize)
    requires
        from <= input@.len(),
    ensures
        end == ident_end(input@, from as int),
        from <= end <= input@.len(),
{
    let mut i = from;
    while i < input.len() && ident_byte(input[i])
        invariant
            from <= i <= input@.len(),
            ident_end(input@, from as int) == ident_end(input@, i as int),
        decreases input@.len() - i,
    {
        i += 1;
    }
    i
}

/// The bytes of `input` from `from` to `to`, in lower case if `fold` is set.
fn copy_name(input: &[u8], from: usize, to: usize, fold: bool) -> (name: Vec<u8>)
    requires
        from <= to <= input@.len(),
    ensures
        name@ == (if fold {
            input@.subrange(from as int, to as int).map_values(|b: u8| lower(b))
        } else {
            input@.subrange(from as int, to as int)
        }),
{
    let mut name: Vec<u8> = Vec::new();
    let mut i = from;
    while i < to
        invariant
            from <= i <= to <= input@.len(),
            name@.len() == i - from,
            forall|j: int|
                0 <= j < name@.len() ==> name@[j] == (if fold {
                    lower(input@[from + j])
                } else {
                    input@[from + j]
                }),
        decreases to - i,
    {
        let b = input[i];
        name.push(
            if fold {
                to_lower(b)
            } else {
                b
            },
        );
        i += 1;
    }
    proof {
        if fold {
            assert(name@ =~= input@.subrange(from as int, to as int).map_values(|b: u8| lower(b)));
        } else {
            assert(name@ =~= input@.subrange(from as int, to as int));
        }
    }
    name
}

impl UseStatement {
    /// The statement that selects `database`.
    pub fn from_database(database: String) -> (statement: UseStatement)
        ensures
            statement.database == database,
    {
        UseStatement { database }
    }

    /// The statement as SQL text: `USE` and the name.
    pub fn to_string(&self) -> (text: String)
        ensures
            text@ == "USE "@ + self.database@,
    {
        let mut text = String::from_str("USE ");
        text.append(self.database.as_str());
        text
    }
}

/// Reads a `USE` statement from the start of `input`. On success the result
/// holds the offset behind the statement.
pub fn use_statement(dialect: Dialect, input: &[u8]) -> (result: Result<
    (usize, UseStatement),
    ParseError,
>)
    ensures
        match result {
            Ok((rest, statement)) => parse_use(dialect, input@) matches Parsed::Statement {
                name,
                rest: r,
            } && r == rest && statement.database@ == chars_of(name),
            Err(error) => parse_use(dialect, input@) == (Parsed::Failure {
                at: error.at as int,
                expected: error.expected,
            }),
        },
{
    if input.len() < 3 || to_lower(input[0]) != 117 || to_lower(input[1]) != 115 || to_lower(
        input[2],
    ) != 101 {
        return Err(ParseError { at: 0, expected: Expected::Keyword });
    }
    let start = skip_space(input, 3);
    if start == 3 {
        return Err(ParseError { at: 3, expected: Expected::Whitespace });
    }
    proof {
        lemma_name_bytes(dialect, input@);
    }
    let bare = skip_ident(input, start);
    if bare > start {
        let fold = match dialect {
            Dialect::MySQL => false,
            Dialect::PostgreSQL => true,
        };
        let name = copy_name(input, start, bare, fold);
        proof {
            assert forall|i: int| 0 <= i < name@.len() implies name@[i] < 128 by {
                assert(is_ident_byte(name@[i]));
            }
        }
        return Ok((bare, UseStatement::from_database(ascii_string(name))));
    }
    if start >= input.len() {
        return Err(ParseError { at: start, expected: Expected::Identifier });
    }
    let open = input[start];
    let close = match dialect {
        Dialect::MySQL => if open == 96 {
            Some(96u8)
        } else if open == 91 {
            Some(93u8)
        } else {
            None
        },
        Dialect::PostgreSQL => if open == 34 {
            Some(34u8)
        } else {
            None
        },
    };
    match close {
        None => Err(ParseError { at: start, expected: Expected::Identifier }),
        Some(quote) => {
            let end = skip_ident(input, start + 1);
            if end > start + 1 && end < input.len() && input[end] == quote {
                let name = copy_name(input, start + 1, end, false);
                proof {
                    assert forall|i: int| 0 <= i < name@.len() implies name@[i] < 128 by {
                        assert(is_ident_byte(name@[i]));
                    }
                }
                Ok((end + 1, UseStatement::from_database(ascii_string(name))))
            } else {
                Err(ParseError { at: start, expected: Expected::Identifier })
            }
        },
    }
}

} // verus!
