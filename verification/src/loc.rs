//! Location

use vstd::prelude::*;

verus! {

/// A source location: where a dependency was gathered or a trigger executed.
#[derive(PartialEq, Eq, Clone, Copy, Debug)]
pub struct Loc {
    pub file: &'static str,
    pub line: u32,
    pub column: u32,
}

/// The character of decimal digit `d`.
pub open spec fn digit_char(d: nat) -> char {
    (48 + d) as char
}

/// `n` in decimal, most significant digit first, without leading zeros.
pub open spec fn decimal(n: nat) -> Seq<char>
    decreases n,
{
    if n < 10 {
        seq![digit_char(n)]
    } else {
        decimal(n / 10).push(digit_char(n % 10))
    }
}

/// The text of a location: its file, line and column, separated by colons.
pub open spec fn loc_text(l: Loc) -> Seq<char> {
    l.file@ + ":"@ + decimal(l.line as nat) + ":"@ + decimal(l.column as nat)
}

/// Calls `u32::to_string`, whose `Display` form writes the number in
/// decimal, without sign or leading zeros.
#[verifier::external_body]
fn u32_text(n: u32) -> (res: String)
    ensures
        res@ == decimal(n as nat),
{
    n.to_string()
}

impl Loc {
    /// Creates a location
    pub fn new(file: &'static str, line: u32, column: u32) -> (res: Self)
        ensures
            res.file == file,
            res.line == line,
            res.column == column,
    {
        Loc { file, line, column }
    }

    /// The location as text: `file:line:column`.
    pub fn text(&self) -> (res: String)
        ensures
            res@ == loc_text(*self),
    {
        let mut s = String::from_str(self.file);
        s.append(":");
        let line = u32_text(self.line);
        s.append(line.as_str());
        s.append(":");
        let column = u32_text(self.column);
        s.append(column.as_str());
        s
    }
}

} // verus!
