use vstd::prelude::*;
use crate::text::{append, append_decimal, chars_of, decimal};

verus! {

/// The number of line feeds among the first `n` characters of `s`.
pub open spec fn line_feeds(s: Seq<char>, n: int) -> nat
    decreases n,
{
    if n <= 0 {
        0
    } else {
        line_feeds(s, n - 1) + if s[n - 1] == '\n' { 1nat } else { 0nat }
    }
}

/// The 1-based line of the character at `offset` (the last line for an
/// offset past the end).
pub fn line_of(source: &str, offset: usize) -> (r: usize)
    requires
        source@.len() < usize::MAX,
    ensures
        r == 1 + line_feeds(source@, if offset <= source@.len() { offset as int } else { source@.len() as int }),
{
    let chars = chars_of(source);
    let end = if offset <= chars.len() { offset } else { chars.len() };
    let mut line: usize = 1;
    let mut k: usize = 0;
    while k < end
        invariant
            chars@ == source@,
            end <= chars.len() < usize::MAX,
            k <= end,
            line == 1 + line_feeds(chars@, k as int),
            line <= k + 1,
        decreases end - k,
    {
        if chars[k] == '\n' {
            line = line + 1;
        }
        k = k + 1;
    }
    line
}

/// Renders diagnostics for one source file.
pub struct ErrorHandler {
    pub file_name: String,
}

/// The line for a diagnostic: `file:line: message`, or `file: message` when
/// the line is unknown (0).
pub open spec fn error_line(file: Seq<char>, line: nat, message: Seq<char>) -> Seq<char> {
    if line > 0 {
        file + ":"@ + decimal(line) + ": "@ + message
    } else {
        file + ": "@ + message
    }
}

impl ErrorHandler {
    pub fn new(file_name: String) -> (r: ErrorHandler)
        ensures
            r.file_name@ == file_name@,
    {
        ErrorHandler { file_name }
    }

    /// The user-facing line for an error at `line` (0 when unknown).
    pub fn format_error(&self, line: usize, message: &str) -> (r: String)
        ensures
            r@ == error_line(self.file_name@, line as nat, message@),
    {
        let mut r = self.file_name.clone();
        if line > 0 {
            append(&mut r, ":");
            append_decimal(&mut r, line as u64);
        }
        append(&mut r, ": ");
        append(&mut r, message);
        assert(r@ =~= error_line(self.file_name@, line as nat, message@));
        r
    }
}

} // verus!
