use vstd::prelude::*;
use crate::text::append;

verus! {

/// Assembly text built line by line.
pub struct AssemblyCode {
    pub code: String,
}

impl AssemblyCode {
    pub fn new() -> (r: AssemblyCode)
        ensures
            r.code@.len() == 0,
    {
        AssemblyCode { code: String::new() }
    }

    /// Appends `line` and a line feed.
    pub fn add_line(&mut self, line: &str)
        ensures
            final(self).code@ == old(self).code@ + line@ + seq!['\n'],
    {
        append(&mut self.code, line);
        crate::text::push_char(&mut self.code, '\n');
    }

    /// The text so far.
    pub fn to_string(&self) -> (r: String)
        ensures
            r@ == self.code@,
    {
        self.code.clone()
    }
}

} // verus!
