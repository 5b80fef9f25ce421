use vstd::prelude::*;
use vstd::string::StringExecFns;

verus! {

/// Collects the output text in two parts: declarations (the header) and
/// statements (the code). The output is the header followed by the code.
pub struct Emitter {
    full_path: String,
    header: String,
    code: String,
}

impl Emitter {
    /// The declarations emitted so far.
    pub closed spec fn header_text(&self) -> Seq<char> {
        self.header@
    }

    /// The statements emitted so far.
    pub closed spec fn code_text(&self) -> Seq<char> {
        self.code@
    }

    /// Where the output is meant to be written.
    pub closed spec fn path(&self) -> Seq<char> {
        self.full_path@
    }

    pub fn new(full_path: String) -> (r: Self)
        ensures
            r.path() == full_path@,
            r.header_text() == Seq::<char>::empty(),
            r.code_text() == Seq::<char>::empty(),
    {
        Self { full_path, header: String::new(), code: String::new() }
    }

    /// Appends `code` to the statements.
    pub fn emit(&mut self, code: &str)
        ensures
            final(self).code_text() == old(self).code_text() + code@,
            final(self).header_text() == old(self).header_text(),
            final(self).path() == old(self).path(),
    {
        self.code.append(code);
    }

    /// Appends `code` and a newline to the statements.
    pub fn emit_line(&mut self, code: &str)
        ensures
            final(self).code_text() == old(self).code_text() + code@ + seq!['\n'],
            final(self).header_text() == old(self).header_text(),
            final(self).path() == old(self).path(),
    {
        self.code.append(code);
        proof {
            reveal_strlit("\n");
        }
        self.code.append("\n");
    }

    /// Appends `code` and a newline to the declarations.
    pub fn header_line(&mut self, code: &str)
        ensures
            final(self).header_text() == old(self).header_text() + code@ + seq!['\n'],
            final(self).code_text() == old(self).code_text(),
            final(self).path() == old(self).path(),
    {
        self.header.append(code);
        proof {
            reveal_strlit("\n");
        }
        self.header.append("\n");
    }

    /// The whole output: the declarations followed by the statements.
    pub fn output(&self) -> (r: String)
        ensures
            r@ == self.header_text() + self.code_text(),
    {
        self.header.clone().concat(self.code.as_str())
    }

    /// Where the output is meant to be written.
    pub fn full_path(&self) -> (r: String)
        ensures
            r@ == self.path(),
    {
        self.full_path.clone()
    }
}

} // verus!
