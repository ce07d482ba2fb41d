//! A snippet: a named block of text, and its form in a snippet file.
use vstd::prelude::*;
use vstd::string::StringExecFns;

verus! {

/// What a snippet holds: its title and its text.
pub struct Block {
    pub title: Seq<char>,
    pub body: Seq<char>,
}

/// How a snippet is written in a file: a title line, the text, an end line.
pub open spec fn render(b: Block) -> Seq<char> {
    "-- "@ + b.title + " --\n"@ + b.body + "\n-- end --"@
}

/// Represents a snippet, with a title and a text.
#[derive(Debug)]
pub struct Snippet {
    title: String,
    s: String,
}

impl View for Snippet {
    type V = Block;

    closed spec fn view(&self) -> Block {
        Block { title: self.title@, body: self.s@ }
    }
}

impl Clone for Snippet {
    fn clone(&self) -> (r: Snippet)
        ensures
            r@ == self@,
    {
        Snippet { title: self.title.clone(), s: self.s.clone() }
    }
}

impl PartialEq for Snippet {
    fn eq(&self, o: &Snippet) -> (r: bool) {
        self.title == o.title && self.s == o.s
    }
}

impl vstd::std_specs::cmp::PartialEqSpecImpl for Snippet {
    open spec fn obeys_eq_spec() -> bool {
        true
    }

    open spec fn eq_spec(&self, o: &Snippet) -> bool {
        self@ == o@
    }
}

impl Snippet {
    /// Creates a new snippet from a title and a string.
    pub fn new(title: String, s: String) -> (r: Snippet)
        ensures
            r@ == (Block { title: title@, body: s@ }),
    {
        Snippet { title, s }
    }

    /// Appends a string to the snippet's text.
    pub fn append(&mut self, s: &str)
        ensures
            final(self)@ == (Block { title: old(self)@.title, body: old(self)@.body + s@ }),
    {
        self.s.append(s);
    }

    /// The snippet's text.
    pub fn get_string(&self) -> (r: &str)
        ensures
            r@ == self@.body,
    {
        self.s.as_str()
    }

    /// The snippet's title.
    pub fn get_title(&self) -> (r: &str)
        ensures
            r@ == self@.title,
    {
        self.title.as_str()
    }

    pub(crate) fn title_is(&self, t: &String) -> (r: bool)
        ensures
            r == (self@.title == t@),
    {
        self.title == *t
    }

    /// The snippet as it is written in a file:
    /// `-- title --`, the text, and `-- end --`, one per line.
    pub fn to_string(&self) -> (r: String)
        ensures
            r@ == render(self@),
    {
        let mut r = String::new();
        r.append("-- ");
        r.append(self.title.as_str());
        r.append(" --\n");
        r.append(self.s.as_str());
        r.append("\n-- end --");
        proof {
            reveal_strlit("-- ");
            reveal_strlit(" --\n");
            reveal_strlit("\n-- end --");
        }
        assert(r@ =~= render(self@));
        r
    }
}

} // verus!
