//! Append-only, non-fatal collection of compiler messages with positions.

use vstd::prelude::*;

verus! {

/// One recorded compiler message: the file it concerns, the message text and
/// the source position it points at.
#[derive(Debug)]
pub struct Diagnostic {
    pub path: String,
    pub message: String,
    pub line: usize,
    pub column: usize,
}

/// The mathematical value of one diagnostic record.
pub struct DiagnosticView {
    pub path: Seq<char>,
    pub message: Seq<char>,
    pub line: usize,
    pub column: usize,
}

impl View for Diagnostic {
    type V = DiagnosticView;

    open spec fn view(&self) -> DiagnosticView {
        DiagnosticView { path: self.path@, message: self.message@, line: self.line, column: self.column }
    }
}

/// An append-only ordered sequence of diagnostics. Recording a message never
/// fails, never unwinds and never halts traversal; records are never cleared
/// while a build runs.
#[derive(Debug)]
pub struct Diagnostics {
    pub records: Vec<Diagnostic>,
}

impl View for Diagnostics {
    type V = Seq<DiagnosticView>;

    open spec fn view(&self) -> Seq<DiagnosticView> {
        self.records@.map_values(|d: Diagnostic| d@)
    }
}

impl Diagnostics {
    pub fn new() -> (r: Diagnostics)
        ensures
            r@ == Seq::<DiagnosticView>::empty(),
    {
        let r = Diagnostics { records: Vec::new() };
        proof {
            assert(r@ =~= Seq::<DiagnosticView>::empty());
        }
        r
    }

    /// Appends one record; the sequence recorded so far is otherwise
    /// untouched.
    pub fn error(&mut self, path: &String, message: String, line: usize, column: usize)
        ensures
            final(self)@ == old(self)@.push(
                DiagnosticView { path: path@, message: message@, line, column },
            ),
    {
        let ghost pre = self@;
        self.records.push(
            Diagnostic { path: path.clone(), message, line, column },
        );
        proof {
            assert(self@ =~= pre.push(self.records@.last()@));
        }
    }

    /// How many diagnostics have been recorded so far.
    pub fn len(&self) -> (r: usize)
        ensures
            r == self@.len(),
    {
        self.records.len()
    }

    /// The record at position `i`, in the order the messages were recorded.
    pub fn get(&self, i: usize) -> (r: &Diagnostic)
        requires
            i < self@.len(),
        ensures
            r@ == self@[i as int],
    {
        &self.records[i]
    }
}

} // verus!
