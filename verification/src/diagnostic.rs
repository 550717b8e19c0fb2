use crate::path::Path;
use crate::path::Step;
use vstd::prelude::*;

verus! {

/// The classes of problems that a tool declaration can have.
#[derive(Clone, Copy, Debug, PartialEq, Eq, Structural)]
pub enum DiagnosticKind {
    /// The tool's name, version or author is empty.
    InvalidMetadata,
    /// A command's name is empty or is the name of an earlier sibling.
    DuplicateCommand,
    /// An argument's name is empty or is the name of an earlier argument of its command.
    DuplicateArgument,
    /// A command or an argument has an empty description.
    EmptyDescription,
    /// An argument's type tag is not in the registry.
    UnknownType,
}

/// One problem found in a tool declaration.
#[derive(Debug)]
pub struct Diagnostic {
    /// Where the problem is.
    pub path: Path,
    /// Which class of problem it is.
    pub kind: DiagnosticKind,
    /// The problem in words.
    pub message: String,
}

/// What a `Diagnostic` says, as mathematical values.
pub struct DiagnosticModel {
    pub path: Seq<Step>,
    pub kind: DiagnosticKind,
    pub message: Seq<char>,
}

impl View for Diagnostic {
    type V = DiagnosticModel;

    open spec fn view(&self) -> DiagnosticModel {
        DiagnosticModel { path: self.path@, kind: self.kind, message: self.message@ }
    }
}

/// The models of a list of diagnostics, in order.
pub open spec fn diagnostic_models(items: Seq<Diagnostic>) -> Seq<DiagnosticModel> {
    Seq::new(items.len(), |i: int| items[i]@)
}

/// Gathers the problems found while a declaration is walked, in the order of their discovery.
#[derive(Debug)]
pub struct Diagnostics {
    pub items: Vec<Diagnostic>,
}

impl View for Diagnostics {
    type V = Seq<DiagnosticModel>;

    open spec fn view(&self) -> Seq<DiagnosticModel> {
        diagnostic_models(self.items@)
    }
}

impl Diagnostics {
    /// A collector that holds nothing yet.
    pub fn new() -> (found: Diagnostics)
        ensures
            found@ == Seq::<DiagnosticModel>::empty(),
    {
        let found = Diagnostics { items: Vec::new() };
        assert(found@ =~= Seq::<DiagnosticModel>::empty());
        found
    }

    /// Records one more problem, behind those recorded so far.
    pub fn report(&mut self, path: &Path, kind: DiagnosticKind, message: String)
        ensures
            final(self)@ == old(self)@.push(
                DiagnosticModel { path: path@, kind: kind, message: message@ },
            ),
    {
        let diagnostic = Diagnostic { path: path.duplicate(), kind, message };
        self.items.push(diagnostic);
        assert(self@ =~= old(self)@.push(
            DiagnosticModel { path: path@, kind: kind, message: message@ },
        ));
    }

    /// Records all that `other` holds, in its order, behind those recorded so far.
    pub fn absorb(&mut self, other: Diagnostics)
        ensures
            final(self)@ == old(self)@ + other@,
    {
        let ghost added = other@;
        let mut other = other;
        self.items.append(&mut other.items);
        assert(self@ =~= old(self)@ + added);
    }

    /// Whether nothing was recorded.
    pub fn is_empty(&self) -> (empty: bool)
        ensures
            empty == (self@.len() == 0),
    {
        self.items.len() == 0
    }

    /// How many problems were recorded.
    pub fn len(&self) -> (count: usize)
        ensures
            count == self@.len(),
    {
        self.items.len()
    }

    /// The recorded problems, in the order of their discovery.
    pub fn into_vec(self) -> (items: Vec<Diagnostic>)
        ensures
            diagnostic_models(items@) == self@,
    {
        self.items
    }
}

} // verus!
