//! Symbols: a function name, optionally qualified by the file that defines it.

use vstd::prelude::*;

verus! {

/// The text that stands for a name or a file that is not known.
pub open spec fn unknown_label() -> Seq<char> {
    "<Unknown>"@
}

/// What a symbol is to the contracts: its two optional fields as sequences of
/// characters.
pub struct SymbolView {
    pub name: Option<Seq<char>>,
    pub file: Option<Seq<char>>,
}

impl SymbolView {
    /// The name as it is shown and interned.
    pub open spec fn display_name(self) -> Seq<char> {
        match self.name {
            Some(n) => n,
            None => unknown_label(),
        }
    }

    /// The file as it is shown and interned.
    pub open spec fn display_file(self) -> Seq<char> {
        match self.file {
            Some(f) => f,
            None => unknown_label(),
        }
    }
}

/// A named program location, optionally qualified by a source file.
#[derive(Debug, Clone, Eq, Hash)]
pub struct Symbol {
    pub name: Option<String>,
    pub file: Option<String>,
}

impl View for Symbol {
    type V = SymbolView;

    open spec fn view(&self) -> SymbolView {
        SymbolView {
            name: match self.name {
                Some(n) => Some(n@),
                None => None,
            },
            file: match self.file {
                Some(f) => Some(f@),
                None => None,
            },
        }
    }
}

/// Whether two optional strings are both absent or hold the same text.
fn same_text(first: &Option<String>, second: &Option<String>) -> (same: bool)
    ensures
        same == (match (*first, *second) {
            (Some(a), Some(b)) => a@ == b@,
            (None, None) => true,
            _ => false,
        }),
{
    match (first, second) {
        (Some(a), Some(b)) => *a == *b,
        (None, None) => true,
        _ => false,
    }
}

impl PartialEq for Symbol {
    /// Two symbols are equal where both fields are: the names are the same
    /// text or both absent, and so are the files.
    fn eq(&self, other: &Symbol) -> (equal: bool) {
        same_text(&self.name, &other.name) && same_text(&self.file, &other.file)
    }
}

impl vstd::std_specs::cmp::PartialEqSpecImpl for Symbol {
    open spec fn obeys_eq_spec() -> bool {
        true
    }

    open spec fn eq_spec(&self, other: &Symbol) -> bool {
        self@ == other@
    }
}

/// The symbols of a stack as the contracts see them.
pub open spec fn symbol_views(stack: Seq<Symbol>) -> Seq<SymbolView> {
    stack.map_values(|s: Symbol| s@)
}

impl Symbol {
    /// The symbol's name, or the unknown label where it has none.
    pub fn name(&self) -> (shown: String)
        ensures
            shown@ == self@.display_name(),
    {
        match &self.name {
            Some(n) => n.clone(),
            None => "<Unknown>".to_owned(),
        }
    }

    /// The symbol's file, or the unknown label where it has none.
    pub fn file(&self) -> (shown: String)
        ensures
            shown@ == self@.display_file(),
    {
        match &self.file {
            Some(f) => f.clone(),
            None => "<Unknown>".to_owned(),
        }
    }
}

} // verus!
