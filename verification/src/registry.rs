//! The registry of functions: each name of a symbol gets a function and a
//! location when it is first met, with the next identifier, and keeps them.

use vstd::prelude::*;
use crate::intern::StringTable;
use crate::profile::{
    file_of, function_names, function_of, function_views, functions_of, id_of, line_views,
    location_of, location_views, locations_of, names_of, Function, FunctionView, Line, Location,
    LocationView,
};
use crate::seqs::{
    distinct, lemma_distinct, lemma_distinct_push, lemma_position, lemma_position_push,
};
use crate::symbol::{Symbol, SymbolView};
use crate::text::{find_string, string_views};

verus! {

/// What a registry is to the contracts: the names that it knows, in the
/// order in which it met them, and the records that it made for them.
pub struct RegistryView {
    pub names: Seq<Seq<char>>,
    pub functions: Seq<FunctionView>,
    pub locations: Seq<LocationView>,
}

impl RegistryView {
    /// The registry that knows no name.
    pub open spec fn empty() -> RegistryView {
        RegistryView { names: Seq::empty(), functions: Seq::empty(), locations: Seq::empty() }
    }

    /// The registry is in order: no name stands twice, and the name at index
    /// `k` has the function and the location of identifier `k + 1`, the
    /// location with its one line, of number 0, in that function.
    pub open spec fn wf(self) -> bool {
        &&& self.names.no_duplicates()
        &&& self.functions.len() == self.names.len()
        &&& self.locations.len() == self.names.len()
        &&& forall|k: int|
            0 <= k < self.functions.len() ==> (#[trigger] self.functions[k]).id == k + 1
        &&& forall|k: int|
            0 <= k < self.locations.len() ==> #[trigger] self.locations[k] == location_of(
                (k + 1) as nat,
            )
    }

    /// The registry after it resolved `symbol`: unchanged where it knows the
    /// symbol's name, else with that name, a function and a location more.
    /// The file of the symbol does not count in the comparison.
    pub open spec fn resolve(self, table: Seq<Seq<char>>, symbol: SymbolView) -> RegistryView {
        if self.names.contains(symbol.display_name()) {
            self
        } else {
            let id = (self.names.len() + 1) as nat;
            RegistryView {
                names: self.names.push(symbol.display_name()),
                functions: self.functions.push(
                    function_of(table, id, symbol.display_name(), symbol.display_file()),
                ),
                locations: self.locations.push(location_of(id)),
            }
        }
    }

    /// The registry after it resolved `symbols`, one after the other.
    pub open spec fn resolve_all(self, table: Seq<Seq<char>>, symbols: Seq<SymbolView>)
        -> RegistryView
        decreases symbols.len(),
    {
        if symbols.len() == 0 {
            self
        } else {
            self.resolve_all(table, symbols.drop_last()).resolve(table, symbols.last())
        }
    }
}

/// The registry of functions and locations.
pub struct Registry {
    names: Vec<String>,
    functions: Vec<Function>,
    locations: Vec<Location>,
}

impl View for Registry {
    type V = RegistryView;

    closed spec fn view(&self) -> RegistryView {
        RegistryView {
            names: string_views(self.names@),
            functions: function_views(self.functions@),
            locations: location_views(self.locations@),
        }
    }
}

impl Registry {
    /// The registry is in order.
    pub open spec fn wf(&self) -> bool {
        self@.wf()
    }

    /// A registry that knows no name.
    pub fn new() -> (registry: Registry)
        ensures
            registry.wf(),
            registry@ == RegistryView::empty(),
    {
        let registry = Registry {
            names: Vec::new(),
            functions: Vec::new(),
            locations: Vec::new(),
        };
        assert(registry@.names =~= Seq::empty());
        assert(registry@.functions =~= Seq::empty());
        assert(registry@.locations =~= Seq::empty());
        registry
    }

    /// The identifier of the function that stands for `symbol`.
    ///
    /// A name that the registry knows keeps its identifier. A new name gets
    /// the next one, counted from 1, with a function whose indices point at
    /// the symbol's name and file in `table`, and a location of the same
    /// identifier. The table has to hold both strings.
    pub fn resolve(&mut self, symbol: &Symbol, table: &StringTable) -> (id: u64)
        requires
            old(self).wf(),
            table@.contains(symbol@.display_name()),
            table@.contains(symbol@.display_file()),
        ensures
            final(self).wf(),
            final(self)@ == old(self)@.resolve(table@, symbol@),
            final(self)@.names.contains(symbol@.display_name()),
            id == id_of(final(self)@.names, symbol@.display_name()),
    {
        let name = symbol.name();
        let ghost before = self@;
        proof {
            lemma_resolve_wf(before, table@, symbol@);
        }
        match find_string(&self.names, &name) {
            Some(index) => {
                proof {
                    lemma_position(before.names, name@);
                }
                (index + 1) as u64
            },
            None => {
                let file = symbol.file();
                let name_index: u64 = table.index_of(&name).unwrap() as u64;
                let file_index: u64 = table.index_of(&file).unwrap() as u64;
                self.names.push(name);
                let id: u64 = self.names.len() as u64;
                self.functions.push(
                    Function {
                        id,
                        name: name_index,
                        system_name: name_index,
                        filename: file_index,
                    },
                );
                let mut line: Vec<Line> = Vec::new();
                line.push(Line { function_id: id, line: 0 });
                self.locations.push(Location { id, line });
                proof {
                    let after = before.resolve(table@, symbol@);
                    assert(line_views(line@) =~= location_of(id as nat).line);
                    assert(self@.names =~= after.names);
                    assert(self@.functions =~= after.functions);
                    assert(self@.locations =~= after.locations);
                    lemma_position_push(before.names, name@, name@);
                    assert(after.names[before.names.len() as int] == name@);
                }
                id
            },
        }
    }

    /// The number of functions, which is the number of locations.
    pub fn len(&self) -> (n: usize)
        ensures
            n == self@.names.len(),
    {
        self.names.len()
    }

    /// The function records and the location records, each in the order of
    /// the identifiers.
    pub fn into_tables(self) -> (tables: (Vec<Function>, Vec<Location>))
        ensures
            function_views(tables.0@) == self@.functions,
            location_views(tables.1@) == self@.locations,
    {
        (self.functions, self.locations)
    }
}

/// Resolving a symbol leaves the registry in order.
pub proof fn lemma_resolve_wf(registry: RegistryView, table: Seq<Seq<char>>, symbol: SymbolView)
    requires
        registry.wf(),
    ensures
        registry.resolve(table, symbol).wf(),
{
}

/// Resolving a symbol moves no name that the registry knows, and makes the
/// symbol's name known.
pub proof fn lemma_resolve_keeps(
    registry: RegistryView,
    table: Seq<Seq<char>>,
    symbol: SymbolView,
    name: Seq<char>,
)
    ensures
        registry.resolve(table, symbol).names.contains(symbol.display_name()),
        registry.names.contains(name) ==> registry.resolve(table, symbol).names.contains(name)
            && id_of(registry.resolve(table, symbol).names, name) == id_of(registry.names, name),
{
    let after = registry.resolve(table, symbol);
    if !registry.names.contains(symbol.display_name()) {
        assert(after.names[registry.names.len() as int] == symbol.display_name());
        lemma_position_push(registry.names, symbol.display_name(), name);
        if registry.names.contains(name) {
            let i = registry.names.index_of(name);
            assert(after.names[i] == name);
        }
    }
}

/// Resolving symbols one after the other moves no name that the registry
/// knows.
pub proof fn lemma_resolve_all_keeps(
    registry: RegistryView,
    table: Seq<Seq<char>>,
    symbols: Seq<SymbolView>,
    name: Seq<char>,
)
    requires
        registry.names.contains(name),
    ensures
        registry.resolve_all(table, symbols).names.contains(name),
        id_of(registry.resolve_all(table, symbols).names, name) == id_of(registry.names, name),
    decreases symbols.len(),
{
    if symbols.len() > 0 {
        lemma_resolve_all_keeps(registry, table, symbols.drop_last(), name);
        lemma_resolve_keeps(
            registry.resolve_all(table, symbols.drop_last()),
            table,
            symbols.last(),
            name,
        );
    }
}

/// Resolving two runs of symbols in turn is resolving the two as one run.
pub proof fn lemma_resolve_all_append(
    registry: RegistryView,
    table: Seq<Seq<char>>,
    first: Seq<SymbolView>,
    second: Seq<SymbolView>,
)
    ensures
        registry.resolve_all(table, first + second) == registry.resolve_all(
            table,
            first,
        ).resolve_all(table, second),
    decreases second.len(),
{
    if second.len() == 0 {
        assert(first + second =~= first);
    } else {
        lemma_resolve_all_append(registry, table, first, second.drop_last());
        assert((first + second).drop_last() =~= first + second.drop_last());
    }
}

/// A registry that started empty and resolved `symbols` knows the distinct
/// names of the symbols in the order of first occurrence, and holds for the
/// name at index `k` the function and the location of identifier `k + 1`,
/// the function with the file of the first symbol of that name.
pub proof fn lemma_registry_of_symbols(table: Seq<Seq<char>>, symbols: Seq<SymbolView>)
    ensures
        RegistryView::empty().resolve_all(table, symbols) == (RegistryView {
            names: function_names(symbols),
            functions: functions_of(table, symbols),
            locations: locations_of(symbols),
        }),
    decreases symbols.len(),
{
    let reached = RegistryView::empty().resolve_all(table, symbols);
    if symbols.len() == 0 {
        assert(function_names(symbols) =~= Seq::empty());
        assert(functions_of(table, symbols) =~= Seq::empty());
        assert(locations_of(symbols) =~= Seq::empty());
    } else {
        let before = symbols.drop_last();
        let symbol = symbols.last();
        let name = symbol.display_name();
        let known = function_names(before);
        lemma_registry_of_symbols(table, before);
        assert(names_of(symbols) =~= names_of(before).push(name));
        lemma_distinct_push(names_of(before), name);
        lemma_distinct(names_of(before));
        assert forall|k: int| 0 <= k < known.len() implies file_of(symbols, known[k]) == file_of(
            before,
            known[k],
        ) by {
            assert(known.contains(known[k]));
            assert(names_of(before).contains(known[k]));
            lemma_position_push(names_of(before), name, known[k]);
            lemma_position(names_of(before), known[k]);
        }
        if known.contains(name) {
            assert(functions_of(table, symbols) =~= functions_of(table, before));
            assert(locations_of(symbols) =~= locations_of(before));
        } else {
            assert(!names_of(before).contains(name));
            lemma_position_push(names_of(before), name, name);
            assert(file_of(symbols, name) == symbol.display_file());
            assert(functions_of(table, symbols) =~= functions_of(table, before).push(
                function_of(table, (known.len() + 1) as nat, name, symbol.display_file()),
            ));
            assert(locations_of(symbols) =~= locations_of(before).push(
                location_of((known.len() + 1) as nat),
            ));
        }
    }
}

} // verus!
