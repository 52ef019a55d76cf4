//! The records of a profile and what they are to the contracts.
//!
//! Every number of a record is kept as an unsigned 64-bit integer: the
//! identifiers, the indices into the string table and the values are never
//! negative.

use vstd::prelude::*;
use crate::decode::FrameView;
use crate::intern::{string_table_of, symbols_of};
use crate::seqs::{distinct, position};
use crate::symbol::SymbolView;
use crate::text::string_views;

verus! {

/// The cycles that the profiled clock counts in one second.
pub const FREQUENCY: u64 = 1_000_000_000;

/// The nanoseconds of one second.
pub const NANOSECONDS_PER_SECOND: u64 = 1_000_000_000;

/// The time that `cycles` cycles take, in whole nanoseconds.
pub open spec fn nanoseconds_of(cycles: nat) -> nat {
    cycles * 1_000_000_000 / (FREQUENCY as nat)
}

/// The nanoseconds that one cycle takes.
pub open spec fn period_of() -> nat {
    (NANOSECONDS_PER_SECOND as nat) / (FREQUENCY as nat)
}

/// Numbers as the contracts see them.
pub open spec fn numbers(values: Seq<u64>) -> Seq<nat> {
    values.map_values(|v: u64| v as nat)
}

/// What a value type is to the contracts.
pub struct ValueTypeView {
    pub field_type: nat,
    pub unit: nat,
}

/// What one of the values of a sample measures, and in which unit: two
/// indices into the string table.
#[derive(Debug, Clone, Copy, PartialEq, Eq)]
pub struct ValueType {
    pub field_type: u64,
    pub unit: u64,
}

impl View for ValueType {
    type V = ValueTypeView;

    open spec fn view(&self) -> ValueTypeView {
        ValueTypeView { field_type: self.field_type as nat, unit: self.unit as nat }
    }
}

/// The value types of a vector as the contracts see them.
pub open spec fn value_type_views(value_types: Seq<ValueType>) -> Seq<ValueTypeView> {
    value_types.map_values(|t: ValueType| t@)
}

/// What a function record is to the contracts.
pub struct FunctionView {
    pub id: nat,
    pub name: nat,
    pub system_name: nat,
    pub filename: nat,
}

/// A function: its identifier, and the indices of its name, of its name in
/// the system and of its file in the string table.
#[derive(Debug, Clone, Copy, PartialEq, Eq)]
pub struct Function {
    pub id: u64,
    pub name: u64,
    pub system_name: u64,
    pub filename: u64,
}

impl View for Function {
    type V = FunctionView;

    open spec fn view(&self) -> FunctionView {
        FunctionView {
            id: self.id as nat,
            name: self.name as nat,
            system_name: self.system_name as nat,
            filename: self.filename as nat,
        }
    }
}

/// The functions of a vector as the contracts see them.
pub open spec fn function_views(functions: Seq<Function>) -> Seq<FunctionView> {
    functions.map_values(|f: Function| f@)
}

/// What a line is to the contracts.
pub struct LineView {
    pub function_id: nat,
    pub line: nat,
}

/// A line of a location: the function that it belongs to, and its number in
/// the source.
#[derive(Debug, Clone, Copy, PartialEq, Eq)]
pub struct Line {
    pub function_id: u64,
    pub line: u64,
}

impl View for Line {
    type V = LineView;

    open spec fn view(&self) -> LineView {
        LineView { function_id: self.function_id as nat, line: self.line as nat }
    }
}

/// The lines of a vector as the contracts see them.
pub open spec fn line_views(lines: Seq<Line>) -> Seq<LineView> {
    lines.map_values(|l: Line| l@)
}

/// What a location is to the contracts.
pub struct LocationView {
    pub id: nat,
    pub line: Seq<LineView>,
}

/// A place in the program that a stack can pass through.
#[derive(Debug, Clone, PartialEq, Eq)]
pub struct Location {
    pub id: u64,
    pub line: Vec<Line>,
}

impl View for Location {
    type V = LocationView;

    open spec fn view(&self) -> LocationView {
        LocationView { id: self.id as nat, line: line_views(self.line@) }
    }
}

/// The locations of a vector as the contracts see them.
pub open spec fn location_views(locations: Seq<Location>) -> Seq<LocationView> {
    locations.map_values(|l: Location| l@)
}

/// What a sample is to the contracts.
pub struct SampleView {
    pub location_id: Seq<nat>,
    pub value: Seq<nat>,
}

/// One measured stack: the locations from root to leaf, and the values
/// measured for it.
#[derive(Debug, Clone, PartialEq, Eq)]
pub struct Sample {
    pub location_id: Vec<u64>,
    pub value: Vec<u64>,
}

impl View for Sample {
    type V = SampleView;

    open spec fn view(&self) -> SampleView {
        SampleView {
            location_id: numbers(self.location_id@),
            value: numbers(self.value@),
        }
    }
}

/// The samples of a vector as the contracts see them.
pub open spec fn sample_views(samples: Seq<Sample>) -> Seq<SampleView> {
    samples.map_values(|s: Sample| s@)
}

/// What a profile is to the contracts.
pub struct ProfileView {
    pub sample_type: Seq<ValueTypeView>,
    pub sample: Seq<SampleView>,
    pub string_table: Seq<Seq<char>>,
    pub function: Seq<FunctionView>,
    pub location: Seq<LocationView>,
    pub period_type: ValueTypeView,
    pub period: nat,
}

/// A whole profile: the samples and the tables that they refer to.
#[derive(Debug, Clone, PartialEq, Eq)]
pub struct Profile {
    pub sample_type: Vec<ValueType>,
    pub sample: Vec<Sample>,
    pub string_table: Vec<String>,
    pub function: Vec<Function>,
    pub location: Vec<Location>,
    pub period_type: ValueType,
    pub period: u64,
}

impl View for Profile {
    type V = ProfileView;

    open spec fn view(&self) -> ProfileView {
        ProfileView {
            sample_type: value_type_views(self.sample_type@),
            sample: sample_views(self.sample@),
            string_table: string_views(self.string_table@),
            function: function_views(self.function@),
            location: location_views(self.location@),
            period_type: self.period_type@,
            period: self.period as nat,
        }
    }
}

/// The names of the symbols as they are shown, symbol after symbol.
pub open spec fn names_of(symbols: Seq<SymbolView>) -> Seq<Seq<char>> {
    symbols.map_values(|s: SymbolView| s.display_name())
}

/// The names of the functions of a profile: each name of a symbol once, in
/// the order of first occurrence. The function at index `k` has the
/// identifier `k + 1`.
pub open spec fn function_names(symbols: Seq<SymbolView>) -> Seq<Seq<char>> {
    distinct(names_of(symbols))
}

/// The file of the function called `name`: that of the first symbol of that
/// name.
pub open spec fn file_of(symbols: Seq<SymbolView>, name: Seq<char>) -> Seq<char> {
    symbols[position(names_of(symbols), name)].display_file()
}

/// The record of the function `id`, called `name` and defined in `file`,
/// over the string table `table`.
pub open spec fn function_of(
    table: Seq<Seq<char>>,
    id: nat,
    name: Seq<char>,
    file: Seq<char>,
) -> FunctionView {
    FunctionView {
        id,
        name: position(table, name) as nat,
        system_name: position(table, name) as nat,
        filename: position(table, file) as nat,
    }
}

/// The function records of a profile of `symbols` over `table`.
pub open spec fn functions_of(table: Seq<Seq<char>>, symbols: Seq<SymbolView>) -> Seq<
    FunctionView,
> {
    let names = function_names(symbols);
    Seq::new(
        names.len(),
        |k: int| function_of(table, (k + 1) as nat, names[k], file_of(symbols, names[k])),
    )
}

/// The location of the function `id`: it shares the identifier and has one
/// line, of number 0, in that function.
pub open spec fn location_of(id: nat) -> LocationView {
    LocationView { id, line: seq![LineView { function_id: id, line: 0 }] }
}

/// The location records of a profile of `symbols`: one for each function.
pub open spec fn locations_of(symbols: Seq<SymbolView>) -> Seq<LocationView> {
    Seq::new(function_names(symbols).len(), |k: int| location_of((k + 1) as nat))
}

/// The identifier of the function called `name`, where `names` are the
/// functions' names.
pub open spec fn id_of(names: Seq<Seq<char>>, name: Seq<char>) -> nat {
    (position(names, name) + 1) as nat
}

/// The sample of one frame: the identifier of each symbol of the stack, in
/// the stack's order, then the cycles and the nanoseconds that they take.
pub open spec fn sample_of(names: Seq<Seq<char>>, frame: FrameView) -> SampleView {
    SampleView {
        location_id: Seq::new(
            frame.stack.len(),
            |j: int| id_of(names, frame.stack[j].display_name()),
        ),
        value: seq![frame.cycles as nat, nanoseconds_of(frame.cycles as nat)],
    }
}

/// The samples of a profile of `frames`: one for each frame, in order.
pub open spec fn samples_of(frames: Seq<FrameView>) -> Seq<SampleView> {
    let names = function_names(symbols_of(frames));
    Seq::new(frames.len(), |i: int| sample_of(names, frames[i]))
}

/// The value type that `kind` and `unit` name over `table`.
pub open spec fn value_type_of(table: Seq<Seq<char>>, kind: Seq<char>, unit: Seq<char>)
    -> ValueTypeView {
    ValueTypeView { field_type: position(table, kind) as nat, unit: position(table, unit) as nat }
}

/// The profile of `frames`.
pub open spec fn profile_of(frames: Seq<FrameView>) -> ProfileView {
    let table = string_table_of(frames);
    let symbols = symbols_of(frames);
    ProfileView {
        sample_type: seq![
            value_type_of(table, "samples"@, "count"@),
            value_type_of(table, "cpu"@, "nanoseconds"@),
        ],
        sample: samples_of(frames),
        string_table: table,
        function: functions_of(table, symbols),
        location: locations_of(symbols),
        period_type: value_type_of(table, "cpu"@, "nanoseconds"@),
        period: period_of(),
    }
}

} // verus!
