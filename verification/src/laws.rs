//! What holds of the profile of any frames, and of any name.

use vstd::prelude::*;
use crate::decode::{
    lemma_next_separator, next_separator, normalized, separator_at, symbol_of_token, tokens_from,
    FrameView,
};
use crate::intern::{lemma_string_table, lemma_symbols_of_contain, string_table_of, symbols_of};
use crate::profile::{file_of, function_names, names_of, profile_of, FREQUENCY};
use crate::registry::{lemma_resolve_wf, RegistryView};
use crate::seqs::{lemma_distinct, lemma_distinct_count, lemma_position, position};
use crate::symbol::SymbolView;

verus! {

/// The string table of a profile is never empty, and its first string is the
/// empty string.
pub proof fn lemma_string_table_starts_empty(frames: Seq<FrameView>)
    ensures
        profile_of(frames).string_table.len() > 0,
        profile_of(frames).string_table[0] == Seq::<char>::empty(),
{
    lemma_string_table(frames);
}

/// No string stands twice in the string table of a profile.
pub proof fn lemma_string_table_is_unique(frames: Seq<FrameView>)
    ensures
        profile_of(frames).string_table.no_duplicates(),
{
    lemma_string_table(frames);
}

/// A profile has as many functions as its frames hold different names of
/// symbols; the files do not count.
pub proof fn lemma_function_count(frames: Seq<FrameView>)
    ensures
        profile_of(frames).function.len() == names_of(symbols_of(frames)).to_set().len(),
{
    lemma_distinct_count(names_of(symbols_of(frames)));
}

/// A profile has one location for each function, at the same index and with
/// the same identifier, which is the index and one. The location has exactly
/// one line, of number 0, in that function.
pub proof fn lemma_locations_mirror_functions(frames: Seq<FrameView>)
    ensures
        profile_of(frames).location.len() == profile_of(frames).function.len(),
        forall|k: int|
            0 <= k < profile_of(frames).function.len() ==> {
                let function = #[trigger] profile_of(frames).function[k];
                let location = profile_of(frames).location[k];
                &&& function.id == k + 1
                &&& location.id == function.id
                &&& location.line.len() == 1
                &&& location.line[0].line == 0
                &&& location.line[0].function_id == function.id
            },
{
}

/// A profile has one sample for each frame, in order. Each has two values:
/// the cycles of the frame, then the cycles times the nanoseconds of a second
/// over the frequency, the division rounded down.
pub proof fn lemma_sample_values(frames: Seq<FrameView>)
    ensures
        profile_of(frames).sample.len() == frames.len(),
        forall|i: int|
            0 <= i < frames.len() ==> {
                let value = (#[trigger] profile_of(frames).sample[i]).value;
                &&& value.len() == 2
                &&& value[0] == frames[i].cycles
                &&& value[1] == value[0] * 1_000_000_000nat / (FREQUENCY as nat)
            },
{
}

/// The locations of a sample are those of its frame's stack, in the stack's
/// order: each identifier is that of the function that carries the name of
/// the symbol at the same place.
pub proof fn lemma_sample_locations(frames: Seq<FrameView>)
    ensures
        forall|i: int, j: int|
            0 <= i < frames.len() && 0 <= j < frames[i].stack.len() ==> {
                let id = #[trigger] profile_of(frames).sample[i].location_id[j];
                &&& profile_of(frames).sample[i].location_id.len() == frames[i].stack.len()
                &&& 1 <= id <= profile_of(frames).function.len()
                &&& function_names(symbols_of(frames))[id - 1] == frames[i].stack[j].display_name()
            },
{
    let names = function_names(symbols_of(frames));
    assert forall|i: int, j: int|
        0 <= i < frames.len() && 0 <= j < frames[i].stack.len() implies {
        let id = #[trigger] profile_of(frames).sample[i].location_id[j];
        &&& profile_of(frames).sample[i].location_id.len() == frames[i].stack.len()
        &&& 1 <= id <= profile_of(frames).function.len()
        &&& names[id - 1] == frames[i].stack[j].display_name()
    } by {
        let symbol = frames[i].stack[j];
        lemma_symbols_of_contain(frames, i, j);
        let at = symbols_of(frames).index_of(symbol);
        assert(0 <= at < symbols_of(frames).len() && symbols_of(frames)[at] == symbol);
        assert(names_of(symbols_of(frames))[at] == symbol.display_name());
        assert(names_of(symbols_of(frames)).contains(symbol.display_name()));
        lemma_distinct(names_of(symbols_of(frames)));
        assert(names.contains(symbol.display_name()));
        lemma_position(names, symbol.display_name());
    }
}

/// The indices of a function point at its strings: in the string table the
/// name and the name in the system are the function's name, and the file is
/// that of the first symbol in the frames that has the name.
pub proof fn lemma_function_strings(frames: Seq<FrameView>)
    ensures
        profile_of(frames).function.len() == function_names(symbols_of(frames)).len(),
        forall|k: int|
            0 <= k < profile_of(frames).function.len() ==> {
                let function = #[trigger] profile_of(frames).function[k];
                let table = profile_of(frames).string_table;
                let name = function_names(symbols_of(frames))[k];
                &&& function.name < table.len()
                &&& table[function.name as int] == name
                &&& function.system_name == function.name
                &&& function.filename < table.len()
                &&& table[function.filename as int] == file_of(symbols_of(frames), name)
            },
{
    let symbols = symbols_of(frames);
    let names = function_names(symbols);
    let table = string_table_of(frames);
    assert forall|k: int| 0 <= k < profile_of(frames).function.len() implies {
        let function = #[trigger] profile_of(frames).function[k];
        let name = names[k];
        &&& function.name < table.len()
        &&& table[function.name as int] == name
        &&& function.system_name == function.name
        &&& function.filename < table.len()
        &&& table[function.filename as int] == file_of(symbols, name)
    } by {
        let name = names[k];
        lemma_distinct(names_of(symbols));
        assert(names.contains(name));
        assert(names_of(symbols).contains(name));
        lemma_position(names_of(symbols), name);
        let at = position(names_of(symbols), name);
        lemma_symbol_is_in_a_stack(frames, at);
        let (i, j) = choose|i: int, j: int|
            0 <= i < frames.len() && 0 <= j < frames[i].stack.len() && #[trigger] frames[i].stack[j]
                == symbols[at];
        lemma_string_table(frames);
        assert(table.contains(frames[i].stack[j].display_name()));
        assert(symbols[at].display_name() == name);
        lemma_position(table, name);
        lemma_position(table, file_of(symbols, name));
    }
}

/// Every symbol of the frames stands in the stack of one of them.
pub proof fn lemma_symbol_is_in_a_stack(frames: Seq<FrameView>, at: int)
    requires
        0 <= at < symbols_of(frames).len(),
    ensures
        exists|i: int, j: int|
            0 <= i < frames.len() && 0 <= j < frames[i].stack.len() && #[trigger] frames[i].stack[j]
                == symbols_of(frames)[at],
    decreases frames.len(),
{
    if frames.len() > 0 {
        let before = frames.drop_last();
        if at < symbols_of(before).len() {
            lemma_symbol_is_in_a_stack(before, at);
            let (i, j) = choose|i: int, j: int|
                0 <= i < before.len() && 0 <= j < before[i].stack.len()
                    && #[trigger] before[i].stack[j] == symbols_of(before)[at];
            assert(frames[i].stack[j] == symbols_of(frames)[at]);
        } else {
            let i: int = frames.len() - 1;
            let j: int = at - symbols_of(before).len();
            assert(frames[i].stack[j] == symbols_of(frames)[at]);
        }
    }
}

/// The two value types of a profile point at their labels: samples in
/// count, then cpu in nanoseconds, which is also the type of the period.
pub proof fn lemma_value_type_strings(frames: Seq<FrameView>)
    ensures
        profile_of(frames).sample_type.len() == 2,
        profile_of(frames).period_type == profile_of(frames).sample_type[1],
        profile_of(frames).period == 1_000_000_000nat / (FREQUENCY as nat),
        ({
            let table = profile_of(frames).string_table;
            let samples = profile_of(frames).sample_type[0];
            let time = profile_of(frames).sample_type[1];
            &&& samples.field_type < table.len() && table[samples.field_type as int] == "samples"@
            &&& samples.unit < table.len() && table[samples.unit as int] == "count"@
            &&& time.field_type < table.len() && table[time.field_type as int] == "cpu"@
            &&& time.unit < table.len() && table[time.unit as int] == "nanoseconds"@
        }),
{
    let table = string_table_of(frames);
    lemma_string_table(frames);
    lemma_position(table, "samples"@);
    lemma_position(table, "count"@);
    lemma_position(table, "cpu"@);
    lemma_position(table, "nanoseconds"@);
}

/// Whatever symbols a registry resolves, it stays in order: every location
/// keeps the identifier of its function and its one line of number 0.
pub proof fn lemma_registry_stays_in_order(
    registry: RegistryView,
    table: Seq<Seq<char>>,
    symbols: Seq<SymbolView>,
)
    requires
        registry.wf(),
    ensures
        registry.resolve_all(table, symbols).wf(),
    decreases symbols.len(),
{
    if symbols.len() > 0 {
        lemma_registry_stays_in_order(registry, table, symbols.drop_last());
        lemma_resolve_wf(registry.resolve_all(table, symbols.drop_last()), table, symbols.last());
    }
}

/// The same frames give the same profile, whenever it is built.
pub proof fn lemma_same_frames_same_profile(first: Seq<FrameView>, second: Seq<FrameView>)
    requires
        first == second,
    ensures
        profile_of(first) == profile_of(second),
{
}

/// A stored name is as long as the name. Where the name holds `<` it holds
/// `{`, where the name holds `>` it holds `}`, and everywhere else what the
/// name holds.
pub proof fn lemma_normalized(name: Seq<char>)
    ensures
        normalized(name).len() == name.len(),
        forall|i: int|
            0 <= i < name.len() ==> {
                let stored = #[trigger] normalized(name)[i];
                &&& name[i] == '<' ==> stored == '{'
                &&& name[i] == '>' ==> stored == '}'
                &&& name[i] != '<' && name[i] != '>' ==> stored == name[i]
            },
        forall|i: int|
            0 <= i < name.len() ==> #[trigger] normalized(name)[i] != '<' && normalized(name)[i]
                != '>',
{
}

/// The file of a symbol is taken from its token as it stands: it is what
/// comes before the first colon, angle brackets included.
pub proof fn lemma_file_is_kept(token: Seq<char>)
    ensures
        match symbol_of_token(token).file {
            Some(file) => token.contains(':') && file == token.take(position(token, ':')),
            None => !token.contains(':'),
        },
        symbol_of_token(token).name is Some,
{
    lemma_position(token, ':');
}

/// Tokens written one after the other with a separator between each two.
pub open spec fn joined(tokens: Seq<Seq<char>>) -> Seq<char>
    decreases tokens.len(),
{
    if tokens.len() == 0 {
        Seq::empty()
    } else if tokens.len() == 1 {
        tokens[0]
    } else {
        tokens[0] + seq![';', ' '] + joined(tokens.drop_first())
    }
}

/// The tokens of a text, joined by separators, are the text: splitting
/// loses nothing and adds nothing.
pub proof fn lemma_tokens_join(s: Seq<char>, from: int)
    requires
        0 <= from <= s.len(),
    ensures
        tokens_from(s, from).len() >= 1,
        joined(tokens_from(s, from)) == s.skip(from),
    decreases s.len() - from,
{
    let sep = next_separator(s, from);
    lemma_next_separator(s, from);
    if from <= sep && sep + 1 < s.len() {
        let rest = tokens_from(s, sep + 2);
        lemma_tokens_join(s, sep + 2);
        let tokens = tokens_from(s, from);
        assert(tokens.drop_first() =~= rest);
        assert(tokens[0] == s.subrange(from, sep));
        assert(s.subrange(from, sep) + seq![';', ' '] + s.skip(sep + 2) =~= s.skip(from));
    } else {
        assert(s.subrange(from, s.len() as int) =~= s.skip(from));
    }
}

/// No token holds a separator: the text is split at every separator, read
/// from the left.
pub proof fn lemma_tokens_hold_no_separator(s: Seq<char>, from: int)
    requires
        0 <= from <= s.len(),
    ensures
        forall|k: int, i: int|
            0 <= k < tokens_from(s, from).len() ==> !#[trigger] separator_at(
                tokens_from(s, from)[k],
                i,
            ),
    decreases s.len() - from,
{
    let sep = next_separator(s, from);
    let tokens = tokens_from(s, from);
    lemma_next_separator(s, from);
    if from <= sep && sep + 1 < s.len() {
        let rest = tokens_from(s, sep + 2);
        lemma_tokens_hold_no_separator(s, sep + 2);
        assert forall|k: int, i: int| 0 <= k < tokens.len() implies !#[trigger] separator_at(
            tokens[k],
            i,
        ) by {
            if k == 0 {
                if separator_at(tokens[0], i) {
                    assert(separator_at(s, from + i));
                }
            } else {
                assert(tokens[k] == rest[k - 1]);
            }
        }
    } else {
        assert forall|k: int, i: int| 0 <= k < tokens.len() implies !#[trigger] separator_at(
            tokens[k],
            i,
        ) by {
            if separator_at(tokens[0], i) {
                assert(separator_at(s, from + i));
            }
        }
    }
}

} // verus!
