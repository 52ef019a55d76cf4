//! When a profile can be encoded: how long its messages can get.

use vstd::prelude::*;
use vstd::utf8::{encode_scalar, encode_utf8};
use crate::convert::decode_lines;
use crate::decode::{
    decode_line, lemma_next_separator, next_separator, stack_of, symbol_of_token, tokens_from,
    FrameView,
};
use crate::intern::{all_labels, string_table_of, symbol_labels, symbols_of, value_labels};
use crate::laws::lemma_symbol_is_in_a_stack;
use crate::profile::{
    function_names, id_of, location_of, names_of, nanoseconds_of, profile_of, FunctionView,
    LineView, SampleView, ValueTypeView,
};
use crate::seqs::{last_position, lemma_distinct, lemma_last_position, lemma_position, position};
use crate::symbol::SymbolView;
use crate::wire::{
    all_fit, bytes_field, encodable, fits, function_bytes, function_payloads, line_bytes,
    line_payloads, location_bytes, location_payloads, repeated_field, sample_bytes, sample_fits,
    sample_payloads, scalar_field, string_payloads, value_type_bytes, value_type_payloads,
    varint, varints,
};

verus! {

/// 128 to the power of `k`: the numbers below it have varints of at most `k`
/// bytes.
pub open spec fn pow128(k: nat) -> nat
    decreases k,
{
    if k == 0 {
        1
    } else {
        128 * pow128((k - 1) as nat)
    }
}

/// The most bytes in the varint of a number that this module speaks of.
pub open spec fn number_bytes() -> nat {
    14
}

/// Whether a number is below 128 to the power of 14, so that its varint has
/// at most 14 bytes. Every 64-bit number is.
pub open spec fn is_short(value: nat) -> bool {
    value < pow128(number_bytes())
}

/// A number below 128 to the power of `k` has a varint of at most `k` bytes.
pub proof fn lemma_varint_len(value: nat, k: nat)
    requires
        k >= 1,
        value < pow128(k),
    ensures
        1 <= varint(value).len() <= k,
    decreases k,
{
    if value >= 128 {
        assert(pow128(1) == 128) by {
            reveal_with_fuel(pow128, 2);
        }
        assert(k >= 2);
        assert(value / 128 < pow128((k - 1) as nat));
        lemma_varint_len(value / 128, (k - 1) as nat);
    }
}

/// The powers of 128 that the bounds use.
pub proof fn lemma_pow128()
    ensures
        pow128(1) == 128,
        pow128(5) == 0x8_0000_0000,
        pow128(14) == 0x4_0000_0000_0000_0000_0000_0000,
{
    reveal_with_fuel(pow128, 15);
}

/// A scalar field with a number up to 15 and a short value has at most 15
/// bytes.
pub proof fn lemma_scalar_field_len(field: nat, value: nat)
    requires
        1 <= field <= 15,
        is_short(value),
    ensures
        scalar_field(field, value).len() <= 15,
{
    lemma_pow128();
    lemma_varint_len(field * 8, 1);
    lemma_varint_len(value, 14);
}

/// A length-delimited field with a number up to 15 whose payload fits has at
/// most six bytes more than the payload.
pub proof fn lemma_bytes_field_len(field: nat, payload: Seq<u8>)
    requires
        1 <= field <= 15,
        fits(payload),
    ensures
        bytes_field(field, payload).len() <= payload.len() + 6,
{
    lemma_pow128();
    lemma_varint_len(field * 8 + 2, 1);
    lemma_varint_len(payload.len(), 5);
}

/// The varints of short numbers have at most 14 bytes each.
pub proof fn lemma_varints_len(values: Seq<nat>)
    requires
        forall|i: int| 0 <= i < values.len() ==> is_short(#[trigger] values[i]),
    ensures
        varints(values).len() <= 14 * values.len(),
    decreases values.len(),
{
    if values.len() > 0 {
        lemma_varints_len(values.drop_last());
        lemma_varint_len(values.last(), 14);
    }
}

/// A text in UTF-8 has at most four bytes for each character.
pub proof fn lemma_utf8_len(text: Seq<char>)
    ensures
        encode_utf8(text).len() <= 4 * text.len(),
    decreases text.len(),
{
    if text.len() > 0 {
        lemma_utf8_len(text.drop_first());
        assert(encode_scalar(text[0] as u32).len() <= 4);
    }
}

/// The most symbols in a stack that the bounds below allow.
pub open spec fn stack_limit() -> nat {
    100_000_000
}

/// The most characters in a name or a file that the bounds below allow.
pub open spec fn text_limit() -> nat {
    1_000_000_000
}

/// Whether frames are small: no more frames than 64 bits count, no stack
/// over the stack limit, no name or file, as shown, over the text limit.
pub open spec fn are_small(frames: Seq<FrameView>) -> bool {
    &&& frames.len() <= u64::MAX
    &&& forall|i: int| 0 <= i < frames.len() ==> (#[trigger] frames[i]).stack.len() <= stack_limit()
    &&& forall|i: int, j: int|
        0 <= i < frames.len() && 0 <= j < frames[i].stack.len() ==> (
        #[trigger] frames[i].stack[j]).display_name().len() <= text_limit()
            && frames[i].stack[j].display_file().len() <= text_limit()
}

/// The message of a value type with short numbers has at most 30 bytes.
proof fn lemma_value_type_len(value_type: ValueTypeView)
    requires
        is_short(value_type.field_type),
        is_short(value_type.unit),
    ensures
        value_type_bytes(value_type).len() <= 30,
{
    lemma_scalar_field_len(1, value_type.field_type);
    lemma_scalar_field_len(2, value_type.unit);
}

/// The message of a function with short numbers has at most 60 bytes.
proof fn lemma_function_len(function: FunctionView)
    requires
        is_short(function.id),
        is_short(function.name),
        is_short(function.system_name),
        is_short(function.filename),
    ensures
        function_bytes(function).len() <= 60,
{
    lemma_scalar_field_len(1, function.id);
    lemma_scalar_field_len(2, function.name);
    lemma_scalar_field_len(3, function.system_name);
    lemma_scalar_field_len(4, function.filename);
}

/// The location of a function with a short identifier: its line fits, and
/// its message has at most 36 bytes.
proof fn lemma_location_len(id: nat)
    requires
        is_short(id),
    ensures
        all_fit(line_payloads(location_of(id).line)),
        location_bytes(location_of(id)).len() <= 36,
{
    let line = LineView { function_id: id, line: 0 };
    let payloads = line_payloads(location_of(id).line);
    lemma_scalar_field_len(1, id);
    assert(line_bytes(line).len() <= 15);
    assert(payloads =~= seq![line_bytes(line)]);
    lemma_bytes_field_len(4, line_bytes(line));
    assert(payloads.drop_last() =~= Seq::<Seq<u8>>::empty());
    assert(repeated_field(4, payloads) =~= bytes_field(4, line_bytes(line))) by {
        reveal_with_fuel(repeated_field, 2);
    }
}

/// A sample with short numbers, at most as many locations as the stack
/// limit and two values: its packed fields fit, and so does its message.
proof fn lemma_sample_len(sample: SampleView)
    requires
        sample.location_id.len() <= stack_limit(),
        sample.value.len() == 2,
        forall|i: int| 0 <= i < sample.location_id.len() ==> is_short(
            #[trigger] sample.location_id[i],
        ),
        forall|i: int| 0 <= i < sample.value.len() ==> is_short(#[trigger] sample.value[i]),
    ensures
        sample_fits(sample),
        fits(sample_bytes(sample)),
{
    lemma_varints_len(sample.location_id);
    lemma_varints_len(sample.value);
    if sample.location_id.len() > 0 {
        lemma_bytes_field_len(1, varints(sample.location_id));
    }
    lemma_bytes_field_len(2, varints(sample.value));
}

/// Frames with stacks up to the stack limit hold at most that many symbols
/// each.
proof fn lemma_symbols_count(frames: Seq<FrameView>)
    requires
        forall|i: int|
            0 <= i < frames.len() ==> (#[trigger] frames[i]).stack.len() <= stack_limit(),
    ensures
        symbols_of(frames).len() <= frames.len() * 100_000_000,
    decreases frames.len(),
{
    if frames.len() > 0 {
        let before = frames.drop_last();
        assert forall|i: int| 0 <= i < before.len() implies (#[trigger] before[i]).stack.len()
            <= stack_limit() by {
            assert(before[i] == frames[i]);
        }
        lemma_symbols_count(before);
        assert(frames.last() == frames[frames.len() - 1]);
    }
}

/// The labels of symbols are two for each symbol: its name, then its file.
proof fn lemma_symbol_labels_index(symbols: Seq<SymbolView>)
    ensures
        symbol_labels(symbols).len() == 2 * symbols.len(),
        forall|i: int|
            0 <= i < symbols.len() ==> symbol_labels(symbols)[2 * i] == (
            #[trigger] symbols[i]).display_name() && symbol_labels(symbols)[2 * i + 1]
                == symbols[i].display_file(),
    decreases symbols.len(),
{
    if symbols.len() > 0 {
        let before = symbols.drop_last();
        lemma_symbol_labels_index(before);
        assert forall|i: int| 0 <= i < symbols.len() implies symbol_labels(symbols)[2 * i] == (
        #[trigger] symbols[i]).display_name() && symbol_labels(symbols)[2 * i + 1]
            == symbols[i].display_file() by {
            if i < before.len() {
                assert(before[i] == symbols[i]);
            }
        }
    }
}

/// Every string of the string table of small frames is within the text
/// limit.
proof fn lemma_table_texts(frames: Seq<FrameView>)
    requires
        are_small(frames),
    ensures
        forall|k: int|
            0 <= k < string_table_of(frames).len() ==> (#[trigger] string_table_of(
                frames,
            )[k]).len() <= text_limit(),
{
    let table = string_table_of(frames);
    let all = all_labels(frames);
    let symbols = symbols_of(frames);
    let labels = symbol_labels(symbols);
    lemma_distinct(all);
    lemma_symbol_labels_index(symbols);
    reveal_strlit("samples");
    reveal_strlit("count");
    reveal_strlit("cpu");
    reveal_strlit("nanoseconds");
    assert forall|k: int| 0 <= k < table.len() implies (#[trigger] table[k]).len()
        <= text_limit() by {
        assert(table.contains(table[k]));
        assert(all.contains(table[k]));
        let at = all.index_of(table[k]);
        assert(0 <= at < all.len() && all[at] == table[k]);
        if at == 0 {
        } else if at <= labels.len() {
            let label = at - 1;
            let index = label / 2;
            assert(all[at] == labels[label]);
            lemma_symbol_is_in_a_stack(frames, index);
            let (i, j) = choose|i: int, j: int|
                0 <= i < frames.len() && 0 <= j < frames[i].stack.len()
                    && #[trigger] frames[i].stack[j] == symbols[index];
            assert(frames[i].stack[j].display_name().len() <= text_limit());
            if label == 2 * index {
                assert(labels[label] == symbols[index].display_name());
            } else {
                assert(label == 2 * index + 1);
                assert(labels[label] == symbols[index].display_file());
            }
        } else {
            let fixed = value_labels();
            assert(all[at] == fixed[at - 1 - labels.len()]);
        }
    }
}

/// The profile of small frames can be encoded: every length-delimited field
/// of its message can hold what goes into it.
pub proof fn lemma_small_frames_are_encodable(frames: Seq<FrameView>)
    requires
        are_small(frames),
    ensures
        encodable(profile_of(frames)),
{
    let profile = profile_of(frames);
    let table = string_table_of(frames);
    let symbols = symbols_of(frames);
    let names = function_names(symbols);
    lemma_pow128();
    lemma_symbols_count(frames);
    lemma_symbol_labels_index(symbols);
    lemma_distinct(all_labels(frames));
    lemma_distinct(names_of(symbols));
    assert(names.len() <= symbols.len());
    assert(table.len() <= 2 * symbols.len() + 5);
    assert forall|x: Seq<char>| is_short(#[trigger] position(table, x) as nat) by {
        lemma_position(table, x);
    }
    assert forall|x: Seq<char>| is_short(#[trigger] id_of(names, x)) by {
        lemma_position(names, x);
    }
    assert(all_fit(value_type_payloads(profile.sample_type))) by {
        assert forall|i: int| 0 <= i < profile.sample_type.len() implies fits(
            #[trigger] value_type_payloads(profile.sample_type)[i],
        ) by {
            lemma_value_type_len(profile.sample_type[i]);
        }
    }
    assert(fits(value_type_bytes(profile.period_type))) by {
        lemma_value_type_len(profile.period_type);
    }
    assert forall|i: int| 0 <= i < profile.sample.len() implies sample_fits(
        #[trigger] profile.sample[i],
    ) && fits(sample_bytes(profile.sample[i])) by {
        assert(frames[i].stack.len() <= stack_limit());
        assert(nanoseconds_of(frames[i].cycles as nat) == frames[i].cycles);
        lemma_sample_len(profile.sample[i]);
    }
    assert(all_fit(sample_payloads(profile.sample))) by {
        assert forall|i: int| 0 <= i < profile.sample.len() implies fits(
            #[trigger] sample_payloads(profile.sample)[i],
        ) by {
            assert(fits(sample_bytes(profile.sample[i])));
        }
    }
    assert forall|i: int| 0 <= i < profile.location.len() implies all_fit(
        line_payloads((#[trigger] profile.location[i]).line),
    ) && fits(location_bytes(profile.location[i])) by {
        lemma_location_len((i + 1) as nat);
    }
    assert(all_fit(location_payloads(profile.location))) by {
        assert forall|i: int| 0 <= i < profile.location.len() implies fits(
            #[trigger] location_payloads(profile.location)[i],
        ) by {
            assert(fits(location_bytes(profile.location[i])));
        }
    }
    assert(all_fit(function_payloads(profile.function))) by {
        assert forall|i: int| 0 <= i < profile.function.len() implies fits(
            #[trigger] function_payloads(profile.function)[i],
        ) by {
            lemma_function_len(profile.function[i]);
        }
    }
    assert(all_fit(string_payloads(profile.string_table))) by {
        lemma_table_texts(frames);
        assert forall|i: int| 0 <= i < profile.string_table.len() implies fits(
            #[trigger] string_payloads(profile.string_table)[i],
        ) by {
            assert(table[i].len() <= text_limit());
            lemma_utf8_len(table[i]);
        }
    }
}

/// The most characters in a line that the bound on lines allows.
pub open spec fn line_limit() -> nat {
    99_999_999
}

/// A text has at most one token more than it has characters, and no token
/// longer than itself.
proof fn lemma_tokens_sizes(s: Seq<char>, from: int)
    requires
        0 <= from <= s.len(),
    ensures
        1 <= tokens_from(s, from).len() <= s.len() - from + 1,
        forall|k: int|
            0 <= k < tokens_from(s, from).len() ==> (#[trigger] tokens_from(s, from)[k]).len()
                <= s.len(),
    decreases s.len() - from,
{
    let sep = next_separator(s, from);
    let tokens = tokens_from(s, from);
    lemma_next_separator(s, from);
    if from <= sep && sep + 1 < s.len() {
        let rest = tokens_from(s, sep + 2);
        lemma_tokens_sizes(s, sep + 2);
        assert forall|k: int| 0 <= k < tokens.len() implies (#[trigger] tokens[k]).len()
            <= s.len() by {
            if k > 0 {
                assert(tokens[k] == rest[k - 1]);
            }
        }
    }
}

/// The symbol of a token has a name and a file, as shown, of at most as many
/// characters as the token, or of the nine of the unknown label.
proof fn lemma_symbol_sizes(token: Seq<char>)
    ensures
        symbol_of_token(token).display_name().len() <= token.len(),
        symbol_of_token(token).display_file().len() <= token.len() || symbol_of_token(
            token,
        ).display_file().len() == 9,
{
    lemma_position(token, ':');
    reveal_strlit("<Unknown>");
}

/// A frame decoded from a line has at most one symbol more than the line has
/// characters, and no name or file, as shown, longer than the line or than
/// the nine characters of the unknown label.
pub proof fn lemma_decoded_sizes(line: Seq<char>)
    requires
        decode_line(line) is Ok,
    ensures
        decode_line(line)->Ok_0.stack.len() <= line.len() + 1,
        forall|j: int|
            0 <= j < decode_line(line)->Ok_0.stack.len() ==> {
                let symbol = #[trigger] decode_line(line)->Ok_0.stack[j];
                &&& symbol.display_name().len() <= line.len()
                &&& symbol.display_file().len() <= line.len() || symbol.display_file().len() == 9
            },
{
    let space = last_position(line, ' ');
    lemma_last_position(line, ' ');
    let description = line.take(space);
    let tokens = tokens_from(description, 0);
    let stack = stack_of(description);
    lemma_tokens_sizes(description, 0);
    assert(stack.len() == tokens.len());
    assert forall|j: int| 0 <= j < stack.len() implies {
        let symbol = #[trigger] stack[j];
        &&& symbol.display_name().len() <= line.len()
        &&& symbol.display_file().len() <= line.len() || symbol.display_file().len() == 9
    } by {
        let token = tokens[tokens.len() - 1 - j];
        assert(stack[j] == symbol_of_token(token));
        lemma_symbol_sizes(token);
    }
}

/// Lines that decode give one frame for each line, in order.
pub proof fn lemma_decode_lines_each(lines: Seq<Seq<char>>)
    requires
        decode_lines(lines) is Ok,
    ensures
        decode_lines(lines)->Ok_0.len() == lines.len(),
        forall|i: int|
            0 <= i < lines.len() ==> decode_line(#[trigger] lines[i]) is Ok && decode_lines(
                lines,
            )->Ok_0[i] == decode_line(lines[i])->Ok_0,
    decreases lines.len(),
{
    if lines.len() > 0 {
        let before = lines.drop_last();
        lemma_decode_lines_each(before);
        assert forall|i: int| 0 <= i < lines.len() implies decode_line(#[trigger] lines[i]) is Ok
            && decode_lines(lines)->Ok_0[i] == decode_line(lines[i])->Ok_0 by {
            if i < before.len() {
                assert(before[i] == lines[i]);
            }
        }
    }
}

/// Lines that decode, none over the line limit and no more of them than 64
/// bits count, give a profile that can be encoded.
pub proof fn lemma_short_lines_are_encodable(lines: Seq<Seq<char>>)
    requires
        lines.len() <= u64::MAX,
        forall|i: int| 0 <= i < lines.len() ==> (#[trigger] lines[i]).len() <= line_limit(),
        decode_lines(lines) is Ok,
    ensures
        encodable(profile_of(decode_lines(lines)->Ok_0)),
{
    let frames = decode_lines(lines)->Ok_0;
    lemma_decode_lines_each(lines);
    assert forall|i: int| 0 <= i < frames.len() implies (#[trigger] frames[i]).stack.len()
        <= stack_limit() by {
        assert(lines[i].len() <= line_limit());
        lemma_decoded_sizes(lines[i]);
    }
    assert forall|i: int, j: int| 0 <= i < frames.len() && 0 <= j < frames[i].stack.len() implies (
    #[trigger] frames[i].stack[j]).display_name().len() <= text_limit()
        && frames[i].stack[j].display_file().len() <= text_limit() by {
        assert(lines[i].len() <= line_limit());
        lemma_decoded_sizes(lines[i]);
        assert(frames[i] == decode_line(lines[i])->Ok_0);
        assert(decode_line(lines[i])->Ok_0.stack[j] == frames[i].stack[j]);
    }
    lemma_small_frames_are_encodable(frames);
}

} // verus!
