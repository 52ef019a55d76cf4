//! The string table: every name, file and label of a profile exactly once,
//! each found again by its index.

use vstd::prelude::*;
use crate::decode::{frame_views, Frame, FrameView};
use crate::seqs::{
    distinct, lemma_distinct, lemma_distinct_first, lemma_distinct_push, lemma_position_at,
    position,
};
use crate::symbol::{symbol_views, SymbolView};
use crate::text::{find_string, string_views};

verus! {

/// The symbols of all frames, frame after frame, each stack root first.
pub open spec fn symbols_of(frames: Seq<FrameView>) -> Seq<SymbolView>
    decreases frames.len(),
{
    if frames.len() == 0 {
        Seq::empty()
    } else {
        symbols_of(frames.drop_last()) + frames.last().stack
    }
}

/// The name and the file of each symbol as they are shown, symbol after
/// symbol.
pub open spec fn symbol_labels(symbols: Seq<SymbolView>) -> Seq<Seq<char>>
    decreases symbols.len(),
{
    if symbols.len() == 0 {
        Seq::empty()
    } else {
        symbol_labels(symbols.drop_last()).push(symbols.last().display_name()).push(
            symbols.last().display_file(),
        )
    }
}

/// The four labels that describe the two values of a sample.
pub open spec fn value_labels() -> Seq<Seq<char>> {
    seq!["samples"@, "count"@, "cpu"@, "nanoseconds"@]
}

/// Every string that a profile of `frames` refers to, repetitions included:
/// the empty string, the labels of the symbols, the value labels.
pub open spec fn all_labels(frames: Seq<FrameView>) -> Seq<Seq<char>> {
    seq![Seq::<char>::empty()] + symbol_labels(symbols_of(frames)) + value_labels()
}

/// The string table of a profile of `frames`: each string once, in the order
/// of first occurrence, so that the empty string comes first.
pub open spec fn string_table_of(frames: Seq<FrameView>) -> Seq<Seq<char>> {
    distinct(all_labels(frames))
}

/// An ordered table of strings without repetitions that starts with the empty
/// string.
pub struct StringTable {
    strings: Vec<String>,
}

impl View for StringTable {
    type V = Seq<Seq<char>>;

    closed spec fn view(&self) -> Seq<Seq<char>> {
        string_views(self.strings@)
    }
}

impl StringTable {
    /// The table holds the empty string at index 0 and no string twice.
    pub open spec fn wf(&self) -> bool {
        &&& self@.len() > 0
        &&& self@[0] == Seq::<char>::empty()
        &&& self@.no_duplicates()
    }

    /// The table of the empty string alone.
    pub fn new() -> (table: StringTable)
        ensures
            table.wf(),
            table@ == seq![Seq::<char>::empty()],
    {
        let mut strings: Vec<String> = Vec::new();
        strings.push(String::new());
        let table = StringTable { strings };
        assert(table@ =~= seq![Seq::<char>::empty()]);
        table
    }

    /// The number of strings in the table.
    pub fn len(&self) -> (n: usize)
        ensures
            n == self@.len(),
    {
        self.strings.len()
    }

    /// The index of `s` in the table, if the table holds it.
    pub fn index_of(&self, s: &String) -> (found: Option<usize>)
        ensures
            match found {
                Some(index) => index < self@.len() && self@[index as int] == s@ && index
                    == position(self@, s@),
                None => !self@.contains(s@),
            },
    {
        find_string(&self.strings, s)
    }

    /// Makes sure that the table holds `s`, and returns its index. A string
    /// that the table lacks goes to its end; the others stay where they are.
    pub fn intern(&mut self, s: String) -> (index: usize)
        requires
            old(self).wf(),
        ensures
            final(self).wf(),
            final(self)@ == if old(self)@.contains(s@) {
                old(self)@
            } else {
                old(self)@.push(s@)
            },
            index == position(final(self)@, s@),
            index < final(self)@.len(),
            final(self)@[index as int] == s@,
            final(self)@.contains(s@),
            forall|other: Seq<char>|
                old(self)@.contains(other) ==> #[trigger] final(self)@.contains(other),
    {
        match self.index_of(&s) {
            Some(index) => {
                assert(self@[index as int] == s@);
                index
            },
            None => {
                let index: usize = self.strings.len();
                let ghost before = self@;
                self.strings.push(s);
                proof {
                    assert(self@ =~= before.push(s@));
                    assert forall|j: int| 0 <= j < before.len() implies self@[j] != s@ by {
                        assert(before[j] != s@);
                    }
                    lemma_position_at(self@, s@, index as int);
                    assert forall|other: Seq<char>| before.contains(other) implies self@.contains(
                        other,
                    ) by {
                        let at = before.index_of(other);
                        assert(self@[at] == other);
                    }
                }
                index
            },
        }
    }

    /// The strings of the table, in order.
    pub fn into_strings(self) -> (strings: Vec<String>)
        ensures
            string_views(strings@) == self@,
    {
        self.strings
    }
}

/// One more frame adds its stack to the symbols.
pub proof fn lemma_symbols_of_push(frames: Seq<FrameView>, frame: FrameView)
    ensures
        symbols_of(frames.push(frame)) == symbols_of(frames) + frame.stack,
{
    assert(frames.push(frame).drop_last() =~= frames);
}

/// One more symbol adds its name, then its file, to the labels.
pub proof fn lemma_symbol_labels_push(symbols: Seq<SymbolView>, symbol: SymbolView)
    ensures
        symbol_labels(symbols.push(symbol)) == symbol_labels(symbols).push(
            symbol.display_name(),
        ).push(symbol.display_file()),
{
    assert(symbols.push(symbol).drop_last() =~= symbols);
}

/// The labels of a sequence of symbols hold the name and the file of each.
pub proof fn lemma_symbol_labels_contain(symbols: Seq<SymbolView>, i: int)
    requires
        0 <= i < symbols.len(),
    ensures
        symbol_labels(symbols).contains(symbols[i].display_name()),
        symbol_labels(symbols).contains(symbols[i].display_file()),
    decreases symbols.len(),
{
    let labels = symbol_labels(symbols);
    let before = symbol_labels(symbols.drop_last());
    assert(labels.len() == before.len() + 2);
    if i == symbols.len() - 1 {
        assert(labels[before.len() as int] == symbols[i].display_name());
        assert(labels[before.len() as int + 1] == symbols[i].display_file());
    } else {
        lemma_symbol_labels_contain(symbols.drop_last(), i);
        let n = before.index_of(symbols[i].display_name());
        assert(labels[n] == symbols[i].display_name());
        let f = before.index_of(symbols[i].display_file());
        assert(labels[f] == symbols[i].display_file());
    }
}

/// Every symbol of every stack is among the symbols of the frames.
pub proof fn lemma_symbols_of_contain(frames: Seq<FrameView>, i: int, j: int)
    requires
        0 <= i < frames.len(),
        0 <= j < frames[i].stack.len(),
    ensures
        symbols_of(frames).contains(frames[i].stack[j]),
    decreases frames.len(),
{
    let before = symbols_of(frames.drop_last());
    if i == frames.len() - 1 {
        assert(symbols_of(frames)[before.len() + j] == frames[i].stack[j]);
    } else {
        lemma_symbols_of_contain(frames.drop_last(), i, j);
        let k = before.index_of(frames[i].stack[j]);
        assert(symbols_of(frames)[k] == frames[i].stack[j]);
    }
}

/// The string table holds the empty string first, no string twice, the four
/// value labels, and the name and the file of every symbol of every stack.
pub proof fn lemma_string_table(frames: Seq<FrameView>)
    ensures
        string_table_of(frames).len() > 0,
        string_table_of(frames)[0] == Seq::<char>::empty(),
        string_table_of(frames).no_duplicates(),
        string_table_of(frames).contains("samples"@),
        string_table_of(frames).contains("count"@),
        string_table_of(frames).contains("cpu"@),
        string_table_of(frames).contains("nanoseconds"@),
        forall|i: int, j: int|
            0 <= i < frames.len() && 0 <= j < frames[i].stack.len() ==> string_table_of(
                frames,
            ).contains(#[trigger] frames[i].stack[j].display_name()) && string_table_of(
                frames,
            ).contains(frames[i].stack[j].display_file()),
{
    let all = all_labels(frames);
    let labels = symbol_labels(symbols_of(frames));
    let n = labels.len() as int;
    lemma_distinct(all);
    lemma_distinct_first(all);
    let fixed = value_labels();
    assert(fixed.len() == 4);
    assert(fixed[0] == "samples"@ && fixed[1] == "count"@ && fixed[2] == "cpu"@ && fixed[3]
        == "nanoseconds"@);
    assert(all.len() == n + 5);
    assert(forall|k: int| 0 <= k < 4 ==> all[n + 1 + k] == fixed[k]);
    assert(all[n + 1] == "samples"@ && all.contains("samples"@));
    assert(all[n + 2] == "count"@ && all.contains("count"@));
    assert(all[n + 3] == "cpu"@ && all.contains("cpu"@));
    assert(all[n + 4] == "nanoseconds"@ && all.contains("nanoseconds"@));
    assert forall|i: int, j: int|
        0 <= i < frames.len() && 0 <= j < frames[i].stack.len() implies string_table_of(
        frames,
    ).contains(#[trigger] frames[i].stack[j].display_name()) && string_table_of(frames).contains(
        frames[i].stack[j].display_file(),
    ) by {
        let symbol = frames[i].stack[j];
        lemma_symbols_of_contain(frames, i, j);
        let k = symbols_of(frames).index_of(symbol);
        assert(0 <= k < symbols_of(frames).len() && symbols_of(frames)[k] == symbol);
        lemma_symbol_labels_contain(symbols_of(frames), k);
        let at = labels.index_of(symbol.display_name());
        assert(0 <= at < labels.len() && labels[at] == symbol.display_name());
        let head = seq![Seq::<char>::empty()] + labels;
        assert(head[1 + at] == labels[at]);
        assert(all[1 + at] == head[1 + at]);
        assert(all.contains(symbol.display_name()));
        let f = labels.index_of(symbol.display_file());
        assert(0 <= f < labels.len() && labels[f] == symbol.display_file());
        assert(head[1 + f] == labels[f]);
        assert(all[1 + f] == head[1 + f]);
        assert(all.contains(symbol.display_file()));
    }
}

/// Interns the labels of every symbol of every frame, then the four value
/// labels, into a table that starts with the empty string.
pub fn intern_frames(frames: &Vec<Frame>) -> (table: StringTable)
    ensures
        table.wf(),
        table@ == string_table_of(frame_views(frames@)),
{
    let ghost views = frame_views(frames@);
    let ghost first = seq![Seq::<char>::empty()];
    let mut table = StringTable::new();
    let ghost mut seen: Seq<SymbolView> = Seq::empty();
    proof {
        assert(views.take(0) =~= Seq::<FrameView>::empty());
        assert(first + symbol_labels(seen) =~= first);
        assert(first.drop_last() =~= Seq::<Seq<char>>::empty());
        assert(distinct(first.drop_last()) =~= Seq::<Seq<char>>::empty());
        assert(distinct(first) =~= first);
    }
    let mut i: usize = 0;
    while i < frames.len()
        invariant
            i <= frames.len(),
            views == frame_views(frames@),
            first == seq![Seq::<char>::empty()],
            table.wf(),
            seen == symbols_of(views.take(i as int)),
            table@ == distinct(first + symbol_labels(seen)),
        decreases frames.len() - i,
    {
        let stack = &frames[i].stack;
        let ghost before = seen;
        let mut j: usize = 0;
        while j < stack.len()
            invariant
                j <= stack.len(),
                first == seq![Seq::<char>::empty()],
                table.wf(),
                seen == before + symbol_views(stack@).take(j as int),
                table@ == distinct(first + symbol_labels(seen)),
            decreases stack.len() - j,
        {
            let ghost symbol = stack[j as int]@;
            let ghost labels = first + symbol_labels(seen);
            proof {
                lemma_symbol_labels_push(seen, symbol);
                lemma_distinct_push(labels, symbol.display_name());
                lemma_distinct_push(labels.push(symbol.display_name()), symbol.display_file());
                assert(first + symbol_labels(seen.push(symbol)) =~= labels.push(
                    symbol.display_name(),
                ).push(symbol.display_file()));
                assert(before + symbol_views(stack@).take(j + 1) =~= seen.push(symbol));
            }
            table.intern(stack[j].name());
            table.intern(stack[j].file());
            proof {
                seen = seen.push(symbol);
            }
            j += 1;
        }
        proof {
            assert(symbol_views(stack@).take(j as int) =~= views[i as int].stack);
            lemma_symbols_of_push(views.take(i as int), views[i as int]);
            assert(views.take(i + 1) =~= views.take(i as int).push(views[i as int]));
        }
        i += 1;
    }
    let ghost labels = first + symbol_labels(seen);
    proof {
        assert(views.take(i as int) =~= views);
        lemma_distinct_push(labels, "samples"@);
        lemma_distinct_push(labels.push("samples"@), "count"@);
        lemma_distinct_push(labels.push("samples"@).push("count"@), "cpu"@);
        lemma_distinct_push(
            labels.push("samples"@).push("count"@).push("cpu"@),
            "nanoseconds"@,
        );
        assert(all_labels(views) =~= labels.push("samples"@).push("count"@).push("cpu"@).push(
            "nanoseconds"@,
        ));
    }
    table.intern("samples".to_owned());
    table.intern("count".to_owned());
    table.intern("cpu".to_owned());
    table.intern("nanoseconds".to_owned());
    table
}

} // verus!
