//! Building a profile from decoded frames: the string table first, then one
//! sample for each frame, with the functions and locations that the samples
//! refer to.

use vstd::prelude::*;
use crate::decode::{frame_views, Frame};
use crate::intern::{
    intern_frames, lemma_string_table, lemma_symbols_of_push, string_table_of, symbols_of,
    StringTable,
};
use crate::profile::{
    id_of, nanoseconds_of, profile_of, sample_of, value_type_of, Profile, Sample, ValueType,
    FREQUENCY, NANOSECONDS_PER_SECOND,
};
use crate::registry::{
    lemma_registry_of_symbols, lemma_resolve_all_append, lemma_resolve_all_keeps,
    lemma_resolve_keeps, Registry, RegistryView,
};

verus! {

/// The time that `cycles` cycles take, in whole nanoseconds.
pub fn cycles_to_nanoseconds(cycles: u64) -> (nanoseconds: u64)
    ensures
        nanoseconds == nanoseconds_of(cycles as nat),
{
    assert(cycles * NANOSECONDS_PER_SECOND == cycles * 1_000_000_000);
    let scaled: u128 = cycles as u128 * NANOSECONDS_PER_SECOND as u128;
    assert(scaled / 1_000_000_000 == cycles);
    (scaled / FREQUENCY as u128) as u64
}

/// The sample of one frame. Each symbol of the stack is resolved through the
/// registry in the stack's order, so that the registry learns the names that
/// it did not know. The table has to hold the name and the file of every
/// symbol of the stack.
pub fn build_sample(frame: &Frame, registry: &mut Registry, table: &StringTable) -> (sample:
    Sample)
    requires
        old(registry).wf(),
        forall|j: int|
            0 <= j < frame@.stack.len() ==> table@.contains(
                #[trigger] frame@.stack[j].display_name(),
            ) && table@.contains(frame@.stack[j].display_file()),
    ensures
        final(registry).wf(),
        final(registry)@ == old(registry)@.resolve_all(table@, frame@.stack),
        sample@ == sample_of(final(registry)@.names, frame@),
        forall|j: int|
            0 <= j < frame@.stack.len() ==> final(registry)@.names.contains(
                #[trigger] frame@.stack[j].display_name(),
            ),
{
    let ghost start = registry@;
    let ghost stack = frame@.stack;
    let mut ids: Vec<u64> = Vec::new();
    let mut j: usize = 0;
    assert(stack.take(0) =~= Seq::empty());
    while j < frame.stack.len()
        invariant
            j <= frame.stack.len(),
            stack == frame@.stack,
            stack.len() == frame.stack.len(),
            forall|k: int|
                0 <= k < stack.len() ==> table@.contains(#[trigger] stack[k].display_name())
                    && table@.contains(stack[k].display_file()),
            registry.wf(),
            registry@ == start.resolve_all(table@, stack.take(j as int)),
            ids.len() == j,
            forall|k: int|
                0 <= k < j ==> registry@.names.contains(#[trigger] stack[k].display_name())
                    && ids[k] == id_of(registry@.names, stack[k].display_name()),
        decreases frame.stack.len() - j,
    {
        let ghost before = registry@;
        assert(frame.stack[j as int]@ == stack[j as int]);
        assert(table@.contains(stack[j as int].display_name()));
        let id: u64 = registry.resolve(&frame.stack[j], table);
        ids.push(id);
        proof {
            assert(stack.take(j + 1).drop_last() =~= stack.take(j as int));
            assert forall|k: int| 0 <= k < j + 1 implies registry@.names.contains(
                #[trigger] stack[k].display_name(),
            ) && ids[k] == id_of(registry@.names, stack[k].display_name()) by {
                if k < j {
                    lemma_resolve_keeps(before, table@, stack[j as int], stack[k].display_name());
                }
            }
        }
        j += 1;
    }
    assert(stack.take(j as int) =~= stack);
    let mut value: Vec<u64> = Vec::new();
    value.push(frame.cycles);
    value.push(cycles_to_nanoseconds(frame.cycles));
    let sample = Sample { location_id: ids, value };
    assert(sample@.location_id =~= sample_of(registry@.names, frame@).location_id);
    assert(sample@.value =~= sample_of(registry@.names, frame@).value);
    sample
}

/// The value type that the two strings name, which the table has to hold.
fn value_type(table: &StringTable, kind: &str, unit: &str) -> (value_type: ValueType)
    requires
        table@.contains(kind@),
        table@.contains(unit@),
    ensures
        value_type@ == value_type_of(table@, kind@, unit@),
{
    let kind_index: usize = table.index_of(&kind.to_owned()).unwrap();
    let unit_index: usize = table.index_of(&unit.to_owned()).unwrap();
    ValueType { field_type: kind_index as u64, unit: unit_index as u64 }
}

/// Builds the profile of `frames`.
///
/// The string table starts with the empty string and holds every string
/// once. There is one function, with one location of the same identifier,
/// for each name among the symbols, numbered from 1 in the order in which
/// the names first occur, and one sample for each frame.
pub fn build_profile(frames: &Vec<Frame>) -> (profile: Profile)
    ensures
        profile@ == profile_of(frame_views(frames@)),
        profile@.string_table.len() > 0,
        profile@.string_table[0] == Seq::<char>::empty(),
{
    let ghost views = frame_views(frames@);
    let table = intern_frames(frames);
    let ghost strings = table@;
    proof {
        lemma_string_table(views);
    }
    let mut registry = Registry::new();
    let mut samples: Vec<Sample> = Vec::new();
    let mut i: usize = 0;
    assert(views.take(0) =~= Seq::empty());
    while i < frames.len()
        invariant
            i <= frames.len(),
            views == frame_views(frames@),
            table@ == string_table_of(views),
            strings == table@,
            forall|a: int, b: int|
                0 <= a < views.len() && 0 <= b < views[a].stack.len() ==> strings.contains(
                    #[trigger] views[a].stack[b].display_name(),
                ) && strings.contains(views[a].stack[b].display_file()),
            registry.wf(),
            registry@ == RegistryView::empty().resolve_all(
                strings,
                symbols_of(views.take(i as int)),
            ),
            samples.len() == i,
            forall|a: int|
                0 <= a < i ==> (#[trigger] samples[a])@ == sample_of(registry@.names, views[a]),
            forall|a: int, b: int|
                0 <= a < i && 0 <= b < views[a].stack.len() ==> registry@.names.contains(
                    #[trigger] views[a].stack[b].display_name(),
                ),
        decreases frames.len() - i,
    {
        let ghost before = registry@;
        let ghost frame = views[i as int];
        assert(frames[i as int]@ == frame);
        assert forall|b: int| 0 <= b < frame.stack.len() implies strings.contains(
            #[trigger] frame.stack[b].display_name(),
        ) && strings.contains(frame.stack[b].display_file()) by {
            assert(frame.stack[b] == views[i as int].stack[b]);
        }
        let sample = build_sample(&frames[i], &mut registry, &table);
        samples.push(sample);
        proof {
            lemma_symbols_of_push(views.take(i as int), frame);
            assert(views.take(i + 1) =~= views.take(i as int).push(frame));
            lemma_resolve_all_append(
                RegistryView::empty(),
                strings,
                symbols_of(views.take(i as int)),
                frame.stack,
            );
            assert forall|a: int, b: int|
                0 <= a < i + 1 && 0 <= b < views[a].stack.len() implies registry@.names.contains(
                #[trigger] views[a].stack[b].display_name(),
            ) by {
                if a < i {
                    lemma_resolve_all_keeps(
                        before,
                        strings,
                        frame.stack,
                        views[a].stack[b].display_name(),
                    );
                }
            }
            assert forall|a: int| 0 <= a < i + 1 implies (#[trigger] samples[a])@ == sample_of(
                registry@.names,
                views[a],
            ) by {
                if a < i {
                    assert forall|b: int| 0 <= b < views[a].stack.len() implies id_of(
                        registry@.names,
                        #[trigger] views[a].stack[b].display_name(),
                    ) == id_of(before.names, views[a].stack[b].display_name()) by {
                        lemma_resolve_all_keeps(
                            before,
                            strings,
                            frame.stack,
                            views[a].stack[b].display_name(),
                        );
                    }
                    assert(sample_of(registry@.names, views[a]).location_id =~= sample_of(
                        before.names,
                        views[a],
                    ).location_id);
                }
            }
        }
        i += 1;
    }
    proof {
        assert(views.take(i as int) =~= views);
        lemma_registry_of_symbols(strings, symbols_of(views));
    }
    let samples_value = value_type(&table, "samples", "count");
    let time_value = value_type(&table, "cpu", "nanoseconds");
    let mut sample_type: Vec<ValueType> = Vec::new();
    sample_type.push(samples_value);
    sample_type.push(time_value);
    let (function, location) = registry.into_tables();
    let profile = Profile {
        sample_type,
        sample: samples,
        string_table: table.into_strings(),
        function,
        location,
        period_type: time_value,
        period: NANOSECONDS_PER_SECOND / FREQUENCY,
    };
    proof {
        let expected = profile_of(views);
        assert(profile@.sample_type =~= expected.sample_type);
        assert(profile@.sample =~= expected.sample);
    }
    profile
}

} // verus!
