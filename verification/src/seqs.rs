//! First occurrences in sequences: where a value first stands, and a sequence
//! reduced to the first occurrence of each of its values.

use vstd::prelude::*;

verus! {

/// The index at which `x` first occurs in `s`, or the length of `s` where it
/// does not occur.
pub open spec fn position<T>(s: Seq<T>, x: T) -> int
    decreases s.len(),
{
    if s.len() == 0 {
        0
    } else if s[0] == x {
        0
    } else {
        1 + position(s.drop_first(), x)
    }
}

/// The index at which `x` last occurs in `s`, or -1 where it does not occur.
pub open spec fn last_position<T>(s: Seq<T>, x: T) -> int
    decreases s.len(),
{
    if s.len() == 0 {
        -1
    } else if s.last() == x {
        s.len() - 1
    } else {
        last_position(s.drop_last(), x)
    }
}

/// `s` without every occurrence of a value but its first; the order stays.
pub open spec fn distinct<T>(s: Seq<T>) -> Seq<T>
    decreases s.len(),
{
    if s.len() == 0 {
        Seq::empty()
    } else {
        let d = distinct(s.drop_last());
        if d.contains(s.last()) {
            d
        } else {
            d.push(s.last())
        }
    }
}

/// `position` is the least index that holds `x`, and the length exactly where
/// no index does.
pub proof fn lemma_position<T>(s: Seq<T>, x: T)
    ensures
        0 <= position(s, x) <= s.len(),
        position(s, x) < s.len() ==> s[position(s, x)] == x,
        forall|j: int| 0 <= j < position(s, x) ==> s[j] != x,
        position(s, x) < s.len() <==> s.contains(x),
    decreases s.len(),
{
    if s.len() == 0 {
    } else if s[0] == x {
    } else {
        let t = s.drop_first();
        lemma_position(t, x);
        assert forall|j: int| 0 <= j < position(s, x) implies s[j] != x by {
            if j > 0 {
                assert(t[j - 1] == s[j]);
            }
        }
        if position(t, x) < t.len() {
            assert(s[position(t, x) + 1] == t[position(t, x)]);
        }
        if s.contains(x) {
            let i = s.index_of(x);
            assert(t[i - 1] == x);
        }
    }
}

/// `last_position` is the greatest index that holds `x`, and -1 exactly where
/// no index does.
pub proof fn lemma_last_position<T>(s: Seq<T>, x: T)
    ensures
        -1 <= last_position(s, x) < s.len(),
        last_position(s, x) >= 0 ==> s[last_position(s, x)] == x,
        forall|j: int| last_position(s, x) < j < s.len() ==> s[j] != x,
        last_position(s, x) >= 0 <==> s.contains(x),
    decreases s.len(),
{
    if s.len() == 0 {
    } else if s.last() == x {
        assert(s[s.len() - 1] == x);
    } else {
        let t = s.drop_last();
        lemma_last_position(t, x);
        assert forall|j: int| last_position(s, x) < j < s.len() implies s[j] != x by {
            if j < t.len() {
                assert(t[j] == s[j]);
            }
        }
        if last_position(t, x) >= 0 {
            assert(s[last_position(t, x)] == t[last_position(t, x)]);
        }
        if s.contains(x) {
            let i = s.index_of(x);
            assert(0 <= i < s.len());
            assert(t[i] == x);
        }
    }
}

/// An index that holds `x`, with no earlier index that does, is the position
/// of `x`.
pub proof fn lemma_position_at<T>(s: Seq<T>, x: T, i: int)
    requires
        0 <= i < s.len(),
        s[i] == x,
        forall|j: int| 0 <= j < i ==> s[j] != x,
    ensures
        position(s, x) == i,
{
    lemma_position(s, x);
}

/// Appending to a sequence moves no value that it already holds.
pub proof fn lemma_position_push<T>(s: Seq<T>, y: T, x: T)
    ensures
        s.contains(x) ==> position(s.push(y), x) == position(s, x),
        !s.contains(x) && x == y ==> position(s.push(y), x) == s.len(),
{
    lemma_position(s, x);
    lemma_position(s.push(y), x);
    if s.contains(x) {
        lemma_position_at(s.push(y), x, position(s, x));
    } else if x == y {
        assert(s.push(y)[s.len() as int] == x);
        assert forall|j: int| 0 <= j < s.len() implies s.push(y)[j] != x by {
            assert(s[j] != x);
        }
        lemma_position_at(s.push(y), x, s.len() as int);
    }
}

/// One more value at the end adds itself to the distinct values unless it is
/// among them.
pub proof fn lemma_distinct_push<T>(s: Seq<T>, x: T)
    ensures
        distinct(s.push(x)) == if distinct(s).contains(x) {
            distinct(s)
        } else {
            distinct(s).push(x)
        },
{
    assert(s.push(x).drop_last() =~= s);
}

/// The distinct values of `s` repeat nothing and are the values of `s`.
pub proof fn lemma_distinct<T>(s: Seq<T>)
    ensures
        distinct(s).no_duplicates(),
        distinct(s).len() <= s.len(),
        forall|x: T| distinct(s).contains(x) <==> s.contains(x),
    decreases s.len(),
{
    if s.len() > 0 {
        let t = s.drop_last();
        let d = distinct(t);
        lemma_distinct(t);
        assert forall|x: T| distinct(s).contains(x) <==> s.contains(x) by {
            if s.contains(x) {
                let i = s.index_of(x);
                if i < s.len() - 1 {
                    assert(t[i] == x);
                    assert(t.contains(x));
                    if !d.contains(s.last()) {
                        let k = d.index_of(x);
                        assert(d.push(s.last())[k] == x);
                    }
                } else {
                    if !d.contains(s.last()) {
                        assert(d.push(s.last())[d.len() as int] == x);
                    }
                }
            }
            if distinct(s).contains(x) {
                let k = distinct(s).index_of(x);
                if k < d.len() {
                    assert(d[k] == x);
                    assert(t.contains(x));
                    let i = t.index_of(x);
                    assert(s[i] == x);
                } else {
                    assert(s[s.len() - 1] == x);
                }
            }
        }
    }
}

/// The distinct values of `s` are as many as the set of its values.
pub proof fn lemma_distinct_count<T>(s: Seq<T>)
    ensures
        distinct(s).len() == s.to_set().len(),
{
    lemma_distinct(s);
    distinct(s).unique_seq_to_set();
    assert(distinct(s).to_set() =~= s.to_set());
}

/// The distinct values of a sequence start with the sequence's first value.
pub proof fn lemma_distinct_first<T>(s: Seq<T>)
    requires
        s.len() > 0,
    ensures
        distinct(s).len() > 0,
        distinct(s)[0] == s[0],
    decreases s.len(),
{
    if s.len() > 1 {
        lemma_distinct_first(s.drop_last());
    } else {
        assert(distinct(s.drop_last()) =~= Seq::empty());
    }
}

} // verus!
