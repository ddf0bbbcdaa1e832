//! Ranges of the values of an array.
//!
//! A range is where it starts and where it ends. Arrow copies values range by
//! range, and these functions say which ranges of the arrays inside go along.

use vstd::prelude::*;

verus! {

/// How many values a range has.
pub open spec fn width(range: (usize, usize)) -> nat {
    if range.0 < range.1 {
        (range.1 - range.0) as nat
    } else {
        0
    }
}

/// How many values ranges have.
pub open spec fn total(ranges: Seq<(usize, usize)>) -> nat
    decreases ranges.len(),
{
    if ranges.len() == 0 {
        0
    } else {
        total(ranges.drop_last()) + width(ranges.last())
    }
}

/// The ranges are ranges of `n` values.
pub open spec fn lie_in(ranges: Seq<(usize, usize)>, n: nat) -> bool {
    forall|i: int|
        0 <= i < ranges.len() ==> (#[trigger] ranges[i]).0 <= ranges[i].1 && ranges[i].1 <= n
}

/// The values of ranges, one by one.
pub open spec fn slots(ranges: Seq<(usize, usize)>) -> Seq<usize>
    decreases ranges.len(),
{
    if ranges.len() == 0 {
        Seq::empty()
    } else {
        let last = ranges.last();
        slots(ranges.drop_last()) + Seq::new(width(last), |j: int| (last.0 + j) as usize)
    }
}

/// What ranges of values hold of the values inside them, where each holds a span
/// of them and the spans follow each other: from where the first span starts to
/// where the last one ends.
pub open spec fn held(spans: Seq<(usize, usize)>, ranges: Seq<(usize, usize)>) -> Seq<(usize, usize)>
    decreases ranges.len(),
{
    if ranges.len() == 0 {
        Seq::empty()
    } else {
        let (start, end) = ranges.last();
        let before = held(spans, ranges.drop_last());
        if start < end {
            before.push((spans[start as int].0, spans[end - 1].1))
        } else {
            before
        }
    }
}

/// The runs that ranges of values lie in, each value in the run that `places` says.
pub open spec fn runs_held(places: Seq<usize>, ranges: Seq<(usize, usize)>) -> Seq<(usize, usize)>
    decreases ranges.len(),
{
    if ranges.len() == 0 {
        Seq::empty()
    } else {
        let (start, end) = ranges.last();
        let before = runs_held(places, ranges.drop_last());
        if start < end {
            before.push((places[start as int], (places[end - 1] + 1) as usize))
        } else {
            before
        }
    }
}

/// What ranges of values hold of the values inside them, where each holds `size`.
pub open spec fn scaled(ranges: Seq<(usize, usize)>, size: nat) -> Seq<(usize, usize)> {
    Seq::new(
        ranges.len(),
        |i: int| ((ranges[i].0 * size) as usize, (ranges[i].1 * size) as usize),
    )
}

/// Each place as a range of its own.
pub open spec fn singles(places: Seq<usize>) -> Seq<(usize, usize)> {
    Seq::new(places.len(), |i: int| (places[i], (places[i] + 1) as usize))
}

/// What values hold of the values inside them, where a view says of each where
/// that starts and how much it is.
pub open spec fn viewed(views: Seq<(usize, usize)>, at: Seq<usize>) -> Seq<(usize, usize)> {
    Seq::new(
        at.len(),
        |i: int|
            (views[at[i] as int].0, (views[at[i] as int].0 + views[at[i] as int].1) as usize),
    )
}

/// Where the member `id` of a union has those of its values that belong to it.
pub open spec fn of_member(
    ids: Seq<i8>,
    places: Seq<usize>,
    at: Seq<usize>,
    id: i8,
) -> Seq<usize>
    decreases at.len(),
{
    if at.len() == 0 {
        Seq::empty()
    } else {
        let before = of_member(ids, places, at.drop_last(), id);
        if ids[at.last() as int] == id {
            before.push(places[at.last() as int])
        } else {
            before
        }
    }
}

/// A number as far as 64 bits show it.
pub open spec fn cut(n: nat) -> nat {
    if n > u64::MAX {
        u64::MAX as nat
    } else {
        n
    }
}

/// How many values ranges have, as far as 64 bits show it.
pub(crate) fn add_up(ranges: &Vec<(usize, usize)>) -> (r: u64)
    ensures
        r == cut(total(ranges@)),
{
    let n: usize = ranges.len();
    let mut out: u64 = 0;
    assert(ranges@.take(0) =~= Seq::<(usize, usize)>::empty());
    for i in 0..n
        invariant
            n == ranges.len(),
            out == cut(total(ranges@.take(i as int))),
    {
        assert(ranges@.take(i + 1).drop_last() =~= ranges@.take(i as int));
        let (start, end): (usize, usize) = ranges[i];
        if start < end {
            let more: u64 = (end - start) as u64;
            out = if out > u64::MAX - more {
                u64::MAX
            } else {
                out + more
            };
        }
    }
    assert(ranges@.take(n as int) =~= ranges@);
    out
}

/// Whether ranges are ranges of `n` values.
pub(crate) fn do_lie_in(ranges: &Vec<(usize, usize)>, n: usize) -> (r: bool)
    ensures
        r == lie_in(ranges@, n as nat),
{
    let count: usize = ranges.len();
    for i in 0..count
        invariant
            count == ranges.len(),
            forall|j: int|
                0 <= j < i ==> (#[trigger] ranges@[j]).0 <= ranges@[j].1 && ranges@[j].1 <= n,
    {
        let (start, end): (usize, usize) = ranges[i];
        assert(ranges@[i as int] == (start, end));
        if start > end || end > n {
            return false;
        }
    }
    true
}

/// The values of ranges, one by one.
pub(crate) fn slots_of(ranges: &Vec<(usize, usize)>) -> (r: Vec<usize>)
    ensures
        r@ == slots(ranges@),
{
    let n: usize = ranges.len();
    let mut out: Vec<usize> = Vec::new();
    assert(ranges@.take(0) =~= Seq::<(usize, usize)>::empty());
    for i in 0..n
        invariant
            n == ranges.len(),
            out@ == slots(ranges@.take(i as int)),
    {
        assert(ranges@.take(i + 1).drop_last() =~= ranges@.take(i as int));
        let (start, end): (usize, usize) = ranges[i];
        let ghost before = out@;
        let ghost own = Seq::new(width((start, end)), |j: int| (start + j) as usize);
        let mut j: usize = start;
        assert(before =~= before + own.take(0));
        while j < end
            invariant
                start <= j,
                start < end ==> j <= end,
                start >= end ==> j == start,
                own == Seq::new(width((start, end)), |q: int| (start + q) as usize),
                out@ == before + own.take(j - start),
            decreases end - j,
        {
            out.push(j);
            assert(own.take(j + 1 - start) =~= own.take(j - start).push(j));
            assert(out@ =~= before + own.take(j + 1 - start));
            j = j + 1;
        }
        assert(own.take(j - start) =~= own);
    }
    assert(ranges@.take(n as int) =~= ranges@);
    out
}

/// What ranges of values hold of the values inside them.
pub(crate) fn held_by(spans: &Vec<(usize, usize)>, ranges: &Vec<(usize, usize)>) -> (r: Vec<
    (usize, usize),
>)
    requires
        lie_in(ranges@, spans.len() as nat),
    ensures
        r@ == held(spans@, ranges@),
{
    let n: usize = ranges.len();
    let mut out: Vec<(usize, usize)> = Vec::with_capacity(n);
    assert(ranges@.take(0) =~= Seq::<(usize, usize)>::empty());
    for i in 0..n
        invariant
            n == ranges.len(),
            lie_in(ranges@, spans.len() as nat),
            out@ == held(spans@, ranges@.take(i as int)),
    {
        assert(ranges@.take(i + 1).drop_last() =~= ranges@.take(i as int));
        let (start, end): (usize, usize) = ranges[i];
        assert(ranges@[i as int] == (start, end));
        if start < end {
            out.push((spans[start].0, spans[end - 1].1));
        }
    }
    assert(ranges@.take(n as int) =~= ranges@);
    out
}

/// What ranges of values hold of the values inside them, where each holds `size`.
pub(crate) fn scale(ranges: &Vec<(usize, usize)>, size: usize, n: usize) -> (r: Vec<(usize, usize)>)
    requires
        lie_in(ranges@, n as nat),
        n * size <= usize::MAX,
    ensures
        r@ == scaled(ranges@, size as nat),
{
    let count: usize = ranges.len();
    let mut out: Vec<(usize, usize)> = Vec::with_capacity(count);
    for i in 0..count
        invariant
            count == ranges.len(),
            lie_in(ranges@, n as nat),
            n * size <= usize::MAX,
            out.len() == i,
            forall|j: int| 0 <= j < i ==> #[trigger] out@[j] == scaled(ranges@, size as nat)[j],
    {
        let (start, end): (usize, usize) = ranges[i];
        assert(ranges@[i as int] == (start, end));
        assert(0 <= start * size <= n * size && 0 <= end * size <= n * size) by (nonlinear_arith)
            requires
                0 <= start <= end <= n,
                0 <= size,
        ;
        out.push((start * size, end * size));
    }
    assert(out@ =~= scaled(ranges@, size as nat));
    out
}

/// Each place as a range of its own.
pub(crate) fn single_out(places: &Vec<usize>) -> (r: Vec<(usize, usize)>)
    requires
        forall|i: int| 0 <= i < places.len() ==> #[trigger] places@[i] < usize::MAX,
    ensures
        r@ == singles(places@),
{
    let n: usize = places.len();
    let mut out: Vec<(usize, usize)> = Vec::with_capacity(n);
    for i in 0..n
        invariant
            n == places.len(),
            forall|i: int| 0 <= i < places.len() ==> #[trigger] places@[i] < usize::MAX,
            out.len() == i,
            forall|j: int| 0 <= j < i ==> #[trigger] out@[j] == singles(places@)[j],
    {
        let place: usize = places[i];
        assert(places@[i as int] == place);
        out.push((place, place + 1));
    }
    assert(out@ =~= singles(places@));
    out
}

/// What values hold of the values inside them by their views.
pub(crate) fn view_at(views: &Vec<(usize, usize)>, at: &Vec<usize>) -> (r: Vec<(usize, usize)>)
    requires
        forall|i: int| 0 <= i < at.len() ==> #[trigger] at@[i] < views.len(),
        forall|i: int|
            0 <= i < views.len() ==> (#[trigger] views@[i]).0 + views@[i].1 <= usize::MAX,
    ensures
        r@ == viewed(views@, at@),
{
    let n: usize = at.len();
    let mut out: Vec<(usize, usize)> = Vec::with_capacity(n);
    for i in 0..n
        invariant
            n == at.len(),
            forall|i: int| 0 <= i < at.len() ==> #[trigger] at@[i] < views.len(),
            forall|i: int|
                0 <= i < views.len() ==> (#[trigger] views@[i]).0 + views@[i].1 <= usize::MAX,
            out.len() == i,
            forall|j: int| 0 <= j < i ==> #[trigger] out@[j] == viewed(views@, at@)[j],
    {
        let slot: usize = at[i];
        assert(at@[i as int] == slot);
        let (start, size): (usize, usize) = views[slot];
        assert(views@[slot as int] == (start, size));
        out.push((start, start + size));
    }
    assert(out@ =~= viewed(views@, at@));
    out
}

/// Where the member `id` of a union has those of its values that belong to it.
pub(crate) fn member_places(
    ids: &Vec<i8>,
    places: &Vec<usize>,
    at: &Vec<usize>,
    id: i8,
) -> (r: Vec<usize>)
    requires
        ids.len() == places.len(),
        forall|i: int| 0 <= i < at.len() ==> #[trigger] at@[i] < ids.len(),
    ensures
        r@ == of_member(ids@, places@, at@, id),
{
    let n: usize = at.len();
    let mut out: Vec<usize> = Vec::new();
    assert(at@.take(0) =~= Seq::<usize>::empty());
    for i in 0..n
        invariant
            n == at.len(),
            ids.len() == places.len(),
            forall|i: int| 0 <= i < at.len() ==> #[trigger] at@[i] < ids.len(),
            out@ == of_member(ids@, places@, at@.take(i as int), id),
    {
        assert(at@.take(i + 1).drop_last() =~= at@.take(i as int));
        let slot: usize = at[i];
        assert(at@[i as int] == slot);
        if ids[slot] == id {
            out.push(places[slot]);
        }
    }
    assert(at@.take(n as int) =~= at@);
    out
}

/// The values of ranges of `n` values are among these.
pub proof fn lemma_slots_lie_in(ranges: Seq<(usize, usize)>, n: nat)
    requires
        lie_in(ranges, n),
    ensures
        forall|i: int| 0 <= i < slots(ranges).len() ==> #[trigger] slots(ranges)[i] < n,
    decreases ranges.len(),
{
    if ranges.len() > 0 {
        let front = ranges.drop_last();
        assert forall|i: int| 0 <= i < front.len() implies (#[trigger] front[i]).0 <= front[i].1
            && front[i].1 <= n by {
            assert(front[i] == ranges[i]);
        }
        lemma_slots_lie_in(front, n);
        let last = ranges.last();
        assert(last == ranges[ranges.len() - 1]);
        assert forall|i: int| 0 <= i < slots(ranges).len() implies #[trigger] slots(ranges)[i]
            < n by {
            if i >= slots(front).len() {
                assert(slots(ranges)[i] == (last.0 + (i - slots(front).len())) as usize);
            } else {
                assert(slots(ranges)[i] == slots(front)[i]);
            }
        }
    }
}

} // verus!
