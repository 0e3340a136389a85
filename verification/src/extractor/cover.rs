//! Dropping the spans that another span covers.

use vstd::prelude::*;
use crate::extractor::machine::Span;

verus! {

/// `outer` covers `inner`, and the two are not the same span.
pub open spec fn strictly_covers(outer: Span, inner: Span) -> bool {
    outer.start <= inner.start && inner.end <= outer.end && outer != inner
}

/// What `precedes` computes.
pub open spec fn spec_precedes(a: Span, b: Span) -> bool {
    a.start < b.start || (a.start == b.start && a.end >= b.end)
}

/// The order in which spans are visited: by start, and among spans of one
/// start the longer one first.
#[verifier::when_used_as_spec(spec_precedes)]
pub fn precedes(a: Span, b: Span) -> (yes: bool)
    ensures
        yes == spec_precedes(a, b),
{
    a.start < b.start || (a.start == b.start && a.end >= b.end)
}

/// `sorted` with `span` put behind the last span that precedes it.
pub open spec fn insert_span(sorted: Seq<Span>, span: Span) -> Seq<Span>
    decreases sorted.len(),
{
    if sorted.len() == 0 || precedes(sorted.last(), span) {
        sorted.push(span)
    } else {
        insert_span(sorted.drop_last(), span).push(sorted.last())
    }
}

/// The spans in the order in which they are visited.
pub open spec fn sort_spans(spans: Seq<Span>) -> Seq<Span>
    decreases spans.len(),
{
    if spans.len() == 0 {
        Seq::empty()
    } else {
        insert_span(sort_spans(spans.drop_last()), spans.last())
    }
}

/// Of spans in visiting order, those that end behind every span before
/// them.
pub open spec fn rising(sorted: Seq<Span>) -> Seq<Span>
    decreases sorted.len(),
{
    if sorted.len() == 0 {
        Seq::empty()
    } else {
        let kept = rising(sorted.drop_last());
        if kept.len() == 0 || sorted.last().end > kept.last().end {
            kept.push(sorted.last())
        } else {
            kept
        }
    }
}

/// The spans that no other span covers, from left to right.
pub open spec fn drop_covered(spans: Seq<Span>) -> Seq<Span> {
    rising(sort_spans(spans))
}

/// Some other span in `spans` covers `span`.
pub open spec fn covered(spans: Seq<Span>, span: Span) -> bool {
    exists|i: int| 0 <= i < spans.len() && strictly_covers(#[trigger] spans[i], span)
}

/// The spans are in visiting order.
pub open spec fn in_order(spans: Seq<Span>) -> bool {
    forall|i: int, j: int| 0 <= i < j < spans.len() ==> precedes(spans[i], spans[j])
}

/// From left to right both the starts and the ends of the spans grow.
pub open spec fn strictly_rising(spans: Seq<Span>) -> bool {
    forall|i: int, j: int|
        0 <= i < j < spans.len() ==> spans[i].start < spans[j].start && spans[i].end
            < spans[j].end
}

/// `insert_span` keeps the order and adds one span.
proof fn lemma_insert_span(sorted: Seq<Span>, span: Span)
    requires
        in_order(sorted),
    ensures
        in_order(insert_span(sorted, span)),
        insert_span(sorted, span).len() == sorted.len() + 1,
        forall|other: Span|
            #![trigger insert_span(sorted, span).contains(other)]
            #![trigger sorted.contains(other)]
            insert_span(sorted, span).contains(other) <==> sorted.contains(other) || other
                == span,
    decreases sorted.len(),
{
    let out = insert_span(sorted, span);
    if sorted.len() == 0 || precedes(sorted.last(), span) {
        assert forall|i: int, j: int| 0 <= i < j < out.len() implies precedes(out[i], out[j]) by {
            if j == sorted.len() {
                assert(i == sorted.len() - 1 || precedes(sorted[i], sorted.last()));
            }
        }
        assert forall|other: Span| out.contains(other) <==> sorted.contains(other) || other
            == span by {
            if out.contains(other) {
                let i = choose|i: int| 0 <= i < out.len() && out[i] == other;
                if i < sorted.len() {
                    assert(sorted[i] == other);
                }
            }
            if sorted.contains(other) {
                let i = choose|i: int| 0 <= i < sorted.len() && sorted[i] == other;
                assert(out[i] == other);
            }
            if other == span {
                assert(out[sorted.len() as int] == other);
            }
        }
    } else {
        let init = sorted.drop_last();
        let last = sorted.last();
        lemma_insert_span(init, span);
        let inner = insert_span(init, span);
        assert(out == inner.push(last));
        assert forall|i: int, j: int| 0 <= i < j < out.len() implies precedes(out[i], out[j]) by {
            if j == inner.len() {
                assert(inner.contains(inner[i]));
                if inner[i] != span {
                    let k = choose|k: int| 0 <= k < init.len() && init[k] == inner[i];
                    assert(precedes(sorted[k], sorted[sorted.len() - 1]));
                }
            } else {
                assert(precedes(inner[i], inner[j]));
            }
        }
        assert forall|other: Span| out.contains(other) <==> sorted.contains(other) || other
            == span by {
            if out.contains(other) {
                let i = choose|i: int| 0 <= i < out.len() && out[i] == other;
                if i < inner.len() {
                    assert(inner.contains(inner[i]));
                    if other != span {
                        let k = choose|k: int| 0 <= k < init.len() && init[k] == other;
                        assert(sorted[k] == other);
                    }
                } else {
                    assert(sorted[sorted.len() - 1] == other);
                }
            }
            if sorted.contains(other) {
                let i = choose|i: int| 0 <= i < sorted.len() && sorted[i] == other;
                if i < init.len() {
                    assert(init[i] == other);
                    assert(inner.contains(other));
                    let k = choose|k: int| 0 <= k < inner.len() && inner[k] == other;
                    assert(out[k] == other);
                } else {
                    assert(out[inner.len() as int] == other);
                }
            }
            if other == span {
                assert(inner.contains(span));
                let k = choose|k: int| 0 <= k < inner.len() && inner[k] == other;
                assert(out[k] == other);
            }
        }
    }
}

/// Sorting keeps the spans and puts them in visiting order.
pub proof fn lemma_sort_spans(spans: Seq<Span>)
    ensures
        in_order(sort_spans(spans)),
        sort_spans(spans).len() == spans.len(),
        forall|span: Span|
            #![trigger sort_spans(spans).contains(span)]
            #![trigger spans.contains(span)]
            sort_spans(spans).contains(span) <==> spans.contains(span),
    decreases spans.len(),
{
    if spans.len() > 0 {
        let init = spans.drop_last();
        lemma_sort_spans(init);
        lemma_insert_span(sort_spans(init), spans.last());
        assert forall|span: Span| sort_spans(spans).contains(span) <==> spans.contains(
            span,
        ) by {
            if spans.contains(span) {
                let i = choose|i: int| 0 <= i < spans.len() && spans[i] == span;
                if i < init.len() {
                    assert(init[i] == span);
                }
            }
            if init.contains(span) {
                let i = choose|i: int| 0 <= i < init.len() && init[i] == span;
                assert(spans[i] == span);
            }
            assert(spans[spans.len() - 1] == spans.last());
        }
    }
}

/// Of spans in visiting order, `rising` keeps those that no other span
/// covers, each once.
pub proof fn lemma_rising(sorted: Seq<Span>)
    requires
        in_order(sorted),
    ensures
        strictly_rising(rising(sorted)),
        sorted.len() > 0 ==> rising(sorted).len() > 0,
        forall|i: int|
            0 <= i < sorted.len() ==> (#[trigger] sorted[i]).end <= rising(sorted).last().end,
        forall|span: Span|
            #![trigger rising(sorted).contains(span)]
            #![trigger sorted.contains(span)]
            rising(sorted).contains(span) <==> sorted.contains(span) && !covered(sorted, span),
    decreases sorted.len(),
{
    if sorted.len() > 0 {
        let init = sorted.drop_last();
        let last = sorted.last();
        let before = rising(init);
        let kept = rising(sorted);
        lemma_rising(init);
        assert forall|i: int| 0 <= i < before.len() implies precedes(
            #[trigger] before[i],
            last,
        ) by {
            assert(before.contains(before[i]));
            let k = choose|k: int| 0 <= k < init.len() && init[k] == before[i];
            assert(precedes(sorted[k], sorted[sorted.len() - 1]));
        }
        assert forall|span: Span|
            covered(sorted, span) <==> covered(init, span) || strictly_covers(last, span) by {
            if covered(sorted, span) {
                let i = choose|i: int|
                    0 <= i < sorted.len() && strictly_covers(#[trigger] sorted[i], span);
                if i < init.len() {
                    assert(strictly_covers(init[i], span));
                }
            }
            if covered(init, span) {
                let i = choose|i: int|
                    0 <= i < init.len() && strictly_covers(#[trigger] init[i], span);
                assert(strictly_covers(sorted[i], span));
            }
            if strictly_covers(last, span) {
                assert(strictly_covers(sorted[sorted.len() - 1], span));
            }
        }
        assert forall|span: Span| sorted.contains(span) <==> init.contains(span) || span
            == last by {
            if sorted.contains(span) {
                let i = choose|i: int| 0 <= i < sorted.len() && sorted[i] == span;
                if i < init.len() {
                    assert(init[i] == span);
                }
            }
            if init.contains(span) {
                let i = choose|i: int| 0 <= i < init.len() && init[i] == span;
                assert(sorted[i] == span);
            }
            assert(sorted[sorted.len() - 1] == last);
        }
        // No span in visiting order is covered by a span behind it.
        assert forall|span: Span| init.contains(span) implies !strictly_covers(last, span) by {
            let i = choose|i: int| 0 <= i < init.len() && init[i] == span;
            assert(precedes(sorted[i], sorted[sorted.len() - 1]));
        }
        if before.len() == 0 || last.end > before.last().end {
            assert(kept == before.push(last));
            assert forall|span: Span| kept.contains(span) <==> before.contains(span) || span
                == last by {
                if kept.contains(span) {
                    let i = choose|i: int| 0 <= i < kept.len() && kept[i] == span;
                    if i < before.len() {
                        assert(before[i] == span);
                    }
                }
                if before.contains(span) {
                    let i = choose|i: int| 0 <= i < before.len() && before[i] == span;
                    assert(kept[i] == span);
                }
                assert(kept[before.len() as int] == last);
            }
            assert forall|i: int, j: int| 0 <= i < j < kept.len() implies kept[i].start
                < kept[j].start && kept[i].end < kept[j].end by {
                if j == before.len() {
                    assert(precedes(before[i], last));
                    assert(i == before.len() - 1 || before[i].end < before.last().end);
                }
            }
            // The last span ends behind all others, so none covers it.
            assert(!covered(init, last)) by {
                if covered(init, last) {
                    let i = choose|i: int|
                        0 <= i < init.len() && strictly_covers(#[trigger] init[i], last);
                    assert(init[i].end <= before.last().end);
                }
            }
            assert forall|i: int| 0 <= i < sorted.len() implies (#[trigger] sorted[i]).end
                <= kept.last().end by {
                if i < init.len() {
                    assert(init[i].end <= before.last().end);
                }
            }
        } else {
            assert(kept == before);
            // The last span is covered by the one that was kept last,
            // unless it is that span.
            let top = before.last();
            assert(before.contains(top));
            assert(precedes(top, last));
            if top != last {
                let k = choose|k: int| 0 <= k < init.len() && init[k] == top;
                assert(strictly_covers(init[k], last));
                assert(covered(init, last));
            }
            assert forall|i: int| 0 <= i < sorted.len() implies (#[trigger] sorted[i]).end
                <= kept.last().end by {
                if i < init.len() {
                    assert(init[i].end <= before.last().end);
                }
            }
        }
    }
}

/// `kept` holds exactly the spans of `spans` that no other span of `spans`
/// covers, each once and from left to right.
pub open spec fn is_uncovered_selection(spans: Seq<Span>, kept: Seq<Span>) -> bool {
    &&& strictly_rising(kept)
    &&& forall|span: Span|
        #![trigger kept.contains(span)]
        #![trigger spans.contains(span)]
        kept.contains(span) <==> spans.contains(span) && !covered(spans, span)
}

/// What `drop_covered` keeps: the spans that no other span covers, each
/// once, from left to right.
pub proof fn lemma_drop_covered(spans: Seq<Span>)
    ensures
        is_uncovered_selection(spans, drop_covered(spans)),
{
    let sorted = sort_spans(spans);
    lemma_sort_spans(spans);
    lemma_rising(sorted);
    assert forall|span: Span| covered(sorted, span) <==> covered(spans, span) by {
        if covered(sorted, span) {
            let i = choose|i: int|
                0 <= i < sorted.len() && strictly_covers(#[trigger] sorted[i], span);
            assert(sorted.contains(sorted[i]));
            let k = choose|k: int| 0 <= k < spans.len() && spans[k] == sorted[i];
            assert(strictly_covers(spans[k], span));
        }
        if covered(spans, span) {
            let i = choose|i: int|
                0 <= i < spans.len() && strictly_covers(#[trigger] spans[i], span);
            assert(spans.contains(spans[i]));
            let k = choose|k: int| 0 <= k < sorted.len() && sorted[k] == spans[i];
            assert(strictly_covers(sorted[k], span));
        }
    }
}

/// No two of the spans that `drop_covered` keeps cover one another.
pub proof fn lemma_no_span_covers_another(spans: Seq<Span>, i: int, j: int)
    requires
        0 <= i < drop_covered(spans).len(),
        0 <= j < drop_covered(spans).len(),
        i != j,
    ensures
        !strictly_covers(drop_covered(spans)[i], drop_covered(spans)[j]),
{
    lemma_drop_covered(spans);
}

/// Only one sequence holds the uncovered spans of `spans` from left to
/// right.
pub proof fn lemma_uncovered_selection_is_unique(spans: Seq<Span>, a: Seq<Span>, b: Seq<Span>)
    requires
        is_uncovered_selection(spans, a),
        is_uncovered_selection(spans, b),
    ensures
        a == b,
{
    lemma_same_members_same_sequence(a, b);
}

/// Two strictly rising sequences with the same members are equal.
proof fn lemma_same_members_same_sequence(a: Seq<Span>, b: Seq<Span>)
    requires
        strictly_rising(a),
        strictly_rising(b),
        forall|span: Span|
            #![trigger a.contains(span)]
            #![trigger b.contains(span)]
            a.contains(span) <==> b.contains(span),
    ensures
        a == b,
    decreases a.len(),
{
    if a.len() == 0 {
        if b.len() > 0 {
            assert(b.contains(b[0]));
        }
        assert(a =~= b);
    } else if b.len() == 0 {
        assert(a.contains(a[0]));
    } else {
        let la = a.last();
        let lb = b.last();
        assert(a.contains(la)) by {
            assert(a[a.len() - 1] == la);
        }
        assert(b.contains(lb)) by {
            assert(b[b.len() - 1] == lb);
        }
        let ia = choose|i: int| 0 <= i < b.len() && b[i] == la;
        let ib = choose|i: int| 0 <= i < a.len() && a[i] == lb;
        assert(la == lb) by {
            if ia < b.len() - 1 {
                assert(b[ia].start < b[b.len() - 1].start);
            }
            if ib < a.len() - 1 {
                assert(a[ib].start < a[a.len() - 1].start);
            }
        }
        let xa = a.drop_last();
        let xb = b.drop_last();
        assert forall|span: Span| xa.contains(span) <==> xb.contains(span) by {
            if xa.contains(span) {
                let i = choose|i: int| 0 <= i < xa.len() && xa[i] == span;
                assert(a[i] == span);
                assert(a[i].start < a[a.len() - 1].start);
                assert(a.contains(span));
                let k = choose|k: int| 0 <= k < b.len() && b[k] == span;
                assert(xb[k] == span);
            }
            if xb.contains(span) {
                let i = choose|i: int| 0 <= i < xb.len() && xb[i] == span;
                assert(b[i] == span);
                assert(b[i].start < b[b.len() - 1].start);
                assert(b.contains(span));
                let k = choose|k: int| 0 <= k < a.len() && a[k] == span;
                assert(xa[k] == span);
            }
        }
        lemma_same_members_same_sequence(xa, xb);
        assert(a =~= xa.push(la));
        assert(b =~= xb.push(lb));
    }
}

/// Where `insert_span` puts a span: behind the `at` spans that precede it.
proof fn lemma_insert_at(sorted: Seq<Span>, span: Span, at: int)
    requires
        0 <= at <= sorted.len(),
        at > 0 ==> precedes(sorted[at - 1], span),
        forall|j: int| at <= j < sorted.len() ==> !precedes(#[trigger] sorted[j], span),
    ensures
        insert_span(sorted, span) == sorted.insert(at, span),
    decreases sorted.len(),
{
    if at == sorted.len() {
        assert(sorted.push(span) =~= sorted.insert(at, span));
    } else {
        assert(!precedes(sorted.last(), span));
        lemma_insert_at(sorted.drop_last(), span, at);
        assert(sorted.drop_last().insert(at, span).push(sorted.last()) =~= sorted.insert(
            at,
            span,
        ));
    }
}

/// Puts `span` into `sorted` behind the last span that precedes it.
fn insert_in_order(sorted: &mut Vec<Span>, span: Span)
    ensures
        final(sorted)@ == insert_span(old(sorted)@, span),
{
    let mut at = sorted.len();
    while at > 0 && !precedes(sorted[at - 1], span)
        invariant
            at <= sorted.len(),
            *sorted == *old(sorted),
            forall|j: int| at <= j < sorted.len() ==> !precedes(#[trigger] sorted@[j], span),
        decreases at,
    {
        at -= 1;
    }
    proof {
        lemma_insert_at(sorted@, span, at as int);
    }
    sorted.insert(at, span);
}

/// Keeps the spans that no other span covers, each once and from left to
/// right.
pub fn naive_drop_covered_spans(spans: Vec<Span>) -> (kept: Vec<Span>)
    ensures
        kept@ == drop_covered(spans@),
        is_uncovered_selection(spans@, kept@),
{
    proof {
        lemma_drop_covered(spans@);
    }
    // Sort spans by start, and by end in descending order for ties.
    let mut sorted: Vec<Span> = Vec::new();
    let mut i: usize = 0;
    while i < spans.len()
        invariant
            i <= spans.len(),
            sorted@ == sort_spans(spans@.take(i as int)),
        decreases spans.len() - i,
    {
        proof {
            assert(spans@.take(i + 1).drop_last() =~= spans@.take(i as int));
        }
        insert_in_order(&mut sorted, spans[i]);
        i += 1;
    }
    proof {
        assert(spans@.take(i as int) =~= spans@);
    }

    // Keep a span if it ends behind all spans before it.
    let mut result: Vec<Span> = Vec::new();
    let mut max_end: Option<usize> = None;
    let mut k: usize = 0;
    while k < sorted.len()
        invariant
            k <= sorted.len(),
            result@ == rising(sorted@.take(k as int)),
            max_end is None <==> result@.len() == 0,
            max_end matches Some(end) ==> end == result@.last().end,
        decreases sorted.len() - k,
    {
        proof {
            assert(sorted@.take(k + 1).drop_last() =~= sorted@.take(k as int));
        }
        let span = sorted[k];
        if let Some(end) = max_end {
            if span.end > end {
                result.push(span);
                max_end = Some(span.end);
            }
        } else {
            result.push(span);
            max_end = Some(span.end);
        }
        k += 1;
    }
    proof {
        assert(sorted@.take(k as int) =~= sorted@);
    }
    result
}

} // verus!
