//! The scan that every category extractor shares: rules in declared order,
//! matches in scan order, the first occurrence of each lowercase value kept.

use crate::entity::{
    all_of_category, all_placed_in, category_list, distinct_lowercase, entity_views, placed_in,
    Category, Entity, EntityView,
};
use crate::context::{context_of, context_snippet};
use crate::pattern::{spans_in_text, Rule};
use crate::text::{
    cut, lemma_span_value_bytes, lowercased, same_text, span_in_text, span_value, to_lowercase,
};
use vstd::prelude::*;
use vstd::string::*;
use vstd::utf8::*;

verus! {

broadcast use vstd::utf8::group_utf8_lib;

/// The key under which a span is deduplicated: its text in lowercase.
pub open spec fn dedup_key(text: Seq<char>, span: (usize, usize)) -> Seq<char> {
    lowercased(span_value(text, span.0 as int, span.1 as int))
}

/// One of the spans kept so far has the key of `span`.
pub open spec fn key_seen(text: Seq<char>, kept: Seq<(usize, usize)>, span: (usize, usize)) -> bool {
    exists|j: int| 0 <= j < kept.len() && dedup_key(text, #[trigger] kept[j]) == dedup_key(text, span)
}

/// The spans kept after one more match: a match is kept when its designated
/// group took part, is not empty, and has a key not seen before.
pub open spec fn absorb(
    text: Seq<char>,
    kept: Seq<(usize, usize)>,
    found: Option<(usize, usize)>,
) -> Seq<(usize, usize)> {
    match found {
        Some(span) => if span.0 < span.1 && !key_seen(text, kept, span) {
            kept.push(span)
        } else {
            kept
        },
        None => kept,
    }
}

/// The spans kept after the matches of one scan, taken in scan order.
pub open spec fn absorb_scan(
    text: Seq<char>,
    kept: Seq<(usize, usize)>,
    scan: Seq<Option<(usize, usize)>>,
) -> Seq<(usize, usize)>
    decreases scan.len(),
{
    if scan.len() == 0 {
        kept
    } else {
        absorb(text, absorb_scan(text, kept, scan.drop_last()), scan.last())
    }
}

/// The spans kept after the scans of `rules`, taken in declared order.
pub open spec fn absorb_rules(text: Seq<char>, kept: Seq<(usize, usize)>, rules: Seq<Rule>) -> Seq<
    (usize, usize),
>
    decreases rules.len(),
{
    if rules.len() == 0 {
        kept
    } else {
        absorb_scan(
            text,
            absorb_rules(text, kept, rules.drop_last()),
            rules.last().captures(text),
        )
    }
}

/// The spans that a category's rules select in `text`.
pub open spec fn selected_spans(text: Seq<char>, rules: Seq<Rule>) -> Seq<(usize, usize)> {
    absorb_rules(text, Seq::empty(), rules)
}

/// The entity that a selected span stands for.
pub open spec fn entity_at(text: Seq<char>, category: Category, span: (usize, usize)) -> EntityView {
    EntityView {
        value: span_value(text, span.0 as int, span.1 as int),
        category,
        start: span.0 as int,
        end: span.1 as int,
        confidence: category.spec_confidence() as int,
        context: if category.spec_has_context() {
            Some(context_of(text, span.0 as int, span.1 as int))
        } else {
            None
        },
        amount: None,
    }
}

/// The entities of the spans in `spans`, in order.
pub open spec fn entities_at(text: Seq<char>, category: Category, spans: Seq<(usize, usize)>) -> Seq<
    EntityView,
> {
    spans.map_values(|span: (usize, usize)| entity_at(text, category, span))
}

/// What [`extract_with_patterns`] returns.
pub open spec fn spec_extract_with_patterns(
    text: Seq<char>,
    rules: Seq<Rule>,
    category: Category,
) -> Seq<EntityView> {
    entities_at(text, category, selected_spans(text, rules))
}

/// No two of the spans have the same key.
pub open spec fn distinct_keys(text: Seq<char>, kept: Seq<(usize, usize)>) -> bool {
    forall|i: int, j: int|
        #![trigger kept[i], kept[j]]
        0 <= i < j < kept.len() ==> dedup_key(text, kept[i]) != dedup_key(text, kept[j])
}

/// Every span is not empty and can be cut out of `text`.
pub open spec fn usable_spans(text: Seq<char>, kept: Seq<(usize, usize)>) -> bool {
    forall|i: int|
        0 <= i < kept.len() ==> (#[trigger] kept[i]).0 < kept[i].1 && span_in_text(
            text,
            kept[i].0 as int,
            kept[i].1 as int,
        )
}

proof fn lemma_absorb_scan_distinct(
    text: Seq<char>,
    kept: Seq<(usize, usize)>,
    scan: Seq<Option<(usize, usize)>>,
)
    requires
        distinct_keys(text, kept),
    ensures
        distinct_keys(text, absorb_scan(text, kept, scan)),
    decreases scan.len(),
{
    if scan.len() > 0 {
        lemma_absorb_scan_distinct(text, kept, scan.drop_last());
    }
}

proof fn lemma_absorb_rules_distinct(text: Seq<char>, kept: Seq<(usize, usize)>, rules: Seq<Rule>)
    requires
        distinct_keys(text, kept),
    ensures
        distinct_keys(text, absorb_rules(text, kept, rules)),
    decreases rules.len(),
{
    if rules.len() > 0 {
        lemma_absorb_rules_distinct(text, kept, rules.drop_last());
        lemma_absorb_scan_distinct(
            text,
            absorb_rules(text, kept, rules.drop_last()),
            rules.last().captures(text),
        );
    }
}

/// Whatever the rules and the text, no two entities of a scan share a
/// lowercase value.
pub proof fn lemma_extracted_values_distinct(text: Seq<char>, rules: Seq<Rule>, category: Category)
    ensures
        distinct_lowercase(spec_extract_with_patterns(text, rules, category)),
        all_of_category(spec_extract_with_patterns(text, rules, category), category),
{
    lemma_absorb_rules_distinct(text, Seq::empty(), rules);
}

/// A key that was seen stays seen when more spans are kept.
proof fn lemma_seen_stays_seen(
    text: Seq<char>,
    kept: Seq<(usize, usize)>,
    more: Seq<(usize, usize)>,
    span: (usize, usize),
)
    requires
        key_seen(text, kept, span),
        kept.is_prefix_of(more),
    ensures
        key_seen(text, more, span),
{
    let j = choose|j: int|
        0 <= j < kept.len() && dedup_key(text, #[trigger] kept[j]) == dedup_key(text, span);
    assert(more[j] == kept[j]);
}

/// A scan only adds to the spans kept before it.
proof fn lemma_absorb_scan_extends(
    text: Seq<char>,
    kept: Seq<(usize, usize)>,
    scan: Seq<Option<(usize, usize)>>,
)
    ensures
        kept.is_prefix_of(absorb_scan(text, kept, scan)),
    decreases scan.len(),
{
    if scan.len() > 0 {
        lemma_absorb_scan_extends(text, kept, scan.drop_last());
    }
}

/// After a scan, the key of each of its non-empty matches has been seen.
proof fn lemma_scan_is_represented(
    text: Seq<char>,
    kept: Seq<(usize, usize)>,
    scan: Seq<Option<(usize, usize)>>,
    k: int,
)
    requires
        0 <= k < scan.len(),
        scan[k] is Some,
        scan[k]->Some_0.0 < scan[k]->Some_0.1,
    ensures
        key_seen(text, absorb_scan(text, kept, scan), scan[k]->Some_0),
    decreases scan.len(),
{
    let span = scan[k]->Some_0;
    let before = absorb_scan(text, kept, scan.drop_last());
    let after = absorb_scan(text, kept, scan);
    if k == scan.len() - 1 {
        if !key_seen(text, before, span) {
            assert(after == before.push(span));
            assert(after[after.len() - 1] == span);
        }
    } else {
        lemma_scan_is_represented(text, kept, scan.drop_last(), k);
        assert(before.is_prefix_of(after));
        lemma_seen_stays_seen(text, before, after, span);
    }
}

/// Whatever the rules and the text: every non-empty match of every rule is
/// represented among the selected spans by a span with its key. With
/// [`lemma_extracted_values_distinct`], each lowercase value that the rules
/// find is reported exactly once.
pub proof fn lemma_every_match_is_represented(
    text: Seq<char>,
    rules: Seq<Rule>,
    r: int,
    k: int,
)
    requires
        0 <= r < rules.len(),
        0 <= k < rules[r].captures(text).len(),
        rules[r].captures(text)[k] is Some,
        rules[r].captures(text)[k]->Some_0.0 < rules[r].captures(text)[k]->Some_0.1,
    ensures
        key_seen(text, selected_spans(text, rules), rules[r].captures(text)[k]->Some_0),
    decreases rules.len(),
{
    let span = rules[r].captures(text)[k]->Some_0;
    let before = absorb_rules(text, Seq::empty(), rules.drop_last());
    if r == rules.len() - 1 {
        lemma_scan_is_represented(text, before, rules.last().captures(text), k);
    } else {
        lemma_every_match_is_represented(text, rules.drop_last(), r, k);
        lemma_absorb_scan_extends(text, before, rules.last().captures(text));
        lemma_seen_stays_seen(text, before, selected_spans(text, rules), span);
    }
}

/// The designated spans of a scan that are not empty, in scan order.
pub open spec fn usable(scan: Seq<Option<(usize, usize)>>) -> Seq<(usize, usize)>
    decreases scan.len(),
{
    if scan.len() == 0 {
        Seq::empty()
    } else {
        match scan.last() {
            Some(span) => if span.0 < span.1 {
                usable(scan.drop_last()).push(span)
            } else {
                usable(scan.drop_last())
            },
            None => usable(scan.drop_last()),
        }
    }
}

/// The candidates of a category: the non-empty designated spans of all
/// matches, rule by rule in declared order, each rule in scan order.
pub open spec fn candidates(text: Seq<char>, rules: Seq<Rule>) -> Seq<(usize, usize)>
    decreases rules.len(),
{
    if rules.len() == 0 {
        Seq::empty()
    } else {
        candidates(text, rules.drop_last()) + usable(rules.last().captures(text))
    }
}

/// No candidate before the one at `at` has its key.
pub open spec fn first_of_its_key(text: Seq<char>, spans: Seq<(usize, usize)>, at: int) -> bool {
    forall|j: int| 0 <= j < at ==> dedup_key(text, #[trigger] spans[j]) != dedup_key(text, spans[at])
}

/// The candidates that are the first of their key, in order.
pub open spec fn first_occurrences(text: Seq<char>, spans: Seq<(usize, usize)>) -> Seq<
    (usize, usize),
>
    decreases spans.len(),
{
    if spans.len() == 0 {
        Seq::empty()
    } else if first_of_its_key(text, spans, spans.len() - 1) {
        first_occurrences(text, spans.drop_last()).push(spans.last())
    } else {
        first_occurrences(text, spans.drop_last())
    }
}

/// The spans kept after `spans`, none of them empty, were looked at in
/// order.
pub open spec fn absorb_spans(
    text: Seq<char>,
    kept: Seq<(usize, usize)>,
    spans: Seq<(usize, usize)>,
) -> Seq<(usize, usize)>
    decreases spans.len(),
{
    if spans.len() == 0 {
        kept
    } else {
        let before = absorb_spans(text, kept, spans.drop_last());
        if key_seen(text, before, spans.last()) {
            before
        } else {
            before.push(spans.last())
        }
    }
}

proof fn lemma_absorb_scan_is_absorb_spans(
    text: Seq<char>,
    kept: Seq<(usize, usize)>,
    scan: Seq<Option<(usize, usize)>>,
)
    ensures
        absorb_scan(text, kept, scan) == absorb_spans(text, kept, usable(scan)),
    decreases scan.len(),
{
    if scan.len() > 0 {
        lemma_absorb_scan_is_absorb_spans(text, kept, scan.drop_last());
        let init = usable(scan.drop_last());
        match scan.last() {
            Some(span) => {
                if span.0 < span.1 {
                    assert(init.push(span).drop_last() =~= init);
                }
            },
            None => {},
        }
    }
}

proof fn lemma_absorb_spans_concat(
    text: Seq<char>,
    kept: Seq<(usize, usize)>,
    a: Seq<(usize, usize)>,
    b: Seq<(usize, usize)>,
)
    ensures
        absorb_spans(text, kept, a + b) == absorb_spans(text, absorb_spans(text, kept, a), b),
    decreases b.len(),
{
    if b.len() == 0 {
        assert(a + b =~= a);
    } else {
        assert((a + b).drop_last() =~= a + b.drop_last());
        assert((a + b).last() == b.last());
        lemma_absorb_spans_concat(text, kept, a, b.drop_last());
    }
}

proof fn lemma_absorb_rules_is_absorb_spans(text: Seq<char>, rules: Seq<Rule>)
    ensures
        selected_spans(text, rules) == absorb_spans(text, Seq::empty(), candidates(text, rules)),
    decreases rules.len(),
{
    if rules.len() > 0 {
        let before = candidates(text, rules.drop_last());
        let scan = rules.last().captures(text);
        lemma_absorb_rules_is_absorb_spans(text, rules.drop_last());
        lemma_absorb_scan_is_absorb_spans(text, selected_spans(text, rules.drop_last()), scan);
        lemma_absorb_spans_concat(text, Seq::empty(), before, usable(scan));
    }
}

/// The spans kept are candidates, and the key of every candidate has been
/// seen among them.
proof fn lemma_kept_and_seen(text: Seq<char>, spans: Seq<(usize, usize)>)
    ensures
        forall|i: int|
            0 <= i < absorb_spans(text, Seq::empty(), spans).len() ==> spans.contains(
                #[trigger] absorb_spans(text, Seq::empty(), spans)[i],
            ),
        forall|j: int|
            0 <= j < spans.len() ==> key_seen(
                text,
                absorb_spans(text, Seq::empty(), spans),
                #[trigger] spans[j],
            ),
    decreases spans.len(),
{
    if spans.len() > 0 {
        let init = spans.drop_last();
        let last = spans.last();
        lemma_kept_and_seen(text, init);
        let before = absorb_spans(text, Seq::empty(), init);
        let after = absorb_spans(text, Seq::empty(), spans);
        assert(before.is_prefix_of(after));
        assert forall|i: int| 0 <= i < after.len() implies spans.contains(#[trigger] after[i]) by {
            if i < before.len() {
                assert(init.contains(before[i]));
                let p = choose|p: int| 0 <= p < init.len() && init[p] == before[i];
                assert(spans[p] == before[i]);
            } else {
                assert(spans[spans.len() - 1] == last);
            }
        }
        assert forall|j: int| 0 <= j < spans.len() implies key_seen(
            text,
            after,
            #[trigger] spans[j],
        ) by {
            if j < init.len() {
                assert(init[j] == spans[j]);
                lemma_seen_stays_seen(text, before, after, spans[j]);
            } else if !key_seen(text, before, last) {
                assert(after[after.len() - 1] == last);
            }
        }
    }
}

proof fn lemma_absorb_spans_keeps_first(text: Seq<char>, spans: Seq<(usize, usize)>)
    ensures
        absorb_spans(text, Seq::empty(), spans) == first_occurrences(text, spans),
    decreases spans.len(),
{
    if spans.len() > 0 {
        let init = spans.drop_last();
        let last = spans.last();
        lemma_absorb_spans_keeps_first(text, init);
        lemma_kept_and_seen(text, init);
        let before = absorb_spans(text, Seq::empty(), init);
        if key_seen(text, before, last) {
            let k = choose|k: int|
                0 <= k < before.len() && dedup_key(text, #[trigger] before[k]) == dedup_key(
                    text,
                    last,
                );
            assert(init.contains(before[k]));
            let j = choose|j: int| 0 <= j < init.len() && init[j] == before[k];
            assert(spans[j] == before[k]);
            assert(spans[spans.len() - 1] == last);
            assert(!first_of_its_key(text, spans, spans.len() - 1));
        } else {
            assert forall|j: int| 0 <= j < spans.len() - 1 implies dedup_key(
                text,
                #[trigger] spans[j],
            ) != dedup_key(text, spans[spans.len() - 1]) by {
                assert(init[j] == spans[j]);
                assert(key_seen(text, before, init[j]));
                if dedup_key(text, spans[j]) == dedup_key(text, last) {
                    let k = choose|k: int|
                        0 <= k < before.len() && dedup_key(text, #[trigger] before[k])
                            == dedup_key(text, init[j]);
                    assert(dedup_key(text, before[k]) == dedup_key(text, last));
                }
            }
        }
    }
}

/// Whatever the rules and the text: a candidate is selected exactly when no
/// candidate before it, in rule order and then scan order, has its value in
/// lowercase; and the selected spans stand in the order of the candidates.
pub proof fn lemma_first_occurrence_wins(text: Seq<char>, rules: Seq<Rule>)
    ensures
        selected_spans(text, rules) == first_occurrences(text, candidates(text, rules)),
{
    lemma_absorb_rules_is_absorb_spans(text, rules);
    lemma_absorb_spans_keeps_first(text, candidates(text, rules));
}

/// Entities made from usable spans lie in the text.
pub proof fn lemma_entities_placed(text: Seq<char>, category: Category, spans: Seq<(usize, usize)>)
    requires
        usable_spans(text, spans),
    ensures
        all_placed_in(text, entities_at(text, category, spans)),
{
    assert forall|i: int| 0 <= i < spans.len() implies placed_in(
        text,
        #[trigger] entities_at(text, category, spans)[i],
    ) by {
        lemma_span_value_bytes(text, spans[i].0 as int, spans[i].1 as int);
    }
}

/// The entity of the span `start..end` of `text`.
pub fn entity_from_span(text: &str, category: Category, start: usize, end: usize) -> (entity:
    Entity)
    requires
        span_in_text(text@, start as int, end as int),
    ensures
        entity@ == entity_at(text@, category, (start, end)),
{
    let context = if category.has_context() {
        Some(context_snippet(text, start, end))
    } else {
        None
    };
    Entity {
        value: String::from_str(cut(text, start, end)),
        category,
        start,
        end,
        confidence: category.confidence(),
        context,
        amount: None,
    }
}

/// Whether `key` is one of `keys`.
fn key_known(keys: &Vec<String>, key: &str) -> (known: bool)
    ensures
        known == exists|j: int| 0 <= j < keys@.len() && (#[trigger] keys@[j])@ == key@,
{
    let mut i: usize = 0;
    while i < keys.len()
        invariant
            i <= keys@.len(),
            forall|j: int| 0 <= j < i ==> (#[trigger] keys@[j])@ != key@,
        decreases keys@.len() - i,
    {
        if same_text(keys[i].as_str(), key) {
            return true;
        }
        i += 1;
    }
    false
}

/// The entities selected so far from one text, each with the span it was
/// made from and the key under which it is deduplicated.
pub struct Selection {
    pub entities: Vec<Entity>,
    pub spans: Vec<(usize, usize)>,
    pub keys: Vec<String>,
}

impl Selection {
    /// The selection is one from `text` for `category`: its spans are
    /// usable, and each entity and each key is that of the span at its place.
    pub open spec fn holds(&self, text: Seq<char>, category: Category) -> bool {
        &&& usable_spans(text, self.spans@)
        &&& self.entities@.len() == self.spans@.len()
        &&& self.keys@.len() == self.spans@.len()
        &&& forall|i: int|
            0 <= i < self.spans@.len() ==> (#[trigger] self.entities@[i])@ == entity_at(
                text,
                category,
                self.spans@[i],
            )
        &&& forall|i: int|
            0 <= i < self.spans@.len() ==> (#[trigger] self.keys@[i])@ == dedup_key(
                text,
                self.spans@[i],
            )
    }

    /// The empty selection.
    pub fn new() -> (selection: Selection)
        ensures
            selection.spans@ == Seq::<(usize, usize)>::empty(),
            selection.entities@.len() == 0,
            selection.keys@.len() == 0,
            forall|text: Seq<char>, category: Category| #[trigger] selection.holds(text, category),
    {
        Selection { entities: Vec::new(), spans: Vec::new(), keys: Vec::new() }
    }

    /// Takes the matches of one scan of `text` into the selection, in scan
    /// order: a match adds an entity when its designated group took part, is
    /// not empty, and has a lowercase value that no entity selected before
    /// has.
    pub fn absorb_scan(
        &mut self,
        text: &str,
        category: Category,
        spans: &Vec<Option<(usize, usize)>>,
    )
        requires
            old(self).holds(text@, category),
            spans_in_text(text@, spans@),
        ensures
            final(self).holds(text@, category),
            final(self).spans@ == absorb_scan(text@, old(self).spans@, spans@),
    {
        let ghost before = self.spans@;
        let mut k: usize = 0;
        while k < spans.len()
            invariant
                k <= spans@.len(),
                spans_in_text(text@, spans@),
                self.holds(text@, category),
                self.spans@ == absorb_scan(text@, before, spans@.take(k as int)),
            decreases spans@.len() - k,
        {
            let ghost kept = self.spans@;
            proof {
                assert(spans@.take(k + 1).drop_last() =~= spans@.take(k as int));
                assert(spans@.take(k + 1).last() == spans@[k as int]);
                assert(absorb_scan(text@, before, spans@.take(k + 1)) == absorb(
                    text@,
                    kept,
                    spans@[k as int],
                ));
            }
            if let Some((start, end)) = spans[k] {
                if start < end {
                    let key = to_lowercase(cut(text, start, end));
                    let known = key_known(&self.keys, key.as_str());
                    proof {
                        if known {
                            let j = choose|j: int|
                                0 <= j < self.keys@.len() && (#[trigger] self.keys@[j])@ == key@;
                            assert(dedup_key(text@, kept[j]) == dedup_key(text@, (start, end)));
                        } else {
                            assert forall|j: int| 0 <= j < kept.len() implies dedup_key(
                                text@,
                                #[trigger] kept[j],
                            ) != dedup_key(text@, (start, end)) by {
                                assert(self.keys@[j]@ != key@);
                            }
                        }
                        assert(known == key_seen(text@, kept, (start, end)));
                    }
                    if !known {
                        self.entities.push(entity_from_span(text, category, start, end));
                        self.keys.push(key);
                        self.spans.push((start, end));
                    }
                }
            }
            k += 1;
        }
        proof {
            assert(spans@.take(k as int) =~= spans@);
        }
    }
}

/// Scans `text` with each rule in declared order and returns one entity for
/// the first occurrence of every lowercase value, in order of first
/// occurrence. Empty matches and matches whose designated group took no part
/// yield nothing.
pub fn extract_with_patterns(text: &str, rules: &Vec<Rule>, category: Category) -> (entities: Vec<
    Entity,
>)
    ensures
        entity_views(entities@) == spec_extract_with_patterns(text@, rules@, category),
        category_list(text@, entity_views(entities@), category),
{
    let mut selection = Selection::new();
    let mut r: usize = 0;
    proof {
        assert(selection.holds(text@, category));
    }
    while r < rules.len()
        invariant
            r <= rules@.len(),
            selection.holds(text@, category),
            selection.spans@ == absorb_rules(text@, Seq::empty(), rules@.take(r as int)),
        decreases rules@.len() - r,
    {
        let spans = rules[r].scan(text);
        proof {
            assert(rules@.take(r + 1).drop_last() =~= rules@.take(r as int));
            assert(rules@.take(r + 1).last() == rules@[r as int]);
        }
        selection.absorb_scan(text, category, &spans);
        r += 1;
    }
    proof {
        assert(rules@.take(r as int) =~= rules@);
        assert(entity_views(selection.entities@) =~= entities_at(
            text@,
            category,
            selection.spans@,
        ));
        lemma_entities_placed(text@, category, selection.spans@);
        lemma_extracted_values_distinct(text@, rules@, category);
    }
    selection.entities
}

} // verus!
