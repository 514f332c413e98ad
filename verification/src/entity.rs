//! The data model: categories, entities and extraction results, each with the
//! mathematical view that the contracts speak of.

use crate::text::{lowercased, text_bytes};
use vstd::prelude::*;

verus! {

/// The eight kinds of entity.
#[derive(Clone, Copy, Debug, PartialEq, Eq, Structural)]
pub enum Category {
    Date,
    Person,
    Organization,
    Amount,
    Location,
    Email,
    Phone,
    Url,
}

impl Category {
    /// The fixed confidence of a category, in hundredths.
    pub open spec fn spec_confidence(self) -> u8 {
        match self {
            Category::Date => 85,
            Category::Person => 75,
            Category::Organization => 80,
            Category::Amount => 90,
            Category::Location => 70,
            Category::Email => 95,
            Category::Phone => 80,
            Category::Url => 95,
        }
    }

    /// The tag under which a category is reported.
    pub open spec fn spec_tag(self) -> Seq<char> {
        match self {
            Category::Date => "date"@,
            Category::Person => "person"@,
            Category::Organization => "organization"@,
            Category::Amount => "amount"@,
            Category::Location => "location"@,
            Category::Email => "email"@,
            Category::Phone => "phone"@,
            Category::Url => "url"@,
        }
    }

    /// The display class of a category's markup.
    pub open spec fn spec_style_class(self) -> Seq<char> {
        match self {
            Category::Date => "entity-date"@,
            Category::Person => "entity-person"@,
            Category::Organization => "entity-org"@,
            Category::Amount => "entity-amount"@,
            Category::Location => "entity-location"@,
            Category::Email => "entity-email"@,
            Category::Phone => "entity-phone"@,
            Category::Url => "entity-url"@,
        }
    }

    /// Whether entities of this category carry a context snippet.
    pub open spec fn spec_has_context(self) -> bool {
        !(self == Category::Email || self == Category::Phone || self == Category::Url)
    }

    /// The fixed confidence of a category, in hundredths (85 stands for 0.85).
    #[verifier::when_used_as_spec(spec_confidence)]
    pub fn confidence(self) -> (pct: u8)
        ensures
            pct == self.spec_confidence(),
            pct <= 100,
    {
        match self {
            Category::Date => 85,
            Category::Person => 75,
            Category::Organization => 80,
            Category::Amount => 90,
            Category::Location => 70,
            Category::Email => 95,
            Category::Phone => 80,
            Category::Url => 95,
        }
    }

    /// The tag under which a category is reported.
    pub fn tag(self) -> (tag: &'static str)
        ensures
            tag@ == self.spec_tag(),
    {
        match self {
            Category::Date => "date",
            Category::Person => "person",
            Category::Organization => "organization",
            Category::Amount => "amount",
            Category::Location => "location",
            Category::Email => "email",
            Category::Phone => "phone",
            Category::Url => "url",
        }
    }

    /// The display class of a category's markup.
    pub fn style_class(self) -> (class: &'static str)
        ensures
            class@ == self.spec_style_class(),
    {
        match self {
            Category::Date => "entity-date",
            Category::Person => "entity-person",
            Category::Organization => "entity-org",
            Category::Amount => "entity-amount",
            Category::Location => "entity-location",
            Category::Email => "entity-email",
            Category::Phone => "entity-phone",
            Category::Url => "entity-url",
        }
    }

    /// Whether entities of this category carry a context snippet.
    #[verifier::when_used_as_spec(spec_has_context)]
    pub fn has_context(self) -> (yes: bool)
        ensures
            yes == self.spec_has_context(),
    {
        match self {
            Category::Email | Category::Phone | Category::Url => false,
            _ => true,
        }
    }
}

/// The scale word of an amount.
#[derive(Clone, Copy, Debug, PartialEq, Eq, Structural)]
pub enum Scale {
    Unit,
    Million,
    Billion,
}

impl Scale {
    /// The factor a scale word stands for.
    pub open spec fn spec_factor(self) -> u64 {
        match self {
            Scale::Unit => 1,
            Scale::Million => 1_000_000,
            Scale::Billion => 1_000_000_000,
        }
    }

    /// The factor a scale word stands for.
    #[verifier::when_used_as_spec(spec_factor)]
    pub fn factor(self) -> (factor: u64)
        ensures
            factor == self.spec_factor(),
    {
        match self {
            Scale::Unit => 1,
            Scale::Million => 1_000_000,
            Scale::Billion => 1_000_000_000,
        }
    }
}

/// The normalized form of an amount: its leading numeric token, still as
/// text, and the scale to multiply it by.
#[derive(Clone, Debug)]
pub struct AmountValue {
    pub numeric: String,
    pub scale: Scale,
}

/// The model of an [`AmountValue`].
pub struct AmountView {
    pub numeric: Seq<char>,
    pub scale: Scale,
}

impl View for AmountValue {
    type V = AmountView;

    open spec fn view(&self) -> AmountView {
        AmountView { numeric: self.numeric@, scale: self.scale }
    }
}

/// One detected entity.
#[derive(Clone, Debug)]
pub struct Entity {
    /// The matched text.
    pub value: String,
    pub category: Category,
    /// Byte offset of the first byte of the match in the source text.
    pub start: usize,
    /// Byte offset just past the match.
    pub end: usize,
    /// Confidence in hundredths, fixed per category.
    pub confidence: u8,
    /// Up to 50 characters of text on each side of the match, with the match.
    pub context: Option<String>,
    /// The normalized value, for amounts.
    pub amount: Option<AmountValue>,
}

/// The model of an [`Entity`].
pub struct EntityView {
    pub value: Seq<char>,
    pub category: Category,
    pub start: int,
    pub end: int,
    pub confidence: int,
    pub context: Option<Seq<char>>,
    pub amount: Option<AmountView>,
}

impl View for Entity {
    type V = EntityView;

    open spec fn view(&self) -> EntityView {
        EntityView {
            value: self.value@,
            category: self.category,
            start: self.start as int,
            end: self.end as int,
            confidence: self.confidence as int,
            context: match self.context {
                Some(c) => Some(c@),
                None => None,
            },
            amount: match self.amount {
                Some(a) => Some(a@),
                None => None,
            },
        }
    }
}

/// The models of a list of entities, in order.
pub open spec fn entity_views(entities: Seq<Entity>) -> Seq<EntityView> {
    entities.map_values(|e: Entity| e@)
}

/// The entity lies in `text`: its offsets delimit a non-empty part of the
/// text, and that part is its value.
pub open spec fn placed_in(text: Seq<char>, e: EntityView) -> bool {
    &&& 0 <= e.start < e.end <= text_bytes(text).len()
    &&& text_bytes(text).subrange(e.start, e.end) == text_bytes(e.value)
}

/// Every entity of the list lies in `text`.
pub open spec fn all_placed_in(text: Seq<char>, entities: Seq<EntityView>) -> bool {
    forall|i: int| 0 <= i < entities.len() ==> placed_in(text, #[trigger] entities[i])
}

/// No two entities of the list have the same value in lowercase.
pub open spec fn distinct_lowercase(entities: Seq<EntityView>) -> bool {
    forall|i: int, j: int|
        #![trigger entities[i], entities[j]]
        0 <= i < j < entities.len() ==> lowercased(entities[i].value) != lowercased(
            entities[j].value,
        )
}

/// Every entity of the list is of `category` and has its confidence.
pub open spec fn all_of_category(entities: Seq<EntityView>, category: Category) -> bool {
    forall|i: int|
        0 <= i < entities.len() ==> (#[trigger] entities[i]).category == category
            && entities[i].confidence == category.spec_confidence()
}

/// What holds of every list that a category extractor returns for `text`.
pub open spec fn category_list(text: Seq<char>, entities: Seq<EntityView>, category: Category) -> bool {
    &&& all_placed_in(text, entities)
    &&& distinct_lowercase(entities)
    &&& all_of_category(entities, category)
}

/// Dropping entities from a list leaves the lowercase values distinct.
pub proof fn lemma_filter_keeps_distinct(
    entities: Seq<EntityView>,
    keep: spec_fn(EntityView) -> bool,
)
    requires
        distinct_lowercase(entities),
    ensures
        distinct_lowercase(entities.filter(keep)),
    decreases entities.len(),
{
    reveal(Seq::filter);
    if entities.len() > 0 {
        let init = entities.drop_last();
        let last = entities.last();
        assert(distinct_lowercase(init)) by {
            assert forall|i: int, j: int| 0 <= i < j < init.len() implies lowercased(
                init[i].value,
            ) != lowercased(init[j].value) by {
                assert(entities[i] == init[i] && entities[j] == init[j]);
            }
        }
        lemma_filter_keeps_distinct(init, keep);
        let kept = init.filter(keep);
        if keep(last) {
            let out = kept.push(last);
            assert(entities.filter(keep) == out);
            assert forall|i: int, j: int| 0 <= i < j < out.len() implies lowercased(
                out[i].value,
            ) != lowercased(out[j].value) by {
                if j == kept.len() {
                    assert(kept.contains(kept[i]));
                    init.lemma_filter_contains_rev(keep, kept[i]);
                    let k = choose|k: int| 0 <= k < init.len() && init[k] == kept[i];
                    assert(entities[k] == kept[i]);
                    assert(entities[entities.len() - 1] == last);
                }
            }
        }
    }
}

/// Dropping entities from a list keeps what holds of a category's list: the
/// entities that stay still lie in the text, are of the category, and have
/// distinct lowercase values.
pub proof fn lemma_filter_keeps_category_list(
    text: Seq<char>,
    entities: Seq<EntityView>,
    category: Category,
    keep: spec_fn(EntityView) -> bool,
)
    requires
        category_list(text, entities, category),
    ensures
        category_list(text, entities.filter(keep), category),
{
    lemma_filter_keeps_distinct(entities, keep);
    let kept = entities.filter(keep);
    assert forall|i: int| 0 <= i < kept.len() implies placed_in(text, #[trigger] kept[i])
        && kept[i].category == category && kept[i].confidence
        == category.spec_confidence() by {
        assert(kept.contains(kept[i]));
        entities.lemma_filter_contains_rev(keep, kept[i]);
        let k = choose|k: int| 0 <= k < entities.len() && entities[k] == kept[i];
        assert(placed_in(text, entities[k]));
    }
}

} // verus!
