//! The dashboard page, streamed in pieces around the cards of the modules.

use crate::text::{
    chars_of, contains, find, find_from, law_find_is_first, occurs_at, replace, replace_all,
    split_once,
};
use vstd::prelude::*;
use vstd::string::StrSliceExecFns;

verus! {

/// Where the cards go in the template.
pub open spec fn placeholder() -> Seq<char> {
    "{{MODULES}}"@
}

/// The page: what comes before the cards, the cards, and what comes after them.
#[derive(Debug)]
pub struct PageParts<'a> {
    pub prefix: &'a str,
    pub suffix: &'a str,
    pub cards: Vec<String>,
}

/// The texts in order, one after the other.
pub open spec fn concatenated(texts: Seq<Seq<char>>) -> Seq<char>
    decreases texts.len(),
{
    if texts.len() == 0 {
        Seq::empty()
    } else {
        concatenated(texts.drop_last()) + texts.last()
    }
}

/// The contents of cards.
pub open spec fn card_texts(cards: Seq<String>) -> Seq<Seq<char>> {
    cards.map_values(|c: String| c@)
}

impl<'a> PageParts<'a> {
    /// The pieces in the order in which they are sent.
    pub open spec fn chunks(self) -> Seq<Seq<char>> {
        seq![self.prefix@] + card_texts(self.cards@) + seq![self.suffix@]
    }

    /// Splits the template around the place for the cards; a template without one is refused.
    pub fn new(template: &'a str, cards: Vec<String>) -> (r: Option<PageParts<'a>>)
        ensures
            r is Some <==> contains(template@, placeholder()),
            r matches Some(p) ==> {
                &&& split_once(template@, placeholder()) == Some((p.prefix@, p.suffix@))
                &&& p.cards@ == cards@
            },
    {
        let chars = chars_of(template);
        let wanted = chars_of("{{MODULES}}");
        proof {
            law_find_is_first(template@, placeholder(), 0);
        }
        match find(&chars, &wanted, 0) {
            Some(i) => {
                assert(occurs_at(template@, placeholder(), i as int));
                let len: usize = chars.len();
                let after: usize = i + wanted.len();
                let prefix = template.substring_char(0, i);
                let suffix = template.substring_char(after, len);
                assert(prefix@ =~= template@.take(i as int));
                assert(suffix@ =~= template@.skip(i + placeholder().len()));
                Some(PageParts { prefix, suffix, cards })
            },
            None => {
                assert forall|i: int| !occurs_at(template@, placeholder(), i) by {}
                None
            },
        }
    }

    /// The number of pieces.
    pub fn chunk_count(&self) -> (r: usize)
        requires
            self.cards@.len() + 2 <= usize::MAX,
        ensures
            r == self.chunks().len(),
    {
        self.cards.len() + 2
    }

    /// The piece with the given number.
    pub fn chunk(&self, i: usize) -> (r: &str)
        requires
            i < self.chunks().len(),
        ensures
            r@ == self.chunks()[i as int],
    {
        let count: usize = self.cards.len();
        if i == 0 {
            self.prefix
        } else if i - 1 < count {
            self.cards[i - 1].as_str()
        } else {
            self.suffix
        }
    }
}

proof fn lemma_concatenated_joins(a: Seq<Seq<char>>, b: Seq<Seq<char>>)
    ensures
        concatenated(a + b) == concatenated(a) + concatenated(b),
    decreases b.len(),
{
    if b.len() == 0 {
        assert(a + b =~= a);
        assert(concatenated(a) + concatenated(b) =~= concatenated(a));
    } else {
        assert((a + b).drop_last() =~= a + b.drop_last());
        lemma_concatenated_joins(a, b.drop_last());
        assert(concatenated(a) + (concatenated(b.drop_last()) + b.last()) =~= (concatenated(a)
            + concatenated(b.drop_last())) + b.last());
    }
}

proof fn lemma_concatenated_single(s: Seq<char>)
    ensures
        concatenated(seq![s]) == s,
{
    reveal_with_fuel(concatenated, 2);
    assert(seq![s].drop_last() =~= Seq::<Seq<char>>::empty());
    assert(Seq::<char>::empty() + s =~= s);
}

/// Streaming loses nothing: the pieces together are the template with the cards in place of the
/// first placeholder, and, where the template has only one, what replacing the placeholder by
/// all cards gives.
pub proof fn law_streamed_page_is_the_filled_template(template: Seq<char>, page: PageParts)
    requires
        split_once(template, placeholder()) == Some((page.prefix@, page.suffix@)),
    ensures
        concatenated(page.chunks()) == page.prefix@ + concatenated(card_texts(page.cards@))
            + page.suffix@,
        template == page.prefix@ + placeholder() + page.suffix@,
        !contains(page.suffix@, placeholder()) ==> concatenated(page.chunks()) == replace(
            template,
            placeholder(),
            concatenated(card_texts(page.cards@)),
        ),
{
    let cards = card_texts(page.cards@);
    lemma_concatenated_joins(seq![page.prefix@] + cards, seq![page.suffix@]);
    lemma_concatenated_joins(seq![page.prefix@], cards);
    lemma_concatenated_single(page.prefix@);
    lemma_concatenated_single(page.suffix@);
    law_find_is_first(template, placeholder(), 0);
    let i = find_from(template, placeholder(), 0)->0;
    assert(occurs_at(template, placeholder(), i));
    assert(template =~= page.prefix@ + placeholder() + page.suffix@);
    reveal_strlit("{{MODULES}}");
    if !contains(page.suffix@, placeholder()) {
        crate::text::law_replace_keeps_other_text(page.suffix@, placeholder(), concatenated(cards));
        assert(replace(template, placeholder(), concatenated(cards)) =~= page.prefix@
            + concatenated(cards) + page.suffix@);
    }
}

/// The display's card with the cards of its submodules in their places.
pub open spec fn filled_card(
    card: Seq<char>,
    basic_card: Seq<char>,
    renderer_card: Seq<char>,
) -> Seq<char> {
    replace(
        replace(card, "{{BASIC_CARD}}"@, basic_card),
        "{{RENDERER_CARD}}"@,
        renderer_card,
    )
}

/// Puts the cards of the display's submodules into the display's own card.
pub fn fill_display_card(card: &str, basic_card: &str, renderer_card: &str) -> (r: String)
    ensures
        r@ == filled_card(card@, basic_card@, renderer_card@),
        r@ == replace(
            replace(card@, "{{BASIC_CARD}}"@, basic_card@),
            "{{RENDERER_CARD}}"@,
            renderer_card@,
        ),
{
    proof {
        reveal_strlit("{{BASIC_CARD}}");
        reveal_strlit("{{RENDERER_CARD}}");
    }
    let with_basic = replace_all(card, "{{BASIC_CARD}}", basic_card);
    replace_all(with_basic.as_str(), "{{RENDERER_CARD}}", renderer_card)
}

/// Answers `GET /health`.
pub fn health_json() -> (r: &'static str)
    ensures
        r@ == "{\"status\":\"ok\"}"@,
{
    "{\"status\":\"ok\"}"
}

/// The pieces of a page are what stands before the cards, each card in its order, and what stands
/// behind them, and there are no others.
pub proof fn law_pieces_are_in_order(page: PageParts, i: int)
    requires
        0 <= i < page.cards@.len(),
    ensures
        page.chunks().len() == page.cards@.len() + 2,
        page.chunks()[0] == page.prefix@,
        page.chunks()[1 + i] == page.cards@[i]@,
        page.chunks().last() == page.suffix@,
{
}

/// The cards of the submodules come into their places, and the rest of the display's card stays as
/// it is.
pub proof fn law_display_card_holds_both_cards(
    before: Seq<char>,
    between: Seq<char>,
    after: Seq<char>,
    basic_card: Seq<char>,
    renderer_card: Seq<char>,
)
    requires
        !contains(between + "{{RENDERER_CARD}}"@ + after, "{{BASIC_CARD}}"@),
        forall|i: int|
            0 <= i < before.len() ==> !#[trigger] occurs_at(
                before + "{{BASIC_CARD}}"@ + (between + "{{RENDERER_CARD}}"@ + after),
                "{{BASIC_CARD}}"@,
                i,
            ),
        forall|i: int|
            0 <= i < (before + basic_card + between).len() ==> !#[trigger] occurs_at(
                before + basic_card + between + "{{RENDERER_CARD}}"@ + after,
                "{{RENDERER_CARD}}"@,
                i,
            ),
        !contains(after, "{{RENDERER_CARD}}"@),
    ensures
        filled_card(
            before + "{{BASIC_CARD}}"@ + (between + "{{RENDERER_CARD}}"@ + after),
            basic_card,
            renderer_card,
        ) == before + basic_card + between + renderer_card + after,
{
    reveal_strlit("{{BASIC_CARD}}");
    reveal_strlit("{{RENDERER_CARD}}");
    let rest = between + "{{RENDERER_CARD}}"@ + after;
    crate::text::law_replace_goes_from_left_to_right(
        before,
        "{{BASIC_CARD}}"@,
        rest,
        basic_card,
    );
    crate::text::law_replace_keeps_other_text(rest, "{{BASIC_CARD}}"@, basic_card);
    let head = before + basic_card + between;
    assert(before + basic_card + rest =~= head + "{{RENDERER_CARD}}"@ + after);
    crate::text::law_replace_goes_from_left_to_right(
        head,
        "{{RENDERER_CARD}}"@,
        after,
        renderer_card,
    );
    crate::text::law_replace_keeps_other_text(after, "{{RENDERER_CARD}}"@, renderer_card);
}

} // verus!
