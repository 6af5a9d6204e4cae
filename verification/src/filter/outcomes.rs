//! What comes of every operation on filters, told of the single filter, set and
//! line.

use crate::colour::{Color, Style};
use crate::filter::matcher;
use crate::filter::matcher::Matcher;
use crate::filter::model;
use crate::filter::model::{ActiveModel, PredicateModel};
use crate::filter::{Background, Combine, Sense, Verdict};
use crate::pattern;
use crate::syntax::{Kind, KindSet};
use vstd::prelude::*;

verus! {

// ---------------------------------------------------------------------------
// Verdicts

/// Whether there is a filter at `i` that has a say in a sense: it is of that
/// sense, it is on, and its set is on.
pub open spec fn has_say(filters: ActiveModel, sense: Sense, i: int) -> bool {
    &&& 0 <= i < filters.filters.len()
    &&& filters.filters[i].sense == sense
    &&& filters.filters[i].enabled
    &&& filters.sets[filters.filters[i].set].enabled
}

/// Whether a filter that has a say in a sense hits the line.
pub open spec fn speaks_up(filters: ActiveModel, sense: Sense, hits: Seq<bool>, i: int) -> bool {
    has_say(filters, sense, i) && hits[i]
}

/// A line is included just where an including filter that has a say hits it, or
/// all of those do where they are combined so, and by the first of them. Else
/// it is context just where a context filter that has a say hits it, by the
/// first that does, and else it is unmatched.
pub proof fn who_includes_a_line(filters: ActiveModel, hits: Seq<bool>)
    requires
        filters.filters.len() <= usize::MAX,
    ensures
        filters.include_verdict(hits) !is Excluded,
        filters.include_verdict(hits) matches Verdict::Included(by) ==> {
            &&& speaks_up(filters, Sense::Include, hits, by as int)
            &&& forall|j: int| 0 <= j < by ==> !(#[trigger] speaks_up(filters, Sense::Include, hits, j))
            &&& filters.combine == Combine::And ==> forall|j: int| #[trigger]
                has_say(filters, Sense::Include, j) ==> hits[j] && by <= j
        },
        filters.include_verdict(hits) !is Included ==> {
            &&& filters.combine == Combine::Or ==> forall|j: int|
                !(#[trigger] speaks_up(filters, Sense::Include, hits, j))
            &&& filters.combine == Combine::And ==> (forall|j: int|
                !(#[trigger] has_say(filters, Sense::Include, j))) || exists|j: int| #[trigger]
                has_say(filters, Sense::Include, j) && !hits[j]
        },
        filters.include_verdict(hits) matches Verdict::Context(by) ==> {
            &&& speaks_up(filters, Sense::Context, hits, by as int)
            &&& forall|j: int| 0 <= j < by ==> !(#[trigger] speaks_up(filters, Sense::Context, hits, j))
        },
        filters.include_verdict(hits) is Unmatched ==> forall|j: int|
            !(#[trigger] speaks_up(filters, Sense::Context, hits, j)),
{
    let len = filters.filters.len() as int;
    assert forall|sense: Sense, j: int| 0 <= j < len implies #[trigger] filters.live(sense, j)
        == has_say(filters, sense, j) by {}
    filters.first_hit_finds(Sense::Include, hits);
    filters.first_hit_finds(Sense::Context, hits);
    filters.first_live_finds(Sense::Include);
    let included = |i: int| filters.live(Sense::Include, i) && hits[i];
    let context = |i: int| filters.live(Sense::Context, i) && hits[i];
    let first = |i: int| filters.live(Sense::Include, i);
    model::first_index_finds(included, 0, len);
    model::first_index_finds(context, 0, len);
    model::first_index_finds(first, 0, len);
    let verdict = filters.include_verdict(hits);
    if let Verdict::Included(by) = verdict {
        assert forall|j: int| 0 <= j < by implies !(#[trigger] speaks_up(
            filters,
            Sense::Include,
            hits,
            j,
        )) by {
            match filters.combine {
                Combine::Or => assert(!included(j)),
                Combine::And => assert(!first(j)),
            }
        }
        if filters.combine == Combine::And {
            assert forall|j: int| #[trigger] has_say(filters, Sense::Include, j) implies hits[j]
                && by <= j by {
                assert(filters.live(Sense::Include, j));
                if j < by {
                    assert(!first(j));
                }
            }
        }
    } else {
        if filters.combine == Combine::Or {
            assert forall|j: int| !(#[trigger] speaks_up(filters, Sense::Include, hits, j)) by {
                if speaks_up(filters, Sense::Include, hits, j) {
                    assert(filters.live(Sense::Include, j) && hits[j]);
                }
            }
        } else if exists|j: int| #[trigger] has_say(filters, Sense::Include, j) {
            let j = choose|j: int| #[trigger] has_say(filters, Sense::Include, j);
            assert(filters.live(Sense::Include, j));
            assert(filters.any_live(Sense::Include));
            let k = choose|k: int|
                0 <= k < len && #[trigger] filters.live(Sense::Include, k) && !hits[k];
            assert(has_say(filters, Sense::Include, k));
        }
    }
    if let Verdict::Context(by) = verdict {
        assert forall|j: int| 0 <= j < by implies !(#[trigger] speaks_up(
            filters,
            Sense::Context,
            hits,
            j,
        )) by {
            assert(!context(j));
        }
    }
    if verdict is Unmatched {
        assert forall|j: int| !(#[trigger] speaks_up(filters, Sense::Context, hits, j)) by {
            if speaks_up(filters, Sense::Context, hits, j) {
                assert(filters.live(Sense::Context, j) && hits[j]);
            }
        }
    }
}

/// A line is removed just where an excluding filter that has a say hits it;
/// every other line gets what its including and context filters give it.
pub proof fn who_removes_a_line(filters: ActiveModel, hits: Seq<bool>)
    ensures
        filters.decided(hits) is Excluded <==> exists|i: int| #[trigger]
            speaks_up(filters, Sense::Exclude, hits, i),
        filters.decided(hits) !is Excluded ==> filters.decided(hits) == filters.include_verdict(
            hits,
        ),
{
    let len = filters.filters.len() as int;
    if filters.any_hit(Sense::Exclude, hits) {
        let i = choose|i: int| 0 <= i < len && #[trigger] filters.live(Sense::Exclude, i) && hits[i];
        assert(speaks_up(filters, Sense::Exclude, hits, i));
    }
    if exists|i: int| #[trigger] speaks_up(filters, Sense::Exclude, hits, i) {
        let i = choose|i: int| #[trigger] speaks_up(filters, Sense::Exclude, hits, i);
        assert(filters.live(Sense::Exclude, i) && hits[i]);
    }
}

/// A line is judged by which patterns match it and which definitions it starts,
/// filter by filter, and by nothing else.
pub proof fn what_a_line_is_judged_by(
    filters: ActiveModel,
    line: Seq<char>,
    kinds: KindSet,
    hits: Seq<bool>,
)
    requires
        hits.len() == filters.filters.len(),
        forall|i: int|
            0 <= i < hits.len() ==> #[trigger] hits[i] == match filters.filters[i].predicate {
                PredicateModel::Regex(pattern) => pattern::pattern_matches(pattern, line),
                PredicateModel::Definition(kind) => kinds.has(kind),
            },
    ensures
        filters.verdict(line, kinds) == filters.decided(hits),
{
    assert(filters.hits(line, kinds) =~= hits);
}

/// Where filters without a say are changed, or taken for others, no verdict
/// changes: only filters that are on, in sets that are on, decide.
pub proof fn only_those_with_a_say_decide(one: ActiveModel, other: ActiveModel, hits: Seq<bool>)
    requires
        one.filters.len() == other.filters.len() <= usize::MAX,
        one.combine == other.combine,
        forall|sense: Sense, i: int| #[trigger]
            has_say(one, sense, i) == has_say(other, sense, i),
    ensures
        one.decided(hits) == other.decided(hits),
{
    assert forall|sense: Sense, i: int| #[trigger]
        speaks_up(one, sense, hits, i) == speaks_up(other, sense, hits, i) by {
        assert(has_say(one, sense, i) == has_say(other, sense, i));
    }
    who_removes_a_line(one, hits);
    who_removes_a_line(other, hits);
    who_includes_a_line(one, hits);
    who_includes_a_line(other, hits);
    if one.decided(hits) is Excluded {
        let i = choose|i: int| #[trigger] speaks_up(one, Sense::Exclude, hits, i);
        assert(speaks_up(other, Sense::Exclude, hits, i));
    }
    if other.decided(hits) is Excluded {
        let i = choose|i: int| #[trigger] speaks_up(other, Sense::Exclude, hits, i);
        assert(speaks_up(one, Sense::Exclude, hits, i));
    }
    let a = one.include_verdict(hits);
    let b = other.include_verdict(hits);
    if let Verdict::Included(i) = a {
        assert(speaks_up(other, Sense::Include, hits, i as int));
        assert(has_say(other, Sense::Include, i as int));
        assert(b is Included) by {
            if b !is Included && one.combine == Combine::And {
                let j = choose|j: int| #[trigger] has_say(other, Sense::Include, j) && !hits[j];
                assert(has_say(one, Sense::Include, j));
            }
        }
    }
    if let Verdict::Included(i) = b {
        assert(speaks_up(one, Sense::Include, hits, i as int));
        assert(has_say(one, Sense::Include, i as int));
        assert(a is Included) by {
            if a !is Included && one.combine == Combine::And {
                let j = choose|j: int| #[trigger] has_say(one, Sense::Include, j) && !hits[j];
                assert(has_say(other, Sense::Include, j));
            }
        }
    }
    if let Verdict::Included(i) = a {
        assert(speaks_up(one, Sense::Include, hits, i as int));
        assert(speaks_up(other, Sense::Include, hits, i as int));
    }
    if let Verdict::Included(j) = b {
        assert(speaks_up(one, Sense::Include, hits, j as int));
    }
    if let Verdict::Context(i) = a {
        assert(speaks_up(one, Sense::Context, hits, i as int));
        assert(speaks_up(other, Sense::Context, hits, i as int));
    }
    if let Verdict::Context(j) = b {
        assert(speaks_up(one, Sense::Context, hits, j as int));
    }
    assert(a == b);
}

/// A line that a filter marks has that filter's own style. An unmatched line is
/// dimmed just where some filter marks lines, and a removed one has no style.
pub proof fn how_a_line_is_drawn(filters: ActiveModel, i: usize)
    requires
        i < filters.filters.len(),
    ensures
        filters.style_for(Verdict::Included(i)) == Some(filters.filters[i as int].style),
        filters.style_for(Verdict::Context(i)) == Some(filters.filters[i as int].style),
        filters.style_for(Verdict::Excluded) is None,
        filters.style_for(Verdict::Unmatched) is Some <==> filters.any_including(),
        filters.any_including() <==> (exists|j: int| #[trigger] has_say(filters, Sense::Include, j))
            || (exists|j: int| #[trigger] has_say(filters, Sense::Context, j)),
        filters.style_for(Verdict::Unmatched) matches Some(style) ==> style == dimmed(
            filters.background,
        ),
        filters.any_live(Sense::Exclude) <==> exists|j: int| #[trigger]
            has_say(filters, Sense::Exclude, j),
{
    assert forall|sense: Sense| #[trigger] filters.any_live(sense) implies exists|j: int| #[trigger]
        has_say(filters, sense, j) by {
        let j = choose|j: int| 0 <= j < filters.filters.len() && #[trigger] filters.live(sense, j);
        assert(has_say(filters, sense, j));
    }
    assert forall|sense: Sense, j: int| #[trigger] has_say(filters, sense, j) implies filters.any_live(
        sense,
    ) by {
        assert(filters.live(sense, j));
    }
}

/// Faint and grey: a middle grey on a dark page and a light one on a light page.
pub open spec fn dimmed(background: Background) -> Style {
    Style {
        fg: Some(
            Color::Indexed(
                match background {
                    Background::Dark => 240,
                    Background::Light => 250,
                },
            ),
        ),
        dim: true,
    }
}

/// The colours of a palette are all different, are none that a terminal's theme
/// decides, and are not the grey of dimmed text.
pub proof fn palette_colours_can_be_told_apart(background: Background, i: int, j: int)
    requires
        0 <= i < j < background.colours().len(),
    ensures
        background.colours()[i] != background.colours()[j],
        background.colours()[i] matches Color::Indexed(index) && index >= 16,
        background.colours()[j] matches Color::Indexed(index) && index >= 16,
        background.dim().fg != Some(background.colours()[i]),
        background.dim().fg != Some(background.colours()[j]),
        background.dim() == dimmed(background),
        background.colours().len() == 13,
{
    let dark = crate::filter::DEFAULT_PALETTE;
    let light = crate::filter::LIGHT_PALETTE;
    assert(dark@.len() == 13 && light@.len() == 13);
    assert(dark@[0] == 220 && dark@[1] == 51 && dark@[2] == 46 && dark@[3] == 201 && dark@[4] == 105
        && dark@[5] == 196 && dark@[6] == 120 && dark@[7] == 203 && dark@[8] == 42 && dark@[9] == 33
        && dark@[10] == 161 && dark@[11] == 170 && dark@[12] == 202);
    assert(light@[0] == 33 && light@[1] == 124 && light@[2] == 28 && light@[3] == 55 && light@[4]
        == 167 && light@[5] == 24 && light@[6] == 136 && light@[7] == 65 && light@[8] == 18
        && light@[9] == 69 && light@[10] == 35 && light@[11] == 126 && light@[12] == 64);
}

// ---------------------------------------------------------------------------
// Scans

/// A filter takes part in a scan just where it has a say and tests a pattern.
/// There is a scan just where an including filter takes part in it and the
/// patterns fit a scan.
pub proof fn who_takes_part_in_a_scan(filters: ActiveModel, sense: Sense, i: int)
    ensures
        filters.scans(sense, i) <==> has_say(filters, sense, i)
            && filters.filters[i].predicate is Regex,
        filters.scanning() ==> filters.filters.len() <= 64,
        filters.scans(Sense::Include, i) && filters.filters.len() <= 64 && pattern::set_compiles(
            filters.sources(),
        ) ==> filters.scanning(),
        filters.scanning() ==> exists|j: int| #[trigger]
            has_say(filters, Sense::Include, j) && filters.filters[j].predicate is Regex,
{
    if filters.scanning() {
        let j = choose|j: int| #[trigger] filters.scans(Sense::Include, j);
        assert(has_say(filters, Sense::Include, j));
    }
}

/// A line selects its file just where no excluding pattern hit it, and a
/// selecting one did, or all of them where they are combined so.
pub proof fn what_selects_a_file(matcher: Matcher, bits: u64)
    ensures
        matcher.selected(bits) <==> {
            &&& forall|i: int|
                !((#[trigger] matcher::bit(bits, i)) && matcher::bit(matcher.excluding(), i))
            &&& exists|i: int| #[trigger]
                matcher::bit(bits, i) && matcher::bit(matcher.selecting(), i)
            &&& matcher.mode() == Combine::And ==> forall|i: int| #[trigger]
                matcher::bit(matcher.selecting(), i) ==> matcher::bit(bits, i)
        },
{
    matcher::lowest_bit(matcher.selecting());
    if matcher.selecting() != 0 {
        let i = choose|i: int| #[trigger] matcher::bit(matcher.selecting(), i);
        if matcher::covers(bits, matcher.selecting()) {
            assert(matcher::bit(bits, i));
        }
    }
}

/// The compiled patterns are the filters' own, in their order; a definition has
/// a stand-in among them. Filters that test different things have different
/// names in a cache, unless a pattern begins with the character that marks a
/// definition's.
pub proof fn patterns_keep_their_places(filters: ActiveModel, i: int, j: int)
    requires
        0 <= i < filters.filters.len(),
        0 <= j < filters.filters.len(),
    ensures
        filters.sources().len() == filters.filters.len(),
        filters.keys().len() == filters.filters.len(),
        filters.filters[i].predicate matches PredicateModel::Regex(pattern) ==> filters.sources()[i]
            == pattern && filters.keys()[i] == pattern,
        filters.filters[i].predicate is Definition ==> filters.sources()[i] == "[^\\s\\S]"@,
        filters.filters[i].predicate is Definition ==> filters.keys()[i].len() > 0
            && filters.keys()[i][0] == '\u{1}',
        filters.filters[i].predicate is Definition && filters.filters[j].predicate is Definition
            && filters.filters[i].predicate != filters.filters[j].predicate ==> filters.keys()[i]
            != filters.keys()[j],
{
    if let PredicateModel::Definition(one) = filters.filters[i].predicate {
        if let PredicateModel::Definition(other) = filters.filters[j].predicate {
            if one != other {
                nouns_differ(one, other);
                let (a, b) = (filters.keys()[i], filters.keys()[j]);
                assert(a.skip(1) =~= one.noun());
                assert(b.skip(1) =~= other.noun());
            }
        }
    }
}

/// Kinds are told apart by their nouns.
pub proof fn nouns_differ(one: Kind, other: Kind)
    requires
        one != other,
    ensures
        one.noun() != other.noun(),
        one.noun().len() > 0,
{
    reveal_strlit("functions");
    reveal_strlit("classes");
    reveal_strlit("structs");
    reveal_strlit("enums");
    reveal_strlit("types");
    reveal_strlit("sections");
    assert("functions"@[0] == 'f');
    assert("classes"@[0] == 'c');
    assert("structs"@[1] == 't');
    assert("enums"@[0] == 'e');
    assert("types"@[0] == 't');
    assert("sections"@[1] == 'e');
    assert("structs"@[0] == 's');
    assert("sections"@[0] == 's');
}

} // verus!
