//! The cascade for one element: of the declarations of the rules that apply to
//! it, the one that wins each property, in the order of the property names.

use vstd::prelude::*;

use crate::css::Declaration;
use crate::dom::{Document, NodeId};
use crate::style::{
    outranks, rank_above, rank_of, selector_matches, selector_matches_spec, specificity, specificity_spec,
    text_after, CascadeRank, CascadeWinner,
};
use crate::text::str_eq;

verus! {

/// A style rule as the cascade sees it: its selector, its declarations in
/// order, its place in the stylesheet, and whether its media condition holds
/// for the viewport (a rule without one always holds).
#[derive(Clone, Debug)]
pub struct CascadeRule {
    pub selector: String,
    pub declarations: Vec<Declaration>,
    pub source_order: usize,
    pub applies: bool,
}

/// A competing declaration: its property, rank and value.
pub type Competitor = (Seq<char>, CascadeRank, Seq<char>);

/// Whether a declaration of rank and value `a` beats one of `b`: a higher rank,
/// or an equal rank and a later value in character order.
pub open spec fn wins_over(a: (CascadeRank, Seq<char>), b: (CascadeRank, Seq<char>)) -> bool {
    rank_above(a.0, b.0) || (a.0 == b.0 && text_after(a.1, b.1))
}

/// The winners after `candidate` competes: it takes its property unless the
/// holder beats it or ties with it.
pub open spec fn offered(
    winners: Map<Seq<char>, (CascadeRank, Seq<char>)>,
    candidate: Competitor,
) -> Map<Seq<char>, (CascadeRank, Seq<char>)> {
    if winners.contains_key(candidate.0) && !wins_over((candidate.1, candidate.2), winners[candidate.0]) {
        winners
    } else {
        winners.insert(candidate.0, (candidate.1, candidate.2))
    }
}

/// The declarations of a rule as competitors, in order.
pub open spec fn rule_competitors(
    declarations: Seq<Declaration>,
    rank_specificity: crate::style::Specificity,
    source_order: usize,
) -> Seq<Competitor> {
    Seq::new(
        declarations.len(),
        |i: int|
            (
                declarations[i].name@,
                CascadeRank {
                    important: declarations[i].important,
                    specificity: rank_specificity,
                    source_order,
                    declaration_order: i as usize,
                },
                declarations[i].value@,
            ),
    )
}

/// The winners after each competitor in turn.
pub open spec fn offered_all(
    winners: Map<Seq<char>, (CascadeRank, Seq<char>)>,
    competitors: Seq<Competitor>,
) -> Map<Seq<char>, (CascadeRank, Seq<char>)>
    decreases competitors.len(),
{
    if competitors.len() == 0 {
        winners
    } else {
        offered(offered_all(winners, competitors.drop_last()), competitors.last())
    }
}

/// The winning declaration of each property for node `node` among the rules
/// that apply and whose selector matches it, rule by rule.
pub open spec fn cascade_spec(
    document: Seq<crate::dom::NodeView>,
    node: int,
    rules: Seq<CascadeRule>,
) -> Map<Seq<char>, (CascadeRank, Seq<char>)>
    decreases rules.len(),
{
    if rules.len() == 0 {
        Map::empty()
    } else {
        let previous = cascade_spec(document, node, rules.drop_last());
        let rule = rules.last();
        if rule.applies && selector_matches_spec(document, node, rule.selector@) {
            offered_all(
                previous,
                rule_competitors(rule.declarations@, specificity_spec(rule.selector@), rule.source_order),
            )
        } else {
            previous
        }
    }
}

/// An entry of the result as mathematical values.
pub open spec fn entry_view(entry: (String, CascadeWinner)) -> Competitor {
    (entry.0@, rank_of(entry.1), entry.1.value@)
}

/// The property names ascend strictly in character order.
pub open spec fn ascending(entries: Seq<Competitor>) -> bool {
    forall|i: int, j: int| 0 <= i < j < entries.len() ==> text_after(#[trigger] entries[j].0, #[trigger] entries[i].0)
}

/// An index of an entry named `name`.
pub open spec fn name_index(entries: Seq<Competitor>, name: Seq<char>) -> int {
    choose|i: int| 0 <= i < entries.len() && #[trigger] entries[i].0 == name
}

/// The map that a list of entries with distinct names stands for.
pub open spec fn entries_map(entries: Seq<Competitor>) -> Map<Seq<char>, (CascadeRank, Seq<char>)> {
    Map::new(
        |name: Seq<char>| exists|i: int| 0 <= i < entries.len() && #[trigger] entries[i].0 == name,
        |name: Seq<char>| (entries[name_index(entries, name)].1, entries[name_index(entries, name)].2),
    )
}

proof fn lemma_text_after_irreflexive(a: Seq<char>)
    ensures
        !text_after(a, a),
    decreases a.len(),
{
    if a.len() > 0 {
        lemma_text_after_irreflexive(a.drop_first());
    }
}

proof fn lemma_text_after_total(a: Seq<char>, b: Seq<char>)
    ensures
        a == b || text_after(a, b) || text_after(b, a),
    decreases a.len(),
{
    if a.len() > 0 && b.len() > 0 && a[0] == b[0] {
        lemma_text_after_total(a.drop_first(), b.drop_first());
        if a.drop_first() == b.drop_first() {
            assert(a =~= seq![a[0]] + a.drop_first());
            assert(b =~= seq![b[0]] + b.drop_first());
        }
    } else if a.len() == 0 && b.len() == 0 {
        assert(a =~= b);
    }
}

proof fn lemma_text_after_transitive(a: Seq<char>, b: Seq<char>, c: Seq<char>)
    requires
        text_after(a, b),
        text_after(b, c),
    ensures
        text_after(a, c),
    decreases a.len(),
{
    if a.len() > 0 && b.len() > 0 && c.len() > 0 && a[0] == b[0] && b[0] == c[0] {
        lemma_text_after_transitive(a.drop_first(), b.drop_first(), c.drop_first());
    }
}

proof fn lemma_ascending_distinct(entries: Seq<Competitor>, i: int, j: int)
    requires
        ascending(entries),
        0 <= i < entries.len(),
        0 <= j < entries.len(),
        i != j,
    ensures
        entries[i].0 != entries[j].0,
{
    lemma_text_after_irreflexive(entries[i].0);
    if i < j {
        assert(text_after(entries[j].0, entries[i].0));
    } else {
        assert(text_after(entries[i].0, entries[j].0));
    }
}

/// In ascending entries, the entry named like entry `k` is entry `k`.
proof fn lemma_entry_of_name(entries: Seq<Competitor>, k: int)
    requires
        ascending(entries),
        0 <= k < entries.len(),
    ensures
        entries_map(entries).contains_key(entries[k].0),
        entries_map(entries)[entries[k].0] == (entries[k].1, entries[k].2),
{
    let name = entries[k].0;
    assert(exists|i: int| 0 <= i < entries.len() && #[trigger] entries[i].0 == name) by {
        assert(entries[k].0 == name);
    }
    let i = name_index(entries, name);
    if i != k {
        lemma_ascending_distinct(entries, i, k);
    }
    assert(entries_map(entries).dom().contains(name));
    assert(entries_map(entries)[name] == (entries[i].1, entries[i].2));
}

/// Setting entry `k` to a competitor of the same name replaces its value.
proof fn lemma_replace_entry(entries: Seq<Competitor>, k: int, entry: Competitor)
    requires
        ascending(entries),
        0 <= k < entries.len(),
        entry.0 == entries[k].0,
    ensures
        ascending(entries.update(k, entry)),
        entries_map(entries.update(k, entry)) == entries_map(entries).insert(entry.0, (entry.1, entry.2)),
{
    let after = entries.update(k, entry);
    assert(ascending(after)) by {
        assert forall|i: int, j: int| 0 <= i < j < after.len() implies text_after(
            #[trigger] after[j].0,
            #[trigger] after[i].0,
        ) by {
            assert(text_after(entries[j].0, entries[i].0));
        }
    }
    let old_map = entries_map(entries);
    let new_map = entries_map(after);
    assert forall|name: Seq<char>| #[trigger] new_map.contains_key(name) <==> old_map.insert(
        entry.0,
        (entry.1, entry.2),
    ).contains_key(name) by {
        if new_map.contains_key(name) {
            let i = choose|i: int| 0 <= i < after.len() && #[trigger] after[i].0 == name;
            assert(entries[i].0 == name);
        }
        if old_map.contains_key(name) {
            let i = choose|i: int| 0 <= i < entries.len() && #[trigger] entries[i].0 == name;
            assert(after[i].0 == name);
        }
        if name == entry.0 {
            assert(after[k].0 == name);
        }
    }
    assert forall|name: Seq<char>| #[trigger] new_map.contains_key(name) implies new_map[name] == old_map.insert(
        entry.0,
        (entry.1, entry.2),
    )[name] by {
        let i = choose|i: int| 0 <= i < after.len() && #[trigger] after[i].0 == name;
        lemma_entry_of_name(after, i);
        if i != k {
            lemma_entry_of_name(entries, i);
            lemma_ascending_distinct(entries, i, k);
        }
    }
    assert(new_map =~= old_map.insert(entry.0, (entry.1, entry.2)));
}

/// Inserting a competitor at the place that keeps the names ascending adds it.
proof fn lemma_insert_entry(entries: Seq<Competitor>, p: int, entry: Competitor)
    requires
        ascending(entries),
        0 <= p <= entries.len(),
        forall|j: int| 0 <= j < p ==> text_after(entry.0, #[trigger] entries[j].0),
        forall|j: int| p <= j < entries.len() ==> text_after(#[trigger] entries[j].0, entry.0),
    ensures
        ascending(entries.insert(p, entry)),
        entries_map(entries.insert(p, entry)) == entries_map(entries).insert(entry.0, (entry.1, entry.2)),
{
    let after = entries.insert(p, entry);
    assert forall|i: int, j: int| 0 <= i < j < after.len() implies text_after(
        #[trigger] after[j].0,
        #[trigger] after[i].0,
    ) by {
        if j < p {
            assert(text_after(entries[j].0, entries[i].0));
        } else if j == p {
            assert(text_after(entry.0, entries[i].0));
        } else if i < p {
            assert(after[j] == entries[j - 1]);
            assert(text_after(entries[j - 1].0, entry.0));
            assert(text_after(entry.0, entries[i].0));
            lemma_text_after_transitive(entries[j - 1].0, entry.0, entries[i].0);
        } else if i == p {
            assert(text_after(entries[j - 1].0, entry.0));
        } else {
            assert(text_after(entries[j - 1].0, entries[i - 1].0));
        }
    }
    let old_map = entries_map(entries);
    let new_map = entries_map(after);
    assert forall|name: Seq<char>| #[trigger] new_map.contains_key(name) <==> old_map.insert(
        entry.0,
        (entry.1, entry.2),
    ).contains_key(name) by {
        if new_map.contains_key(name) {
            let i = choose|i: int| 0 <= i < after.len() && #[trigger] after[i].0 == name;
            if i < p {
                assert(entries[i].0 == name);
            } else if i > p {
                assert(entries[i - 1].0 == name);
            }
        }
        if old_map.contains_key(name) {
            let i = choose|i: int| 0 <= i < entries.len() && #[trigger] entries[i].0 == name;
            if i < p {
                assert(after[i].0 == name);
            } else {
                assert(after[i + 1].0 == name);
            }
        }
        if name == entry.0 {
            assert(after[p].0 == name);
        }
    }
    assert forall|name: Seq<char>| #[trigger] new_map.contains_key(name) implies new_map[name] == old_map.insert(
        entry.0,
        (entry.1, entry.2),
    )[name] by {
        let i = choose|i: int| 0 <= i < after.len() && #[trigger] after[i].0 == name;
        lemma_entry_of_name(after, i);
        if i < p {
            lemma_entry_of_name(entries, i);
            assert(entries[i].0 != entry.0) by {
                lemma_text_after_irreflexive(entry.0);
            }
        } else if i > p {
            lemma_entry_of_name(entries, i - 1);
            assert(entries[i - 1].0 != entry.0) by {
                lemma_text_after_irreflexive(entry.0);
            }
        }
    }
    assert(new_map =~= old_map.insert(entry.0, (entry.1, entry.2)));
}

/// Lets `candidate` compete for property `name` among the ascending winners.
fn offer(winners: &mut Vec<(String, CascadeWinner)>, name: &String, candidate: CascadeWinner)
    requires
        ascending(old(winners)@.map_values(|e: (String, CascadeWinner)| entry_view(e))),
    ensures
        ascending(final(winners)@.map_values(|e: (String, CascadeWinner)| entry_view(e))),
        entries_map(final(winners)@.map_values(|e: (String, CascadeWinner)| entry_view(e))) == offered(
            entries_map(old(winners)@.map_values(|e: (String, CascadeWinner)| entry_view(e))),
            (name@, rank_of(candidate), candidate.value@),
        ),
{
    let ghost before = winners@.map_values(|e: (String, CascadeWinner)| entry_view(e));
    let ghost entry = (name@, rank_of(candidate), candidate.value@);
    let mut i: usize = 0;
    while i < winners.len()
        invariant
            i <= winners@.len(),
            before == winners@.map_values(|e: (String, CascadeWinner)| entry_view(e)),
            before == old(winners)@.map_values(|e: (String, CascadeWinner)| entry_view(e)),
            ascending(before),
            entry == (name@, rank_of(candidate), candidate.value@),
            forall|j: int| 0 <= j < i ==> text_after(name@, #[trigger] before[j].0),
        ensures
            i <= winners@.len(),
            before == winners@.map_values(|e: (String, CascadeWinner)| entry_view(e)),
            forall|j: int| 0 <= j < i ==> text_after(name@, #[trigger] before[j].0),
            i < winners@.len() ==> text_after(before[i as int].0, name@),
        decreases winners@.len() - i,
    {
        assert(before[i as int] == entry_view(winners@[i as int]));
        if str_eq(winners[i].0.as_str(), name.as_str()) {
            proof {
                lemma_entry_of_name(before, i as int);
            }
            if outranks(&candidate, &winners[i].1) {
                let replacement = (name.clone(), candidate);
                proof {
                    assert(entry_view(replacement) == entry);
                    lemma_replace_entry(before, i as int, entry);
                }
                winners.set(i, replacement);
                proof {
                    assert(winners@.map_values(|e: (String, CascadeWinner)| entry_view(e)) =~= before.update(
                        i as int,
                        entry,
                    ));
                }
            } else {
                proof {
                    let held = entries_map(before)[name@];
                    assert(!wins_over((entry.1, entry.2), held));
                }
            }
            return;
        }
        if crate::style::value_after(winners[i].0.as_str(), name.as_str()) {
            break;
        }
        proof {
            lemma_text_after_total(before[i as int].0, name@);
        }
        i = i + 1;
    }
    proof {
        assert forall|j: int| i <= j < before.len() implies text_after(#[trigger] before[j].0, name@) by {
            assert(text_after(before[i as int].0, name@));
            if j > i {
                assert(text_after(before[j].0, before[i as int].0));
                lemma_text_after_transitive(before[j].0, before[i as int].0, name@);
            }
        }
        assert(!entries_map(before).contains_key(name@)) by {
            if entries_map(before).contains_key(name@) {
                let k = choose|k: int| 0 <= k < before.len() && #[trigger] before[k].0 == name@;
                lemma_text_after_irreflexive(name@);
                if k < i {
                    assert(text_after(name@, before[k].0));
                } else {
                    assert(text_after(before[k].0, name@));
                }
            }
        }
        lemma_insert_entry(before, i as int, entry);
    }
    let added = (name.clone(), candidate);
    proof {
        assert(entry_view(added) == entry);
    }
    winners.insert(i, added);
    proof {
        assert(winners@.map_values(|e: (String, CascadeWinner)| entry_view(e)) =~= before.insert(i as int, entry));
    }
}

/// The winning declaration of each property for node `node_id`, in ascending
/// order of the property names: of the rules that apply and whose selector
/// matches the node, each declaration competes in turn, and a declaration
/// takes its property unless the holder beats it or ties with it.
pub fn cascade(document: &Document, node_id: NodeId, rules: &Vec<CascadeRule>) -> (r: Vec<(String, CascadeWinner)>)
    requires
        document.wf(),
    ensures
        ascending(r@.map_values(|e: (String, CascadeWinner)| entry_view(e))),
        entries_map(r@.map_values(|e: (String, CascadeWinner)| entry_view(e))) == cascade_spec(
            document@,
            node_id.0 as int,
            rules@,
        ),
{
    let mut winners: Vec<(String, CascadeWinner)> = Vec::new();
    proof {
        assert(entries_map(winners@.map_values(|e: (String, CascadeWinner)| entry_view(e))) =~= Map::<
            Seq<char>,
            (CascadeRank, Seq<char>),
        >::empty());
    }
    let mut r: usize = 0;
    while r < rules.len()
        invariant
            r <= rules@.len(),
            document.wf(),
            ascending(winners@.map_values(|e: (String, CascadeWinner)| entry_view(e))),
            entries_map(winners@.map_values(|e: (String, CascadeWinner)| entry_view(e))) == cascade_spec(
                document@,
                node_id.0 as int,
                rules@.subrange(0, r as int),
            ),
        decreases rules@.len() - r,
    {
        let rule = &rules[r];
        let ghost previous = cascade_spec(document@, node_id.0 as int, rules@.subrange(0, r as int));
        proof {
            assert(rules@.subrange(0, r + 1).drop_last() =~= rules@.subrange(0, r as int));
            assert(rules@.subrange(0, r + 1).last() == *rule);
        }
        if rule.applies && selector_matches(document, node_id, rule.selector.as_str()) {
            let rank_specificity = specificity(rule.selector.as_str());
            let ghost competitors = rule_competitors(rule.declarations@, rank_specificity, rule.source_order);
            let mut d: usize = 0;
            while d < rule.declarations.len()
                invariant
                    d <= rule.declarations@.len(),
                    competitors == rule_competitors(rule.declarations@, rank_specificity, rule.source_order),
                    ascending(winners@.map_values(|e: (String, CascadeWinner)| entry_view(e))),
                    entries_map(winners@.map_values(|e: (String, CascadeWinner)| entry_view(e))) == offered_all(
                        previous,
                        competitors.subrange(0, d as int),
                    ),
                decreases rule.declarations@.len() - d,
            {
                let declaration = &rule.declarations[d];
                let candidate = CascadeWinner {
                    important: declaration.important,
                    specificity: rank_specificity,
                    source_order: rule.source_order,
                    declaration_order: d,
                    value: declaration.value.clone(),
                };
                proof {
                    assert(competitors.subrange(0, d + 1).drop_last() =~= competitors.subrange(0, d as int));
                    assert(competitors.subrange(0, d + 1).last() == (
                        declaration.name@,
                        rank_of(candidate),
                        candidate.value@,
                    ));
                }
                offer(&mut winners, &declaration.name, candidate);
                d = d + 1;
            }
            proof {
                assert(competitors.subrange(0, competitors.len() as int) =~= competitors);
            }
        }
        r = r + 1;
    }
    proof {
        assert(rules@.subrange(0, rules@.len() as int) =~= rules@);
    }
    winners
}

proof fn lemma_rank_above_transitive(a: CascadeRank, b: CascadeRank, c: CascadeRank)
    requires
        rank_above(a, b),
        rank_above(b, c),
    ensures
        rank_above(a, c),
{
}

proof fn lemma_wins_over_transitive(a: (CascadeRank, Seq<char>), b: (CascadeRank, Seq<char>), c: (CascadeRank, Seq<char>))
    requires
        wins_over(a, b),
        wins_over(b, c),
    ensures
        wins_over(a, c),
{
    if rank_above(a.0, b.0) && rank_above(b.0, c.0) {
        lemma_rank_above_transitive(a.0, b.0, c.0);
    } else if !rank_above(a.0, b.0) && !rank_above(b.0, c.0) {
        lemma_text_after_transitive(a.1, b.1, c.1);
    }
}

proof fn lemma_wins_over_irreflexive(a: (CascadeRank, Seq<char>))
    ensures
        !wins_over(a, a),
{
    lemma_text_after_irreflexive(a.1);
}

/// `candidate` holds or has lost its property: the holder is not beaten by it.
pub open spec fn unbeaten_by(winners: Map<Seq<char>, (CascadeRank, Seq<char>)>, candidate: Competitor) -> bool {
    winners.contains_key(candidate.0) && !wins_over((candidate.1, candidate.2), winners[candidate.0])
}

proof fn lemma_offer_keeps_unbeaten(
    winners: Map<Seq<char>, (CascadeRank, Seq<char>)>,
    candidate: Competitor,
    next: Competitor,
)
    requires
        unbeaten_by(winners, candidate),
    ensures
        unbeaten_by(offered(winners, next), candidate),
{
    if next.0 == candidate.0 && wins_over((next.1, next.2), winners[candidate.0]) {
        if wins_over((candidate.1, candidate.2), (next.1, next.2)) {
            lemma_wins_over_transitive((candidate.1, candidate.2), (next.1, next.2), winners[candidate.0]);
        }
    }
}

proof fn lemma_offer_all_keeps_unbeaten(
    winners: Map<Seq<char>, (CascadeRank, Seq<char>)>,
    candidate: Competitor,
    competitors: Seq<Competitor>,
)
    requires
        unbeaten_by(winners, candidate),
    ensures
        unbeaten_by(offered_all(winners, competitors), candidate),
    decreases competitors.len(),
{
    if competitors.len() > 0 {
        lemma_offer_all_keeps_unbeaten(winners, candidate, competitors.drop_last());
        lemma_offer_keeps_unbeaten(offered_all(winners, competitors.drop_last()), candidate, competitors.last());
    }
}

proof fn lemma_offer_all_leaves_each_unbeaten(
    winners: Map<Seq<char>, (CascadeRank, Seq<char>)>,
    competitors: Seq<Competitor>,
    d: int,
)
    requires
        0 <= d < competitors.len(),
    ensures
        unbeaten_by(offered_all(winners, competitors), competitors[d]),
    decreases competitors.len(),
{
    let previous = offered_all(winners, competitors.drop_last());
    if d == competitors.len() - 1 {
        lemma_wins_over_irreflexive((competitors[d].1, competitors[d].2));
    } else {
        lemma_offer_all_leaves_each_unbeaten(winners, competitors.drop_last(), d);
        lemma_offer_keeps_unbeaten(previous, competitors[d], competitors.last());
    }
}

/// No declaration of a rule that applies to the node and matches it beats the
/// declaration that wins its property: the cascade picks, for each property,
/// a declaration that none of its competitors outranks.
pub proof fn law_cascade_winner_is_unbeaten(
    document: Seq<crate::dom::NodeView>,
    node: int,
    rules: Seq<CascadeRule>,
    r: int,
    d: int,
)
    requires
        0 <= r < rules.len(),
        rules[r].applies,
        selector_matches_spec(document, node, rules[r].selector@),
        0 <= d < rules[r].declarations@.len(),
    ensures
        unbeaten_by(
            cascade_spec(document, node, rules),
            rule_competitors(rules[r].declarations@, specificity_spec(rules[r].selector@), rules[r].source_order)[d],
        ),
    decreases rules.len(),
{
    let candidate = rule_competitors(rules[r].declarations@, specificity_spec(rules[r].selector@), rules[r].source_order)[d];
    let previous = cascade_spec(document, node, rules.drop_last());
    let last = rules.last();
    if r == rules.len() - 1 {
        lemma_offer_all_leaves_each_unbeaten(
            previous,
            rule_competitors(last.declarations@, specificity_spec(last.selector@), last.source_order),
            d,
        );
    } else {
        assert(rules.drop_last()[r] == rules[r]);
        law_cascade_winner_is_unbeaten(document, node, rules.drop_last(), r, d);
        if last.applies && selector_matches_spec(document, node, last.selector@) {
            lemma_offer_all_keeps_unbeaten(
                previous,
                candidate,
                rule_competitors(last.declarations@, specificity_spec(last.selector@), last.source_order),
            );
        }
    }
}

} // verus!
