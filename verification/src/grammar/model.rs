//! Sits between the grammar and the bindings generator, by building a model
//! the latter can more simply consume.

use vstd::prelude::*;
use crate::grammar::ungrammar::{
    collect_rule_names, collect_token_names, grammar_tokens, mentioned_nodes_defined, node_names_distinct, rule_nodes,
    rule_tokens, rules_nodes, rules_tokens, GrammarError, GrammarRule, NodeData, Ungrammar,
};
use crate::text::same_text;
use vstd::hash_map::StringHashMap;
use vstd::hash_set::StringHashSet;

verus! {

/// How often an element occurs on the right-hand side of a rule.
#[derive(Debug, Clone, Copy, PartialEq, Eq, Structural)]
pub enum Cardinality {
    One,
    Optional,
    Many,
}

/// The rank of a cardinality in the order `One < Optional < Many`.
pub open spec fn rank(c: Cardinality) -> nat {
    match c {
        Cardinality::One => 0,
        Cardinality::Optional => 1,
        Cardinality::Many => 2,
    }
}

/// Two occurrences of an element in one sequence: both optional stays
/// optional, anything else occurs many times.
pub open spec fn spec_for_sequence(a: Cardinality, b: Cardinality) -> Cardinality {
    if a == Cardinality::Optional && b == Cardinality::Optional {
        Cardinality::Optional
    } else {
        Cardinality::Many
    }
}

/// An element in two branches of an alternative: the larger of the two in
/// the order `One < Optional < Many`.
pub open spec fn spec_for_alternative(a: Cardinality, b: Cardinality) -> Cardinality {
    if rank(a) >= rank(b) { a } else { b }
}

/// An element under `?`: at least optional.
pub open spec fn spec_optional(c: Cardinality) -> Cardinality {
    if c == Cardinality::Many { Cardinality::Many } else { Cardinality::Optional }
}

impl Cardinality {
    pub fn for_sequence(self, other: Self) -> (res: Self)
        ensures res == spec_for_sequence(self, other),
    {
        match (self, other) {
            (Cardinality::Optional, Cardinality::Optional) => Cardinality::Optional,
            _ => Cardinality::Many,
        }
    }

    pub fn for_alternative(self, other: Self) -> (res: Self)
        ensures res == spec_for_alternative(self, other),
    {
        match (self, other) {
            (Cardinality::Many, _) => Cardinality::Many,
            (_, Cardinality::Many) => Cardinality::Many,
            (Cardinality::One, Cardinality::One) => Cardinality::One,
            _ => Cardinality::Optional,
        }
    }

    pub fn optional(self) -> (res: Self)
        ensures res == spec_optional(self),
    {
        match self {
            Cardinality::Many => Cardinality::Many,
            _ => Cardinality::Optional,
        }
    }
}

/// Combining the cardinalities of two alternatives does not depend on their
/// order, nor on how three of them are grouped, and an element combined with
/// itself keeps its cardinality.
pub proof fn lemma_for_alternative_laws(a: Cardinality, b: Cardinality, c: Cardinality)
    ensures
        spec_for_alternative(a, b) == spec_for_alternative(b, a),
        spec_for_alternative(spec_for_alternative(a, b), c)
            == spec_for_alternative(a, spec_for_alternative(b, c)),
        spec_for_alternative(a, a) == a,
{
}

/// Combining two occurrences within a sequence does not depend on their order
/// nor on grouping; two occurrences are never `One`.
pub proof fn lemma_for_sequence_laws(a: Cardinality, b: Cardinality, c: Cardinality)
    ensures
        spec_for_sequence(a, b) == spec_for_sequence(b, a),
        spec_for_sequence(spec_for_sequence(a, b), c)
            == spec_for_sequence(a, spec_for_sequence(b, c)),
        spec_for_sequence(a, b) != Cardinality::One,
{
}

/// Making an element optional is the same as combining it with an optional
/// alternative, and doing it twice is the same as doing it once.
pub proof fn lemma_optional_laws(c: Cardinality)
    ensures
        spec_optional(c) == spec_for_alternative(c, Cardinality::Optional),
        spec_optional(spec_optional(c)) == spec_optional(c),
        spec_optional(c) != Cardinality::One,
{
}

/// A node or token on the right-hand side of a rule, with how often it occurs.
///
/// For instance, in:
///
/// ```text
/// ParenthesizedArgList =
///   '::'? '(' (TypeArg (',' TypeArg)* ','?)? ')'
/// ```
///
/// the elements are `::` (Optional), `(` (One), `TypeArg` (Many), `,` (Many)
/// and `)` (One).
pub struct Element {
    pub node_or_token_name: String,
    pub cardinality: Cardinality,
}

/// An element as a name and a cardinality.
pub type ElementView = (Seq<char>, Cardinality);

impl View for Element {
    type V = ElementView;

    open spec fn view(&self) -> ElementView {
        (self.node_or_token_name@, self.cardinality)
    }
}

/// The views of a list of elements.
pub open spec fn views(es: Seq<Element>) -> Seq<ElementView> {
    es.map_values(|e: Element| e@)
}

/// The position of the first element named `name`, if any.
pub open spec fn position_of(es: Seq<ElementView>, name: Seq<char>) -> Option<int>
    decreases es.len(),
{
    if es.len() == 0 {
        None
    } else {
        match position_of(es.drop_last(), name) {
            Some(i) => Some(i),
            None => if es.last().0 == name { Some(es.len() - 1) } else { None },
        }
    }
}

/// The cardinality of the first element named `name`, if any.
pub open spec fn cardinality_of(es: Seq<ElementView>, name: Seq<char>) -> Option<Cardinality> {
    match position_of(es, name) {
        Some(i) => Some(es[i].1),
        None => None,
    }
}

/// Adds one more occurrence to a list of merged elements: an element already
/// there combines its cardinality with the new one as in a sequence, a new
/// name goes to the end.
pub open spec fn add_occurrence(merged: Seq<ElementView>, e: ElementView) -> Seq<ElementView> {
    match position_of(merged, e.0) {
        Some(i) => merged.update(i, (e.0, spec_for_sequence(merged[i].1, e.1))),
        None => merged.push(e),
    }
}

/// The elements with the same name merged into one, in the order in which
/// each name first occurs, their cardinalities combined as in a sequence.
pub open spec fn merged(es: Seq<ElementView>) -> Seq<ElementView>
    decreases es.len(),
{
    if es.len() == 0 {
        Seq::empty()
    } else {
        add_occurrence(merged(es.drop_last()), es.last())
    }
}

/// No two elements share a name.
pub open spec fn names_distinct(es: Seq<ElementView>) -> bool {
    forall|i: int, j: int|
        0 <= i < es.len() && 0 <= j < es.len() && i != j ==> #[trigger] es[i].0 != #[trigger] es[j].0
}

/// The names of the elements.
pub open spec fn names(es: Seq<ElementView>) -> Set<Seq<char>> {
    Set::new(|n: Seq<char>| exists|i: int| 0 <= i < es.len() && #[trigger] es[i].0 == n)
}

/// Two merged branches of an alternative combined: the left branch's elements
/// in order, each combined with the same-named element of the right branch or
/// made optional when the right branch lacks it, then the elements only the
/// right branch has, made optional.
pub open spec fn merged_alternatives(left: Seq<ElementView>, right: Seq<ElementView>) -> Seq<ElementView> {
    left.map_values(left_merged(right)) + right.filter(only_right(left)).map_values(
        |e: ElementView| (e.0, spec_optional(e.1)),
    )
}

proof fn lemma_position_of(es: Seq<ElementView>, name: Seq<char>)
    ensures
        match position_of(es, name) {
            Some(i) => 0 <= i < es.len() && es[i].0 == name
                && forall|k: int| 0 <= k < i ==> #[trigger] es[k].0 != name,
            None => forall|k: int| 0 <= k < es.len() ==> #[trigger] es[k].0 != name,
        },
    decreases es.len(),
{
    if es.len() > 0 {
        lemma_position_of(es.drop_last(), name);
        assert forall|k: int| 0 <= k < es.len() - 1 implies #[trigger] es[k] == es.drop_last()[k] by {}
    }
}

proof fn lemma_views(es: Seq<Element>)
    ensures
        views(es).len() == es.len(),
        forall|k: int| 0 <= k < es.len() ==> #[trigger] views(es)[k] == es[k]@,
{
}

/// The position of the first element named `name`, if any.
fn position_in(elems: &Vec<Element>, name: &String) -> (res: Option<usize>)
    ensures
        match res {
            Some(i) => position_of(views(elems@), name@) == Some(i as int),
            None => position_of(views(elems@), name@) is None,
        },
{
    let mut i: usize = 0;
    while i < elems.len()
        invariant
            i <= elems@.len(),
            forall|k: int| 0 <= k < i ==> #[trigger] elems@[k].node_or_token_name@ != name@,
        decreases elems@.len() - i,
    {
        if elems[i].node_or_token_name == *name {
            proof {
                let es = views(elems@);
                lemma_position_of(es, name@);
                lemma_views(elems@);
                assert(es[i as int].0 == name@);
                match position_of(es, name@) {
                    Some(q) => {
                        if q < i {
                            assert(elems@[q].node_or_token_name@ != name@);
                        }
                        assert(q == i);
                    },
                    None => {
                        assert(es[i as int].0 != name@);
                    },
                }
            }
            return Some(i);
        }
        i = i + 1;
    }
    proof {
        let es = views(elems@);
        lemma_position_of(es, name@);
        lemma_views(elems@);
        if position_of(es, name@) is Some {
            let p = position_of(es, name@)->0;
            assert(es[p].0 == elems@[p].node_or_token_name@);
        }
    }
    None
}

/// Returns the cardinality of the given element (by name) if it exists.
pub fn find_cardinality_of(elems: &Vec<Element>, name: &String) -> (res: Option<Cardinality>)
    ensures
        res == cardinality_of(views(elems@), name@),
{
    proof {
        lemma_position_of(views(elems@), name@);
        lemma_views(elems@);
    }
    match position_in(elems, name) {
        Some(i) => Some(elems[i].cardinality),
        None => None,
    }
}

/// Traverses the elements merging those with the same name, combining their
/// cardinalities as in a sequence.
pub fn merge_elements(elements: Vec<Element>) -> (res: Vec<Element>)
    ensures
        views(res@) == merged(views(elements@)),
{
    let mut acc: Vec<Element> = Vec::new();
    let mut i: usize = 0;
    proof {
        lemma_views(elements@);
    }
    while i < elements.len()
        invariant
            i <= elements@.len(),
            views(acc@) == merged(views(elements@).take(i as int)),
            forall|k: int| 0 <= k < elements@.len() ==> #[trigger] views(elements@)[k] == elements@[k]@,
            views(elements@).len() == elements@.len(),
        decreases elements@.len() - i,
    {
        let name = elements[i].node_or_token_name.clone();
        let card = elements[i].cardinality;
        let ghost before = views(acc@);
        proof {
            lemma_views(acc@);
            assert(views(elements@).take(i + 1).drop_last() == views(elements@).take(i as int));
            assert(views(elements@).take(i + 1).last() == (name@, card));
        }
        match position_in(&acc, &name) {
            Some(j) => {
                proof {
                    lemma_position_of(before, name@);
                }
                let c = acc[j].cardinality.for_sequence(card);
                acc.set(j, Element { node_or_token_name: name, cardinality: c });
                proof {
                    lemma_views(acc@);
                    assert(views(acc@) =~= before.update(j as int, (name@, c)));
                }
            },
            None => {
                acc.push(Element { node_or_token_name: name, cardinality: card });
                proof {
                    lemma_views(acc@);
                    assert(views(acc@) =~= before.push((name@, card)));
                }
            },
        }
        i = i + 1;
    }
    proof {
        assert(views(elements@).take(elements@.len() as int) == views(elements@));
    }
    acc
}

/// The cardinality an element of the left branch gets when merged with the
/// right branch.
pub open spec fn left_merged(right: Seq<ElementView>) -> spec_fn(ElementView) -> ElementView {
    |e: ElementView| (e.0, match cardinality_of(right, e.0) {
        Some(c) => spec_for_alternative(e.1, c),
        None => spec_optional(e.1),
    })
}

/// Whether an element of the right branch is missing from the left one.
pub open spec fn only_right(left: Seq<ElementView>) -> spec_fn(ElementView) -> bool {
    |e: ElementView| position_of(left, e.0) is None
}

/// Merges two branches of an alternative, i.e. removes duplicate elements.
/// If an element appears on both sides, their cardinalities are combined.
/// If an element appears on only one side, it is marked optional.
pub fn merge_alternatives(left: Vec<Element>, right: Vec<Element>) -> (res: Vec<Element>)
    ensures
        views(res@) == merged_alternatives(views(left@), views(right@)),
{
    let ghost l = views(left@);
    let ghost r = views(right@);
    let mut result: Vec<Element> = Vec::new();
    proof {
        lemma_views(left@);
        lemma_views(right@);
    }
    let mut i: usize = 0;
    while i < left.len()
        invariant
            i <= left@.len(),
            l == views(left@),
            r == views(right@),
            l.len() == left@.len(),
            forall|k: int| 0 <= k < left@.len() ==> #[trigger] l[k] == left@[k]@,
            views(result@) == l.take(i as int).map_values(left_merged(r)),
        decreases left@.len() - i,
    {
        let name = left[i].node_or_token_name.clone();
        let cardinality = match find_cardinality_of(&right, &name) {
            Some(right_card) => left[i].cardinality.for_alternative(right_card),
            None => left[i].cardinality.optional(),
        };
        let ghost before = views(result@);
        result.push(Element { node_or_token_name: name, cardinality });
        proof {
            lemma_views(result@);
            assert(views(result@) =~= before.push((name@, cardinality)));
            assert(l.take(i + 1).map_values(left_merged(r)) =~= l.take(i as int).map_values(left_merged(r)).push(left_merged(r)(l[i as int])));
        }
        i = i + 1;
    }
    proof {
        assert(l.take(l.len() as int) == l);
    }
    let ghost first = views(result@);
    let mut j: usize = 0;
    while j < right.len()
        invariant
            j <= right@.len(),
            l == views(left@),
            r == views(right@),
            r.len() == right@.len(),
            forall|k: int| 0 <= k < right@.len() ==> #[trigger] r[k] == right@[k]@,
            first == l.map_values(left_merged(r)),
            views(result@) == first + r.take(j as int).filter(only_right(l)).map_values(
                |e: ElementView| (e.0, spec_optional(e.1)),
            ),
        decreases right@.len() - j,
    {
        let ghost before = views(result@);
        let ghost prefix = r.take(j as int);
        let ghost next = r.take(j + 1);
        proof {
            assert(next.drop_last() == prefix);
            reveal_with_fuel(Seq::filter, 1);
        }
        if find_cardinality_of(&left, &right[j].node_or_token_name).is_none() {
            let name = right[j].node_or_token_name.clone();
            let cardinality = right[j].cardinality.optional();
            proof {
                lemma_position_of(l, name@);
                assert(only_right(l)(r[j as int]));
                assert(next.filter(only_right(l)) == prefix.filter(only_right(l)).push(r[j as int]));
            }
            result.push(Element { node_or_token_name: name, cardinality });
            proof {
                lemma_views(result@);
                assert(views(result@) =~= before.push((name@, cardinality)));
            }
        } else {
            proof {
                lemma_position_of(l, r[j as int].0);
                assert(!only_right(l)(r[j as int]));
                assert(next.filter(only_right(l)) == prefix.filter(only_right(l)));
            }
        }
        proof {
            assert(views(result@) =~= first + next.filter(only_right(l)).map_values(
                |e: ElementView| (e.0, spec_optional(e.1)),
            ));
        }
        j = j + 1;
    }
    proof {
        assert(r.take(r.len() as int) == r);
        assert(merged_alternatives(l, r) =~= views(result@));
    }
    result
}

/// The elements a rule uses, with duplicates, where `cardinality` is that of
/// the enclosing rule. The branches of an alternative are merged first, then
/// combined with each other.
pub open spec fn rule_elements(rule: GrammarRule, cardinality: Cardinality) -> Seq<ElementView>
    decreases rule,
{
    match rule {
        GrammarRule::Node(n) => seq![(n@, cardinality)],
        GrammarRule::Token(t) => seq![(t@, cardinality)],
        GrammarRule::Sequence(rs) => sequence_elements(rs@, cardinality),
        GrammarRule::Alt(rs) => alternative_elements(rs@, cardinality),
        GrammarRule::Opt(r) => rule_elements(*r, spec_optional(cardinality)),
        GrammarRule::Rep(r) => rule_elements(*r, Cardinality::Many),
        GrammarRule::Labeled { rule, .. } => rule_elements(*rule, cardinality),
    }
}

/// The elements of the rules of a sequence, one rule after the other.
pub open spec fn sequence_elements(rules: Seq<GrammarRule>, cardinality: Cardinality) -> Seq<ElementView>
    decreases rules,
{
    if rules.len() == 0 {
        Seq::empty()
    } else {
        sequence_elements(rules.drop_last(), cardinality) + rule_elements(rules.last(), cardinality)
    }
}

/// The merged elements of the branches of an alternative, combined from the
/// first branch on; no elements where there is no branch.
pub open spec fn alternative_elements(rules: Seq<GrammarRule>, cardinality: Cardinality) -> Seq<ElementView>
    decreases rules,
{
    if rules.len() == 0 {
        Seq::empty()
    } else if rules.len() == 1 {
        merged(rule_elements(rules[0], cardinality))
    } else {
        merged_alternatives(
            alternative_elements(rules.drop_last(), cardinality),
            merged(rule_elements(rules.last(), cardinality)),
        )
    }
}

/// Recursively collects the elements used by a rule. May contain duplicates;
/// `cardinality` is the enclosing one, since a rule may contain other rules.
pub fn elements(rule: &GrammarRule, cardinality: Cardinality) -> (res: Vec<Element>)
    ensures
        views(res@) == rule_elements(*rule, cardinality),
    decreases rule,
{
    match rule {
        GrammarRule::Node(n) => {
            let v = vec![Element { node_or_token_name: n.clone(), cardinality }];
            proof {
                lemma_views(v@);
                assert(views(v@) =~= seq![(n@, cardinality)]);
            }
            v
        },
        GrammarRule::Token(t) => {
            let v = vec![Element { node_or_token_name: t.clone(), cardinality }];
            proof {
                lemma_views(v@);
                assert(views(v@) =~= seq![(t@, cardinality)]);
            }
            v
        },
        GrammarRule::Sequence(rules) => sequence_of(rules, cardinality),
        GrammarRule::Alt(rules) => alternatives_of(rules, cardinality),
        GrammarRule::Opt(rule) => elements(rule, cardinality.optional()),
        GrammarRule::Rep(rule) => elements(rule, Cardinality::Many),
        GrammarRule::Labeled { rule, .. } => elements(rule, cardinality),
    }
}

/// The elements of a sequence of rules, one rule after the other.
fn sequence_of(rules: &Vec<GrammarRule>, cardinality: Cardinality) -> (res: Vec<Element>)
    ensures
        views(res@) == sequence_elements(rules@, cardinality),
    decreases rules,
{
    let mut out: Vec<Element> = Vec::new();
    let mut i: usize = 0;
    while i < rules.len()
        invariant
            i <= rules@.len(),
            views(out@) == sequence_elements(rules@.take(i as int), cardinality),
        decreases rules@.len() - i,
    {
        proof {
            assert(decreases_to!(rules => rules@));
        }
        let mut more = elements(&rules[i], cardinality);
        let ghost before = out@;
        let ghost added = more@;
        out.append(&mut more);
        proof {
            assert(rules@.take(i + 1).drop_last() == rules@.take(i as int));
            assert(out@ == before + added);
            assert(views(out@) =~= views(before) + views(added));
        }
        i = i + 1;
    }
    proof {
        assert(rules@.take(rules@.len() as int) == rules@);
    }
    out
}

/// The merged elements of the branches of an alternative, combined from the
/// first branch on.
fn alternatives_of(rules: &Vec<GrammarRule>, cardinality: Cardinality) -> (res: Vec<Element>)
    ensures
        views(res@) == alternative_elements(rules@, cardinality),
    decreases rules,
{
    if rules.len() == 0 {
        let empty: Vec<Element> = Vec::new();
        proof {
            assert(views(empty@) =~= Seq::<ElementView>::empty());
        }
        return empty;
    }
    proof {
        assert(decreases_to!(rules => rules@));
    }
    let mut acc = merge_elements(elements(&rules[0], cardinality));
    proof {
        assert(rules@.take(1).len() == 1);
        assert(rules@.take(1)[0] == rules@[0]);
    }
    let mut i: usize = 1;
    while i < rules.len()
        invariant
            1 <= i <= rules@.len(),
            views(acc@) == alternative_elements(rules@.take(i as int), cardinality),
        decreases rules@.len() - i,
    {
        proof {
            assert(decreases_to!(rules => rules@));
        }
        let branch = merge_elements(elements(&rules[i], cardinality));
        acc = merge_alternatives(acc, branch);
        proof {
            assert(rules@.take(i + 1).drop_last() == rules@.take(i as int));
            assert(rules@.take(i + 1).last() == rules@[i as int]);
        }
        i = i + 1;
    }
    proof {
        assert(rules@.take(rules@.len() as int) == rules@);
    }
    acc
}

/// The model of a grammar.
pub struct Model {
    /// All node names in grammar order.
    pub node_names: Vec<String>,
    /// Maps a node to its elements.
    pub node_elements: StringHashMap<Vec<Element>>,
    /// All the tokens found in the grammar.
    pub tokens: StringHashSet,
}

/// The merged elements of each node, by name; where two nodes share a name,
/// the later one's.
pub open spec fn elements_map(nodes: Seq<NodeData>) -> Map<Seq<char>, Seq<ElementView>>
    decreases nodes.len(),
{
    if nodes.len() == 0 {
        Map::empty()
    } else {
        elements_map(nodes.drop_last()).insert(
            nodes.last().name@,
            merged(rule_elements(nodes.last().rule, Cardinality::One)),
        )
    }
}

/// The names of the nodes, in order.
pub open spec fn node_name_list(nodes: Seq<NodeData>) -> Seq<Seq<char>> {
    nodes.map_values(|n: NodeData| n.name@)
}

impl Model {
    /// The node names, as texts.
    pub open spec fn name_views(self) -> Seq<Seq<char>> {
        self.node_names@.map_values(|s: String| s@)
    }

    /// The elements of each node, as views.
    pub open spec fn element_views(self) -> Map<Seq<char>, Seq<ElementView>> {
        self.node_elements@.map_values(|v: Vec<Element>| views(v@))
    }

    /// Whether `name` is a node of the model.
    pub open spec fn is_node(self, name: Seq<char>) -> bool {
        self.name_views().contains(name)
    }

    /// The nodes (not tokens) among the elements of `name`.
    pub open spec fn children(self, name: Seq<char>) -> Set<Seq<char>> {
        if self.element_views().contains_key(name) {
            Set::new(|c: Seq<char>| self.is_node(c) && exists|i: int|
                0 <= i < self.element_views()[name].len() && #[trigger] self.element_views()[name][i].0 == c)
        } else {
            Set::empty()
        }
    }

    /// Builds the model of a grammar: its node names in order, its tokens, and
    /// for each node the merged elements of its rule.
    pub fn from_ungrammar(grammar: &Ungrammar) -> (res: Result<Model, GrammarError>)
        ensures
            res matches Ok(m) && m.name_views() == node_name_list(grammar@)
                && m.tokens@ == grammar_tokens(grammar@).to_set()
                && m.element_views() == elements_map(grammar@),
    {
        let node_names = collect_rule_names(grammar);
        let token_list = collect_token_names(grammar);
        let ghost token_views = token_list@.map_values(|s: String| s@);
        let mut tokens = StringHashSet::new();
        let mut i: usize = 0;
        while i < token_list.len()
            invariant
                i <= token_list@.len(),
                token_views == token_list@.map_values(|s: String| s@),
                tokens@ == token_views.take(i as int).to_set(),
            decreases token_list@.len() - i,
        {
            tokens.insert(token_list[i].clone());
            proof {
                assert(token_views.take(i + 1) == token_views.take(i as int).push(token_views[i as int]));
                token_views.take(i as int).lemma_push_to_set_commute(token_views[i as int]);
            }
            i = i + 1;
        }
        proof {
            assert(token_views.take(token_views.len() as int) == token_views);
        }
        let mut node_elements: StringHashMap<Vec<Element>> = StringHashMap::new();
        let mut j: usize = 0;
        while j < grammar.nodes.len()
            invariant
                j <= grammar@.len(),
                node_elements@.map_values(|v: Vec<Element>| views(v@)) == elements_map(grammar@.take(j as int)),
            decreases grammar@.len() - j,
        {
            let node = &grammar.nodes[j];
            let merged_elements = merge_elements(elements(&node.rule, Cardinality::One));
            let ghost before = node_elements@;
            node_elements.insert(node.name.clone(), merged_elements);
            proof {
                assert(grammar@.take(j + 1).drop_last() == grammar@.take(j as int));
                assert(grammar@.take(j + 1).last() == grammar@[j as int]);
                assert(node_elements@.map_values(|v: Vec<Element>| views(v@)) =~= before.map_values(
                    |v: Vec<Element>| views(v@),
                ).insert(node.name@, views(merged_elements@)));
            }
            j = j + 1;
        }
        proof {
            assert(grammar@.take(grammar@.len() as int) == grammar@);
        }
        let model = Model { node_names, node_elements, tokens };
        proof {
            assert(model.name_views() =~= node_name_list(grammar@));
        }
        Ok(model)
    }

    /// Whether `name` is one of the model's nodes.
    pub fn contains_node(&self, name: &str) -> (res: bool)
        ensures
            res == self.is_node(name@),
    {
        let mut i: usize = 0;
        while i < self.node_names.len()
            invariant
                i <= self.node_names@.len(),
                forall|k: int| 0 <= k < i ==> #[trigger] self.node_names@[k]@ != name@,
            decreases self.node_names@.len() - i,
        {
            if same_text(self.node_names[i].as_str(), name) {
                proof {
                    assert(self.name_views()[i as int] == name@);
                }
                return true;
            }
            i = i + 1;
        }
        proof {
            if self.is_node(name@) {
                let k = choose|k: int| 0 <= k < self.name_views().len() && self.name_views()[k] == name@;
                assert(self.node_names@[k]@ == name@);
            }
        }
        false
    }

    /// Only immediate child nodes (not tokens).
    pub fn immediate_child_nodes_of(&self, name: &str) -> (res: StringHashSet)
        ensures
            res@ == self.children(name@),
    {
        let mut res = StringHashSet::new();
        match self.node_elements.get(name) {
            None => {
                proof {
                    assert(res@ =~= self.children(name@));
                }
            },
            Some(elems) => {
                let ghost ev = views(elems@);
                proof {
                    lemma_views(elems@);
                    assert(self.element_views()[name@] == ev);
                }
                let mut i: usize = 0;
                while i < elems.len()
                    invariant
                        i <= elems@.len(),
                        ev == views(elems@),
                        ev.len() == elems@.len(),
                        forall|k: int| 0 <= k < elems@.len() ==> #[trigger] ev[k] == elems@[k]@,
                        res@ == Set::new(|c: Seq<char>| self.is_node(c) && exists|k: int|
                            0 <= k < i && #[trigger] ev[k].0 == c),
                    decreases elems@.len() - i,
                {
                    let ghost before = res@;
                    if self.contains_node(elems[i].node_or_token_name.as_str()) {
                        res.insert(elems[i].node_or_token_name.clone());
                    }
                    proof {
                        assert(res@ =~= Set::new(|c: Seq<char>| self.is_node(c) && exists|k: int|
                            0 <= k < i + 1 && #[trigger] ev[k].0 == c)) by {
                            assert forall|c: Seq<char>| #[trigger] res@.contains(c) implies self.is_node(c) && exists|k: int|
                                0 <= k < i + 1 && #[trigger] ev[k].0 == c by {
                                if !before.contains(c) {
                                    assert(ev[i as int].0 == c);
                                }
                            }
                            assert forall|c: Seq<char>| self.is_node(c) && (exists|k: int|
                                0 <= k < i + 1 && #[trigger] ev[k].0 == c) implies #[trigger] res@.contains(c) by {
                                let k = choose|k: int| 0 <= k < i + 1 && #[trigger] ev[k].0 == c;
                                if k < i {
                                    assert(before.contains(c));
                                }
                            }
                        }
                    }
                    i = i + 1;
                }
                proof {
                    assert(res@ =~= self.children(name@));
                }
            },
        }
        res
    }
}

/// The predicate answers every name, and the same way for the same text.
pub open spec fn decides<F: Fn(&str) -> bool>(f: F) -> bool {
    &&& forall|s: &str| #[trigger] call_requires(f, (s,))
    &&& forall|s1: &str, s2: &str, b1: bool, b2: bool|
        s1@ == s2@ && #[trigger] call_ensures(f, (s1,), b1) && #[trigger] call_ensures(f, (s2,), b2)
            ==> b1 == b2
}

/// The predicate says yes to `name`.
pub open spec fn says_yes<F: Fn(&str) -> bool>(f: F, name: Seq<char>) -> bool {
    exists|s: &str| s@ == name && #[trigger] call_ensures(f, (s,), true)
}

impl Model {
    /// `to` is reached from `from` in `steps` steps, each from a node that the
    /// predicate says to recurse into down to one of its child nodes.
    pub open spec fn reaches<F: Fn(&str) -> bool>(self, f: F, from: Seq<char>, to: Seq<char>, steps: nat) -> bool
        decreases steps,
    {
        if steps == 0 {
            from == to
        } else {
            &&& self.is_node(from)
            &&& says_yes(f, from)
            &&& exists|c: Seq<char>| #[trigger] self.children(from).contains(c)
                && self.reaches(f, c, to, (steps - 1) as nat)
        }
    }

    /// The nodes where the descent from `from` stops: nodes reached from it
    /// that the predicate does not say to recurse into.
    pub open spec fn descendants<F: Fn(&str) -> bool>(self, f: F, from: Seq<char>) -> Set<Seq<char>> {
        Set::new(|d: Seq<char>| self.is_node(d) && !says_yes(f, d)
            && exists|k: nat| #[trigger] self.reaches(f, from, d, k))
    }

    /// `rank` falls along every step of the descent from `root`: the descent
    /// ends.
    pub open spec fn descent_ranked<F: Fn(&str) -> bool>(self, f: F, root: Seq<char>, rank: spec_fn(Seq<char>) -> nat) -> bool {
        forall|a: Seq<char>, b: Seq<char>, k: nat|
            #[trigger] self.reaches(f, root, a, k) && self.is_node(a) && says_yes(f, a)
                && #[trigger] self.children(a).contains(b) ==> rank(b) < rank(a)
    }

    /// The descent from `root` ends.
    pub open spec fn descent_ends<F: Fn(&str) -> bool>(self, f: F, root: Seq<char>) -> bool {
        exists|rank: spec_fn(Seq<char>) -> nat| self.descent_ranked(f, root, rank)
    }

    proof fn lemma_reaches_extend<F: Fn(&str) -> bool>(self, f: F, from: Seq<char>, a: Seq<char>, b: Seq<char>, k: nat)
        requires
            self.reaches(f, from, a, k),
            self.is_node(a),
            says_yes(f, a),
            self.children(a).contains(b),
        ensures
            self.reaches(f, from, b, k + 1),
        decreases k,
    {
        if k == 0 {
            assert(self.reaches(f, b, b, 0));
        } else {
            let c = choose|c: Seq<char>| #[trigger] self.children(from).contains(c)
                && self.reaches(f, c, a, (k - 1) as nat);
            self.lemma_reaches_extend(f, c, a, b, (k - 1) as nat);
        }
    }

    /// The descendants of a node the predicate recurses into are those of its
    /// child nodes.
    proof fn lemma_descendants_step<F: Fn(&str) -> bool>(self, f: F, name: Seq<char>)
        requires
            self.is_node(name),
            says_yes(f, name),
        ensures
            self.descendants(f, name) == Set::new(|d: Seq<char>| exists|c: Seq<char>|
                #[trigger] self.children(name).contains(c) && self.descendants(f, c).contains(d)),
    {
        let rhs = Set::new(|d: Seq<char>| exists|c: Seq<char>|
            #[trigger] self.children(name).contains(c) && self.descendants(f, c).contains(d));
        assert forall|d: Seq<char>| #[trigger] self.descendants(f, name).contains(d) implies rhs.contains(d) by {
            let k = choose|k: nat| #[trigger] self.reaches(f, name, d, k);
            if k == 0 {
                assert(d == name);
            } else {
                let c = choose|c: Seq<char>| #[trigger] self.children(name).contains(c)
                    && self.reaches(f, c, d, (k - 1) as nat);
                assert(self.descendants(f, c).contains(d));
            }
        }
        assert forall|d: Seq<char>| rhs.contains(d) implies #[trigger] self.descendants(f, name).contains(d) by {
            let c = choose|c: Seq<char>| #[trigger] self.children(name).contains(c) && self.descendants(f, c).contains(d);
            let k = choose|k: nat| #[trigger] self.reaches(f, c, d, k);
            assert(self.reaches(f, name, d, k + 1));
        }
        assert(self.descendants(f, name) =~= rhs);
    }

    /// Recursively collects child nodes (not tokens) starting from `name`.
    /// Nodes that `should_recurse_into` rejects are collected rather than
    /// recursed into.
    pub fn collect_descendant_nodes<F: Fn(&str) -> bool>(&self, name: &str, should_recurse_into: &F) -> (res: StringHashSet)
        requires
            decides(*should_recurse_into),
            self.descent_ends(*should_recurse_into, name@),
        ensures
            res@ == self.descendants(*should_recurse_into, name@),
    {
        let ghost rank = choose|rank: spec_fn(Seq<char>) -> nat| self.descent_ranked(*should_recurse_into, name@, rank);
        let mut acc = StringHashSet::new();
        self.collect_into(name, should_recurse_into, &mut acc, Ghost(name@), Ghost(rank), Ghost(0));
        proof {
            assert(acc@ =~= self.descendants(*should_recurse_into, name@));
        }
        acc
    }

    fn collect_into<F: Fn(&str) -> bool>(
        &self,
        name: &str,
        should_recurse_into: &F,
        acc: &mut StringHashSet,
        Ghost(root): Ghost<Seq<char>>,
        Ghost(rank): Ghost<spec_fn(Seq<char>) -> nat>,
        Ghost(k): Ghost<nat>,
    )
        requires
            decides(*should_recurse_into),
            self.descent_ranked(*should_recurse_into, root, rank),
            self.reaches(*should_recurse_into, root, name@, k),
        ensures
            final(acc)@ == old(acc)@.union(self.descendants(*should_recurse_into, name@)),
        decreases rank(name@),
    {
        let ghost f = *should_recurse_into;
        if !self.contains_node(name) {
            proof {
                assert forall|d: Seq<char>| !#[trigger] self.descendants(f, name@).contains(d) by {
                    if self.descendants(f, name@).contains(d) {
                        let j = choose|j: nat| #[trigger] self.reaches(f, name@, d, j);
                        if j == 0 {
                            assert(d == name@);
                        }
                    }
                }
                assert(acc@ =~= old(acc)@.union(self.descendants(f, name@)));
            }
            return;
        }
        let recurse = should_recurse_into(name);
        if !recurse {
            proof {
                if says_yes(f, name@) {
                    let s = choose|s: &str| s@ == name@ && #[trigger] call_ensures(f, (s,), true);
                    assert(call_ensures(f, (name,), false));
                }
                assert forall|d: Seq<char>| #[trigger] self.descendants(f, name@).contains(d) <==> d == name@ by {
                    if self.descendants(f, name@).contains(d) {
                        let j = choose|j: nat| #[trigger] self.reaches(f, name@, d, j);
                        if j == 0 {
                            assert(d == name@);
                        }
                    }
                    if d == name@ {
                        assert(self.reaches(f, name@, d, 0));
                    }
                }
            }
            acc.insert(name.to_owned());
            proof {
                assert(acc@ =~= old(acc)@.union(self.descendants(f, name@)));
            }
            return;
        }
        proof {
            assert(says_yes(f, name@));
            self.lemma_descendants_step(f, name@);
        }
        let ghost start = acc@;
        match self.node_elements.get(name) {
            None => {
                proof {
                    assert(self.children(name@) =~= Set::empty());
                    assert(acc@ =~= old(acc)@.union(self.descendants(f, name@)));
                }
            },
            Some(elems) => {
                let ghost ev = views(elems@);
                proof {
                    lemma_views(elems@);
                    assert(self.element_views()[name@] == ev);
                }
                let mut i: usize = 0;
                while i < elems.len()
                    invariant
                        i <= elems@.len(),
                        f == *should_recurse_into,
                        decides(f),
                        self.descent_ranked(f, root, rank),
                        self.reaches(f, root, name@, k),
                        self.is_node(name@),
                        says_yes(f, name@),
                        ev == views(elems@),
                        ev.len() == elems@.len(),
                        self.element_views()[name@] == ev,
                        self.element_views().contains_key(name@),
                        forall|j: int| 0 <= j < elems@.len() ==> #[trigger] ev[j] == elems@[j]@,
                        acc@ == start.union(Set::new(|d: Seq<char>| exists|j: int|
                            0 <= j < i && self.is_node(#[trigger] ev[j].0) && self.descendants(f, ev[j].0).contains(d))),
                    decreases elems@.len() - i,
                {
                    let child = elems[i].node_or_token_name.as_str();
                    let ghost before = acc@;
                    if self.contains_node(child) {
                        proof {
                            assert(self.element_views()[name@][i as int].0 == child@);
                            assert(self.children(name@).contains(child@));
                            self.lemma_reaches_extend(f, root, name@, child@, k);
                            assert(rank(child@) < rank(name@));
                        }
                        self.collect_into(child, should_recurse_into, acc, Ghost(root), Ghost(rank), Ghost(k + 1));
                    }
                    proof {
                        let next = Set::new(|d: Seq<char>| exists|j: int|
                            0 <= j < i + 1 && self.is_node(#[trigger] ev[j].0) && self.descendants(f, ev[j].0).contains(d));
                        let prev = Set::new(|d: Seq<char>| exists|j: int|
                            0 <= j < i && self.is_node(#[trigger] ev[j].0) && self.descendants(f, ev[j].0).contains(d));
                        assert forall|d: Seq<char>| #[trigger] next.contains(d) implies prev.contains(d) || (self.is_node(ev[i as int].0) && self.descendants(f, ev[i as int].0).contains(d)) by {
                            let j = choose|j: int| 0 <= j < i + 1 && self.is_node(#[trigger] ev[j].0) && self.descendants(f, ev[j].0).contains(d);
                            if j < i {
                                assert(prev.contains(d));
                            }
                        }
                        assert forall|d: Seq<char>| #[trigger] prev.contains(d) implies next.contains(d) by {
                            let j = choose|j: int| 0 <= j < i && self.is_node(#[trigger] ev[j].0) && self.descendants(f, ev[j].0).contains(d);
                            assert(0 <= j < i + 1);
                        }
                        assert forall|d: Seq<char>| self.is_node(ev[i as int].0) && #[trigger] self.descendants(f, ev[i as int].0).contains(d) implies next.contains(d) by {
                            assert(0 <= i < i + 1);
                        }
                        assert(ev[i as int].0 == child@);
                        assert(acc@ =~= start.union(next));
                    }
                    i = i + 1;
                }
                proof {
                    let all = Set::new(|d: Seq<char>| exists|j: int|
                        0 <= j < ev.len() && self.is_node(#[trigger] ev[j].0) && self.descendants(f, ev[j].0).contains(d));
                    let by_child = Set::new(|d: Seq<char>| exists|c: Seq<char>|
                        #[trigger] self.children(name@).contains(c) && self.descendants(f, c).contains(d));
                    assert forall|d: Seq<char>| all.contains(d) implies #[trigger] by_child.contains(d) by {
                        let j = choose|j: int| 0 <= j < ev.len() && self.is_node(#[trigger] ev[j].0) && self.descendants(f, ev[j].0).contains(d);
                        assert(self.children(name@).contains(ev[j].0));
                    }
                    assert forall|d: Seq<char>| by_child.contains(d) implies #[trigger] all.contains(d) by {
                        let c = choose|c: Seq<char>| #[trigger] self.children(name@).contains(c) && self.descendants(f, c).contains(d);
                        let j = choose|j: int| 0 <= j < self.element_views()[name@].len() && #[trigger] self.element_views()[name@][j].0 == c;
                        assert(ev[j].0 == c);
                    }
                    assert(all =~= by_child);
                    assert(acc@ =~= old(acc)@.union(self.descendants(f, name@)));
                }
            },
        }
    }
}

/// Merging keeps every name and leaves no name twice.
pub proof fn lemma_merged_names(es: Seq<ElementView>)
    ensures
        names_distinct(merged(es)),
        names(merged(es)) == names(es),
    decreases es.len(),
{
    if es.len() > 0 {
        let rest = es.drop_last();
        let prev = merged(rest);
        let e = es.last();
        lemma_merged_names(rest);
        lemma_position_of(prev, e.0);
        assert(names(es) =~= names(rest).insert(e.0)) by {
            assert forall|n: Seq<char>| #[trigger] names(es).contains(n) implies names(rest).insert(e.0).contains(n) by {
                let i = choose|i: int| 0 <= i < es.len() && #[trigger] es[i].0 == n;
                if i < es.len() - 1 {
                    assert(rest[i].0 == n);
                }
            }
            assert forall|n: Seq<char>| #[trigger] names(rest).insert(e.0).contains(n) implies names(es).contains(n) by {
                if n == e.0 {
                    assert(es[es.len() - 1].0 == n);
                } else {
                    let i = choose|i: int| 0 <= i < rest.len() && #[trigger] rest[i].0 == n;
                    assert(es[i].0 == n);
                }
            }
        }
        let m = merged(es);
        match position_of(prev, e.0) {
            Some(p) => {
                assert(m == prev.update(p, (e.0, spec_for_sequence(prev[p].1, e.1))));
                assert forall|n: Seq<char>| #[trigger] names(m).contains(n) <==> names(prev).contains(n) by {
                    if names(m).contains(n) {
                        let i = choose|i: int| 0 <= i < m.len() && #[trigger] m[i].0 == n;
                        assert(prev[i].0 == n);
                    }
                    if names(prev).contains(n) {
                        let i = choose|i: int| 0 <= i < prev.len() && #[trigger] prev[i].0 == n;
                        assert(m[i].0 == n);
                    }
                }
                assert(names(m) =~= names(es));
            },
            None => {
                assert(m == prev.push(e));
                assert forall|n: Seq<char>| #[trigger] names(m).contains(n) <==> names(prev).insert(e.0).contains(n) by {
                    if names(m).contains(n) {
                        let i = choose|i: int| 0 <= i < m.len() && #[trigger] m[i].0 == n;
                        if i < prev.len() {
                            assert(prev[i].0 == n);
                        }
                    }
                    if names(prev).contains(n) {
                        let i = choose|i: int| 0 <= i < prev.len() && #[trigger] prev[i].0 == n;
                        assert(m[i].0 == n);
                    }
                    if n == e.0 {
                        assert(m[prev.len() as int].0 == n);
                    }
                }
                assert(names(m) =~= names(es));
            },
        }
    }
}

/// The cardinality an element has in a list where no name occurs twice.
proof fn lemma_cardinality_of_distinct(es: Seq<ElementView>, i: int)
    requires
        names_distinct(es),
        0 <= i < es.len(),
    ensures
        cardinality_of(es, es[i].0) == Some(es[i].1),
        position_of(es, es[i].0) == Some(i),
{
    lemma_position_of(es, es[i].0);
}

/// A name that no element has.
proof fn lemma_cardinality_of_absent(es: Seq<ElementView>, n: Seq<char>)
    requires
        !names(es).contains(n),
    ensures
        cardinality_of(es, n) is None,
        position_of(es, n) is None,
{
    lemma_position_of(es, n);
    if position_of(es, n) is Some {
        let p = position_of(es, n)->0;
        assert(es[p].0 == n);
    }
}

/// The cardinalities of the occurrences of `name` among the elements, in
/// order.
pub open spec fn occurrences(es: Seq<ElementView>, name: Seq<char>) -> Seq<Cardinality>
    decreases es.len(),
{
    if es.len() == 0 {
        Seq::empty()
    } else if es.last().0 == name {
        occurrences(es.drop_last(), name).push(es.last().1)
    } else {
        occurrences(es.drop_last(), name)
    }
}

/// The cardinality that one sequence gives an element from the cardinalities
/// of its occurrences: none where it does not occur; that of its occurrence
/// where it occurs once; optional where it occurs more than once, each time
/// optionally; many where it occurs more than once otherwise.
pub open spec fn sequence_cardinality(occ: Seq<Cardinality>) -> Option<Cardinality> {
    if occ.len() == 0 {
        None
    } else if occ.len() == 1 {
        Some(occ[0])
    } else if forall|k: int| 0 <= k < occ.len() ==> occ[k] == Cardinality::Optional {
        Some(Cardinality::Optional)
    } else {
        Some(Cardinality::Many)
    }
}

proof fn lemma_position_of_push(s: Seq<ElementView>, e: ElementView, m: Seq<char>)
    ensures
        position_of(s.push(e), m) == match position_of(s, m) {
            Some(p) => Some(p),
            None => if e.0 == m { Some(s.len() as int) } else { None },
        },
{
    assert(s.push(e).drop_last() == s);
}

proof fn lemma_position_of_update(s: Seq<ElementView>, i: int, c: Cardinality, m: Seq<char>)
    requires
        0 <= i < s.len(),
    ensures
        position_of(s.update(i, (s[i].0, c)), m) == position_of(s, m),
    decreases s.len(),
{
    let t = s.update(i, (s[i].0, c));
    if i == s.len() - 1 {
        assert(t.drop_last() == s.drop_last());
    } else {
        let r = s.drop_last();
        assert(t.drop_last() == r.update(i, (r[i].0, c)));
        lemma_position_of_update(r, i, c, m);
    }
}

proof fn lemma_sequence_cardinality_push(occ: Seq<Cardinality>, x: Cardinality)
    requires
        occ.len() > 0,
    ensures
        sequence_cardinality(occ.push(x)) == Some(spec_for_sequence(sequence_cardinality(occ).unwrap(), x)),
{
    let o = occ.push(x);
    if occ.len() == 1 {
        if occ[0] == Cardinality::Optional && x == Cardinality::Optional {
            assert forall|k: int| 0 <= k < o.len() implies o[k] == Cardinality::Optional by {}
        } else if occ[0] != Cardinality::Optional {
            assert(o[0] != Cardinality::Optional);
        } else {
            assert(o[1] != Cardinality::Optional);
        }
    } else {
        if forall|k: int| 0 <= k < occ.len() ==> occ[k] == Cardinality::Optional {
            if x == Cardinality::Optional {
                assert forall|k: int| 0 <= k < o.len() implies o[k] == Cardinality::Optional by {
                    if k < occ.len() {
                        assert(o[k] == occ[k]);
                    }
                }
            } else {
                assert(o[o.len() - 1] != Cardinality::Optional);
            }
        } else {
            let k = choose|k: int| 0 <= k < occ.len() && occ[k] != Cardinality::Optional;
            assert(o[k] == occ[k]);
        }
    }
}

/// In the merged elements of a sequence, each name gets the cardinality its
/// occurrences give it: that of its one occurrence, optional where it occurs
/// more than once and each time optionally, and many otherwise.
pub proof fn lemma_merged_cardinality(es: Seq<ElementView>, n: Seq<char>)
    ensures
        cardinality_of(merged(es), n) == sequence_cardinality(occurrences(es, n)),
    decreases es.len(),
{
    if es.len() > 0 {
        let rest = es.drop_last();
        let e = es.last();
        let prev = merged(rest);
        lemma_merged_cardinality(rest, n);
        lemma_position_of(prev, e.0);
        lemma_position_of(prev, n);
        match position_of(prev, e.0) {
            Some(i) => {
                let c = spec_for_sequence(prev[i].1, e.1);
                assert(merged(es) == prev.update(i, (prev[i].0, c)));
                lemma_position_of_update(prev, i, c, n);
                if n == e.0 {
                    lemma_merged_cardinality(rest, e.0);
                    lemma_sequence_cardinality_push(occurrences(rest, n), e.1);
                } else {
                    let p = position_of(prev, n);
                    if p is Some {
                        assert(p.unwrap() != i);
                    }
                }
            },
            None => {
                assert(merged(es) == prev.push(e));
                lemma_position_of_push(prev, e, n);
                if n == e.0 {
                    assert(occurrences(rest, n).len() == 0);
                    assert(occurrences(es, n) =~= seq![e.1]);
                }
            },
        }
    }
}

/// Merging a list that names no element twice leaves it as it is.
proof fn lemma_merged_of_distinct(es: Seq<ElementView>)
    requires
        names_distinct(es),
    ensures
        merged(es) == es,
    decreases es.len(),
{
    if es.len() > 0 {
        let rest = es.drop_last();
        assert(names_distinct(rest)) by {
            assert forall|i: int, j: int|
                0 <= i < rest.len() && 0 <= j < rest.len() && i != j implies #[trigger] rest[i].0 != #[trigger] rest[j].0 by {
                assert(rest[i] == es[i] && rest[j] == es[j]);
            }
        }
        lemma_merged_of_distinct(rest);
        lemma_position_of(rest, es.last().0);
        if position_of(rest, es.last().0) is Some {
            let i = position_of(rest, es.last().0).unwrap();
            assert(rest[i] == es[i]);
            assert(es[i].0 != es[es.len() - 1].0);
        }
        assert(merged(es) =~= rest.push(es.last()));
        assert(es =~= rest.push(es.last()));
    }
}

/// Merging a list that names no element twice leaves it as it is, so merging
/// twice is the same as merging once.
pub proof fn lemma_merged_idempotent(es: Seq<ElementView>)
    ensures
        names_distinct(es) ==> merged(es) == es,
        merged(merged(es)) == merged(es),
{
    if names_distinct(es) {
        lemma_merged_of_distinct(es);
    }
    lemma_merged_names(es);
    lemma_merged_of_distinct(merged(es));
}

/// Merging two branches of an alternative: the names of the result are those
/// of either branch, each once; a name in both branches gets the combination
/// of its two cardinalities, a name in one branch only is at least optional.
pub proof fn lemma_merged_alternatives(left: Seq<ElementView>, right: Seq<ElementView>)
    requires
        names_distinct(left),
        names_distinct(right),
    ensures
        names_distinct(merged_alternatives(left, right)),
        names(merged_alternatives(left, right)) == names(left).union(names(right)),
        forall|i: int, j: int|
            0 <= i < left.len() && 0 <= j < right.len() && #[trigger] left[i].0 == #[trigger] right[j].0
                ==> cardinality_of(merged_alternatives(left, right), left[i].0)
                == Some(spec_for_alternative(left[i].1, right[j].1)),
        forall|i: int|
            0 <= i < left.len() && !names(right).contains(#[trigger] left[i].0)
                ==> cardinality_of(merged_alternatives(left, right), left[i].0) == Some(spec_optional(left[i].1)),
        forall|j: int|
            0 <= j < right.len() && !names(left).contains(#[trigger] right[j].0)
                ==> cardinality_of(merged_alternatives(left, right), right[j].0) == Some(spec_optional(right[j].1)),
{
    let first = left.map_values(left_merged(right));
    let kept = right.filter(only_right(left));
    let second = kept.map_values(|e: ElementView| (e.0, spec_optional(e.1)));
    let m = merged_alternatives(left, right);
    assert(m == first + second);
    broadcast use vstd::seq_lib::group_filter_ensures;
    // names of `kept` are names of `right` missing from `left`
    assert forall|k: int| 0 <= k < kept.len() implies !names(left).contains(#[trigger] kept[k].0)
        && names(right).contains(kept[k].0) by {
        assert(kept.contains(kept[k]));
        right.lemma_filter_contains_rev(only_right(left), kept[k]);
        let j = choose|j: int| 0 <= j < right.len() && right[j] == kept[k];
        assert(right[j].0 == kept[k].0);
        lemma_position_of(left, kept[k].0);
        if names(left).contains(kept[k].0) {
            let i = choose|i: int| 0 <= i < left.len() && #[trigger] left[i].0 == kept[k].0;
            assert(left[i].0 == kept[k].0);
        }
    }
    lemma_filter_distinct(right, only_right(left));
    assert forall|i: int, j: int|
        0 <= i < m.len() && 0 <= j < m.len() && i != j implies #[trigger] m[i].0 != #[trigger] m[j].0 by {
        if i < left.len() && j < left.len() {
            assert(m[i].0 == left[i].0 && m[j].0 == left[j].0);
        } else if i >= left.len() && j >= left.len() {
            assert(m[i].0 == kept[i - left.len()].0 && m[j].0 == kept[j - left.len()].0);
        } else if i < left.len() {
            assert(m[i].0 == left[i].0);
            assert(m[j].0 == kept[j - left.len()].0);
        } else {
            assert(m[j].0 == left[j].0);
            assert(m[i].0 == kept[i - left.len()].0);
        }
    }
    assert forall|n: Seq<char>| #[trigger] names(m).contains(n) <==> names(left).union(names(right)).contains(n) by {
        if names(m).contains(n) {
            let i = choose|i: int| 0 <= i < m.len() && #[trigger] m[i].0 == n;
            if i < left.len() {
                assert(left[i].0 == n);
            } else {
                assert(kept[i - left.len()].0 == n);
            }
        }
        if names(left).contains(n) {
            let i = choose|i: int| 0 <= i < left.len() && #[trigger] left[i].0 == n;
            assert(m[i].0 == n);
        } else if names(right).contains(n) {
            let j = choose|j: int| 0 <= j < right.len() && #[trigger] right[j].0 == n;
            lemma_cardinality_of_absent(left, n);
            assert(only_right(left)(right[j]));
            right.lemma_filter_contains(only_right(left), j);
            let k = choose|k: int| 0 <= k < kept.len() && kept[k] == right[j];
            assert(m[left.len() + k].0 == n);
        }
    }
    assert(names(m) =~= names(left).union(names(right)));
    assert forall|i: int, j: int|
        0 <= i < left.len() && 0 <= j < right.len() && #[trigger] left[i].0 == #[trigger] right[j].0
            implies cardinality_of(m, left[i].0) == Some(spec_for_alternative(left[i].1, right[j].1)) by {
        lemma_cardinality_of_distinct(right, j);
        assert(m[i] == (left[i].0, spec_for_alternative(left[i].1, right[j].1)));
        lemma_cardinality_of_distinct(m, i);
    }
    assert forall|i: int|
        0 <= i < left.len() && !names(right).contains(#[trigger] left[i].0)
            implies cardinality_of(m, left[i].0) == Some(spec_optional(left[i].1)) by {
        lemma_cardinality_of_absent(right, left[i].0);
        assert(m[i] == (left[i].0, spec_optional(left[i].1)));
        lemma_cardinality_of_distinct(m, i);
    }
    assert forall|j: int|
        0 <= j < right.len() && !names(left).contains(#[trigger] right[j].0)
            implies cardinality_of(m, right[j].0) == Some(spec_optional(right[j].1)) by {
        lemma_cardinality_of_absent(left, right[j].0);
        assert(only_right(left)(right[j]));
        right.lemma_filter_contains(only_right(left), j);
        let k = choose|k: int| 0 <= k < kept.len() && kept[k] == right[j];
        assert(m[left.len() + k] == (right[j].0, spec_optional(right[j].1)));
        lemma_cardinality_of_distinct(m, left.len() + k);
    }
}

/// Filtering a list where no name occurs twice leaves no name twice.
proof fn lemma_filter_distinct(es: Seq<ElementView>, p: spec_fn(ElementView) -> bool)
    requires
        names_distinct(es),
    ensures
        names_distinct(es.filter(p)),
    decreases es.len(),
{
    reveal_with_fuel(Seq::filter, 1);
    if es.len() > 0 {
        let rest = es.drop_last();
        assert(names_distinct(rest)) by {
            assert forall|i: int, j: int| 0 <= i < rest.len() && 0 <= j < rest.len() && i != j implies #[trigger] rest[i].0 != #[trigger] rest[j].0 by {
                assert(es[i].0 != es[j].0);
            }
        }
        lemma_filter_distinct(rest, p);
        let f = rest.filter(p);
        if p(es.last()) {
            assert(es.filter(p) == f.push(es.last()));
            assert forall|k: int| 0 <= k < f.len() implies #[trigger] f[k].0 != es.last().0 by {
                assert(f.contains(f[k]));
                rest.lemma_filter_contains_rev(p, f[k]);
                let i = choose|i: int| 0 <= i < rest.len() && rest[i] == f[k];
                assert(es[i].0 != es[es.len() - 1].0);
            }
        }
    }
}

/// Merging two branches of an alternative does not depend on which branch
/// comes first, but for the order of the elements: both orders give the same
/// names with the same cardinalities.
pub proof fn lemma_merged_alternatives_symmetric(left: Seq<ElementView>, right: Seq<ElementView>)
    requires
        names_distinct(left),
        names_distinct(right),
    ensures
        names(merged_alternatives(left, right)) == names(merged_alternatives(right, left)),
        forall|n: Seq<char>| #[trigger] cardinality_of(merged_alternatives(left, right), n)
            == cardinality_of(merged_alternatives(right, left), n),
{
    lemma_merged_alternatives(left, right);
    lemma_merged_alternatives(right, left);
    let a = merged_alternatives(left, right);
    let b = merged_alternatives(right, left);
    assert(names(a) =~= names(b));
    assert forall|n: Seq<char>| #[trigger] cardinality_of(a, n) == cardinality_of(b, n) by {
        if names(left).contains(n) && names(right).contains(n) {
            let i = choose|i: int| 0 <= i < left.len() && #[trigger] left[i].0 == n;
            let j = choose|j: int| 0 <= j < right.len() && #[trigger] right[j].0 == n;
            lemma_for_alternative_laws(left[i].1, right[j].1, left[i].1);
        } else if names(left).contains(n) {
            let i = choose|i: int| 0 <= i < left.len() && #[trigger] left[i].0 == n;
            assert(cardinality_of(a, n) == Some(spec_optional(left[i].1)));
        } else if names(right).contains(n) {
            let j = choose|j: int| 0 <= j < right.len() && #[trigger] right[j].0 == n;
            assert(cardinality_of(b, n) == Some(spec_optional(right[j].1)));
        } else {
            lemma_cardinality_of_absent(a, n);
            lemma_cardinality_of_absent(b, n);
        }
    }
}

/// The elements of an alternative have no name twice.
pub proof fn lemma_alternative_elements_distinct(rules: Seq<GrammarRule>, cardinality: Cardinality)
    ensures
        names_distinct(alternative_elements(rules, cardinality)),
    decreases rules.len(),
{
    if rules.len() == 1 {
        lemma_merged_names(rule_elements(rules[0], cardinality));
    } else if rules.len() > 1 {
        lemma_alternative_elements_distinct(rules.drop_last(), cardinality);
        lemma_merged_names(rule_elements(rules.last(), cardinality));
        lemma_merged_alternatives(
            alternative_elements(rules.drop_last(), cardinality),
            merged(rule_elements(rules.last(), cardinality)),
        );
    }
}

/// In a grammar's model, the nodes with elements are the grammar's nodes, and
/// no node lists an element twice.
pub proof fn lemma_elements_map(nodes: Seq<NodeData>)
    ensures
        elements_map(nodes).dom() == node_name_list(nodes).to_set(),
        forall|n: Seq<char>| #[trigger] elements_map(nodes).contains_key(n)
            ==> names_distinct(elements_map(nodes)[n]),
    decreases nodes.len(),
{
    if nodes.len() > 0 {
        let rest = nodes.drop_last();
        lemma_elements_map(rest);
        lemma_merged_names(rule_elements(nodes.last().rule, Cardinality::One));
        assert(node_name_list(nodes) == node_name_list(rest).push(nodes.last().name@));
        node_name_list(rest).lemma_push_to_set_commute(nodes.last().name@);
        assert(elements_map(nodes).dom() =~= node_name_list(nodes).to_set());
    }
}

/// The names a rule mentions, nodes and tokens alike.
pub open spec fn mentioned(rule: GrammarRule) -> Set<Seq<char>> {
    Set::new(|n: Seq<char>| rule_nodes(rule).contains(n) || rule_tokens(rule).contains(n))
}

/// The names a list of rules mentions, nodes and tokens alike.
pub open spec fn mentioned_all(rules: Seq<GrammarRule>) -> Set<Seq<char>> {
    Set::new(|n: Seq<char>| rules_nodes(rules).contains(n) || rules_tokens(rules).contains(n))
}

proof fn lemma_contains_concat<A>(a: Seq<A>, b: Seq<A>, x: A)
    ensures
        (a + b).contains(x) <==> a.contains(x) || b.contains(x),
{
    if a.contains(x) {
        let i = choose|i: int| 0 <= i < a.len() && a[i] == x;
        assert((a + b)[i] == x);
    }
    if b.contains(x) {
        let i = choose|i: int| 0 <= i < b.len() && b[i] == x;
        assert((a + b)[i + a.len()] == x);
    }
    if (a + b).contains(x) {
        let i = choose|i: int| 0 <= i < (a + b).len() && (a + b)[i] == x;
        if i < a.len() {
            assert(a[i] == x);
        } else {
            assert(b[i - a.len()] == x);
        }
    }
}

proof fn lemma_names_concat(a: Seq<ElementView>, b: Seq<ElementView>)
    ensures
        names(a + b) == names(a).union(names(b)),
{
    assert forall|n: Seq<char>| names(a + b).contains(n) implies #[trigger] names(a).union(names(b)).contains(n) by {
        let i = choose|i: int| 0 <= i < (a + b).len() && #[trigger] (a + b)[i].0 == n;
        if i < a.len() {
            assert(a[i].0 == n);
        } else {
            assert(b[i - a.len()].0 == n);
        }
    }
    assert forall|n: Seq<char>| names(a).union(names(b)).contains(n) implies #[trigger] names(a + b).contains(n) by {
        if names(a).contains(n) {
            let i = choose|i: int| 0 <= i < a.len() && #[trigger] a[i].0 == n;
            assert((a + b)[i].0 == n);
        } else {
            let i = choose|i: int| 0 <= i < b.len() && #[trigger] b[i].0 == n;
            assert((a + b)[i + a.len()].0 == n);
        }
    }
    assert(names(a + b) =~= names(a).union(names(b)));
}

proof fn lemma_mentioned_all_step(rules: Seq<GrammarRule>)
    requires
        rules.len() > 0,
    ensures
        mentioned_all(rules) == mentioned_all(rules.drop_last()).union(mentioned(rules.last())),
{
    assert forall|n: Seq<char>| #[trigger] mentioned_all(rules).contains(n)
        == mentioned_all(rules.drop_last()).union(mentioned(rules.last())).contains(n) by {
        lemma_contains_concat(rules_nodes(rules.drop_last()), rule_nodes(rules.last()), n);
        lemma_contains_concat(rules_tokens(rules.drop_last()), rule_tokens(rules.last()), n);
    }
    assert(mentioned_all(rules) =~= mentioned_all(rules.drop_last()).union(mentioned(rules.last())));
}

/// The names of a rule's elements are the nodes and tokens the rule mentions.
proof fn lemma_rule_names(rule: GrammarRule, cardinality: Cardinality)
    ensures
        names(rule_elements(rule, cardinality)) == mentioned(rule),
    decreases rule,
{
    match rule {
        GrammarRule::Labeled { rule: r, .. } => {
            lemma_rule_names(*r, cardinality);
            assert(mentioned(rule) =~= mentioned(*r));
        },
        GrammarRule::Node(n) => {
            assert(rule_nodes(rule)[0] == n@);
            assert(rule_elements(rule, cardinality)[0].0 == n@);
            assert(names(rule_elements(rule, cardinality)) =~= mentioned(rule));
        },
        GrammarRule::Token(t) => {
            assert(rule_tokens(rule)[0] == t@);
            assert(rule_elements(rule, cardinality)[0].0 == t@);
            assert(names(rule_elements(rule, cardinality)) =~= mentioned(rule));
        },
        GrammarRule::Sequence(rs) => {
            assert(decreases_to!(rule => rs@));
            lemma_sequence_names(rs@, cardinality);
            assert(mentioned(rule) =~= mentioned_all(rs@));
        },
        GrammarRule::Alt(rs) => {
            assert(decreases_to!(rule => rs@));
            lemma_alternative_names(rs@, cardinality);
            assert(mentioned(rule) =~= mentioned_all(rs@));
        },
        GrammarRule::Opt(r) => {
            lemma_rule_names(*r, spec_optional(cardinality));
            assert(mentioned(rule) =~= mentioned(*r));
        },
        GrammarRule::Rep(r) => {
            lemma_rule_names(*r, Cardinality::Many);
            assert(mentioned(rule) =~= mentioned(*r));
        },
    }
}

proof fn lemma_mentioned_all_empty(rules: Seq<GrammarRule>)
    requires
        rules.len() == 0,
    ensures
        mentioned_all(rules) == Set::<Seq<char>>::empty(),
{
    assert(mentioned_all(rules) =~= Set::<Seq<char>>::empty());
}

proof fn lemma_sequence_names(rules: Seq<GrammarRule>, cardinality: Cardinality)
    ensures
        names(sequence_elements(rules, cardinality)) == mentioned_all(rules),
    decreases rules,
{
    if rules.len() > 0 {
        lemma_sequence_names(rules.drop_last(), cardinality);
        lemma_rule_names(rules.last(), cardinality);
        lemma_names_concat(
            sequence_elements(rules.drop_last(), cardinality),
            rule_elements(rules.last(), cardinality),
        );
        lemma_mentioned_all_step(rules);
    } else {
        lemma_mentioned_all_empty(rules);
        assert(names(sequence_elements(rules, cardinality)) =~= Set::empty());
    }
}

proof fn lemma_alternative_names(rules: Seq<GrammarRule>, cardinality: Cardinality)
    ensures
        names(alternative_elements(rules, cardinality)) == mentioned_all(rules),
    decreases rules,
{
    if rules.len() == 0 {
        lemma_mentioned_all_empty(rules);
        assert(names(alternative_elements(rules, cardinality)) =~= Set::empty());
    } else {
        lemma_rule_names(rules.last(), cardinality);
        lemma_merged_names(rule_elements(rules.last(), cardinality));
        lemma_mentioned_all_step(rules);
        if rules.len() > 1 {
            lemma_alternative_names(rules.drop_last(), cardinality);
            lemma_alternative_elements_distinct(rules.drop_last(), cardinality);
            lemma_merged_alternatives(
                alternative_elements(rules.drop_last(), cardinality),
                merged(rule_elements(rules.last(), cardinality)),
            );
        } else {
            assert(rules.last() == rules[0]);
            lemma_mentioned_all_empty(rules.drop_last());
            assert(mentioned_all(rules) =~= mentioned(rules[0]));
        }
    }
}

proof fn lemma_elements_map_entry(nodes: Seq<NodeData>, n: Seq<char>)
    requires
        elements_map(nodes).contains_key(n),
    ensures
        exists|k: int| 0 <= k < nodes.len() && nodes[k].name@ == n
            && elements_map(nodes)[n] == merged(rule_elements(#[trigger] nodes[k].rule, Cardinality::One)),
    decreases nodes.len(),
{
    let rest = nodes.drop_last();
    if nodes.last().name@ == n {
        let k = nodes.len() - 1;
        assert(nodes[k].name@ == n);
    } else {
        lemma_elements_map_entry(rest, n);
        let k = choose|k: int| 0 <= k < rest.len() && rest[k].name@ == n
            && elements_map(rest)[n] == merged(rule_elements(#[trigger] rest[k].rule, Cardinality::One));
        assert(nodes[k] == rest[k]);
    }
}

proof fn lemma_grammar_tokens_contain(nodes: Seq<NodeData>, k: int, t: Seq<char>)
    requires
        0 <= k < nodes.len(),
        rule_tokens(nodes[k].rule).contains(t),
    ensures
        grammar_tokens(nodes).contains(t),
    decreases nodes.len(),
{
    let rest = nodes.drop_last();
    if k == nodes.len() - 1 {
        lemma_contains_concat(grammar_tokens(rest), rule_tokens(nodes.last().rule), t);
    } else {
        assert(nodes[k] == rest[k]);
        lemma_grammar_tokens_contain(rest, k, t);
        lemma_contains_concat(grammar_tokens(rest), rule_tokens(nodes.last().rule), t);
    }
}

/// In the model of a grammar whose rules mention only its own nodes, each
/// element of a node is one of the grammar's nodes or one of its tokens.
pub proof fn lemma_elements_are_nodes_or_tokens(nodes: Seq<NodeData>)
    requires
        mentioned_nodes_defined(nodes),
    ensures
        forall|n: Seq<char>, i: int|
            elements_map(nodes).contains_key(n) && 0 <= i < elements_map(nodes)[n].len()
                ==> node_name_list(nodes).contains(#[trigger] elements_map(nodes)[n][i].0)
                || grammar_tokens(nodes).contains(elements_map(nodes)[n][i].0),
{
    assert forall|n: Seq<char>, i: int|
        elements_map(nodes).contains_key(n) && 0 <= i < elements_map(nodes)[n].len()
            implies node_name_list(nodes).contains(#[trigger] elements_map(nodes)[n][i].0)
            || grammar_tokens(nodes).contains(elements_map(nodes)[n][i].0) by {
        lemma_elements_map_entry(nodes, n);
        let k = choose|k: int| 0 <= k < nodes.len() && nodes[k].name@ == n
            && elements_map(nodes)[n] == merged(rule_elements(#[trigger] nodes[k].rule, Cardinality::One));
        let rule = nodes[k].rule;
        let es = rule_elements(rule, Cardinality::One);
        let x = elements_map(nodes)[n][i].0;
        lemma_merged_names(es);
        lemma_rule_names(rule, Cardinality::One);
        assert(names(merged(es)).contains(x));
        assert(mentioned(rule).contains(x));
        if rule_nodes(rule).contains(x) {
            let j = choose|j: int| 0 <= j < rule_nodes(rule).len() && rule_nodes(rule)[j] == x;
            assert(rule_nodes(nodes[k].rule)[j] == x);
            let kk = choose|kk: int| 0 <= kk < nodes.len() && nodes[kk].name@ == #[trigger] rule_nodes(nodes[k].rule)[j];
            assert(node_name_list(nodes)[kk] == x);
        } else {
            lemma_grammar_tokens_contain(nodes, k, x);
        }
    }
}

proof fn lemma_grammar_tokens_from(nodes: Seq<NodeData>, t: Seq<char>)
    requires
        grammar_tokens(nodes).contains(t),
    ensures
        exists|k: int| 0 <= k < nodes.len() && rule_tokens(#[trigger] nodes[k].rule).contains(t),
    decreases nodes.len(),
{
    let rest = nodes.drop_last();
    lemma_contains_concat(grammar_tokens(rest), rule_tokens(nodes.last().rule), t);
    if grammar_tokens(rest).contains(t) {
        lemma_grammar_tokens_from(rest, t);
        let k = choose|k: int| 0 <= k < rest.len() && rule_tokens(#[trigger] rest[k].rule).contains(t);
        assert(nodes[k] == rest[k]);
    } else {
        assert(rule_tokens(nodes[nodes.len() - 1].rule).contains(t));
    }
}

proof fn lemma_elements_map_of_distinct(nodes: Seq<NodeData>, k: int)
    requires
        node_names_distinct(nodes),
        0 <= k < nodes.len(),
    ensures
        elements_map(nodes).contains_key(nodes[k].name@),
        elements_map(nodes)[nodes[k].name@] == merged(rule_elements(nodes[k].rule, Cardinality::One)),
    decreases nodes.len(),
{
    let rest = nodes.drop_last();
    if k < nodes.len() - 1 {
        assert(node_names_distinct(rest)) by {
            assert forall|i: int, j: int|
                0 <= i < rest.len() && 0 <= j < rest.len() && i != j implies #[trigger] rest[i].name@ != #[trigger] rest[j].name@ by {
                assert(rest[i] == nodes[i] && rest[j] == nodes[j]);
            }
        }
        assert(rest[k] == nodes[k]);
        lemma_elements_map_of_distinct(rest, k);
        assert(nodes[k].name@ != nodes[nodes.len() - 1].name@);
    }
}

/// In the model of a grammar that names no node twice, no node is listed
/// twice, and each token the grammar mentions is an element of some node.
pub proof fn lemma_tokens_are_elements(nodes: Seq<NodeData>)
    requires
        node_names_distinct(nodes),
    ensures
        node_name_list(nodes).no_duplicates(),
        forall|t: Seq<char>| #[trigger] grammar_tokens(nodes).contains(t) ==> exists|n: Seq<char>, i: int|
            elements_map(nodes).contains_key(n) && 0 <= i < elements_map(nodes)[n].len()
                && #[trigger] elements_map(nodes)[n][i].0 == t,
{
    assert forall|i: int, j: int| 0 <= i < node_name_list(nodes).len() && 0 <= j < node_name_list(nodes).len() && i != j
        implies node_name_list(nodes)[i] != node_name_list(nodes)[j] by {
        assert(node_name_list(nodes)[i] == nodes[i].name@);
        assert(node_name_list(nodes)[j] == nodes[j].name@);
    }
    assert forall|t: Seq<char>| #[trigger] grammar_tokens(nodes).contains(t) implies exists|n: Seq<char>, i: int|
        elements_map(nodes).contains_key(n) && 0 <= i < elements_map(nodes)[n].len()
            && #[trigger] elements_map(nodes)[n][i].0 == t by {
        lemma_grammar_tokens_from(nodes, t);
        let k = choose|k: int| 0 <= k < nodes.len() && rule_tokens(#[trigger] nodes[k].rule).contains(t);
        let rule = nodes[k].rule;
        let es = rule_elements(rule, Cardinality::One);
        lemma_elements_map_of_distinct(nodes, k);
        lemma_rule_names(rule, Cardinality::One);
        lemma_merged_names(es);
        assert(mentioned(rule).contains(t));
        assert(names(merged(es)).contains(t));
        let i = choose|i: int| 0 <= i < merged(es).len() && #[trigger] merged(es)[i].0 == t;
        assert(elements_map(nodes)[nodes[k].name@][i].0 == t);
    }
}

/// Each element occurs at least as often as `c` says, in the order
/// `One < Optional < Many`.
pub open spec fn at_least(es: Seq<ElementView>, c: Cardinality) -> bool {
    forall|i: int| 0 <= i < es.len() ==> rank(#[trigger] es[i].1) >= rank(c)
}

proof fn lemma_merged_at_least(es: Seq<ElementView>, c: Cardinality)
    requires
        at_least(es, c),
    ensures
        at_least(merged(es), c),
    decreases es.len(),
{
    if es.len() > 0 {
        let rest = es.drop_last();
        let e = es.last();
        assert(at_least(rest, c)) by {
            assert forall|i: int| 0 <= i < rest.len() implies rank(#[trigger] rest[i].1) >= rank(c) by {
                assert(rest[i] == es[i]);
            }
        }
        assert(rank(es[es.len() - 1].1) >= rank(c));
        lemma_merged_at_least(rest, c);
        let prev = merged(rest);
        lemma_position_of(prev, e.0);
        match position_of(prev, e.0) {
            Some(i) => {
                let m = merged(es);
                assert(rank(prev[i].1) >= rank(c));
                assert forall|k: int| 0 <= k < m.len() implies rank(#[trigger] m[k].1) >= rank(c) by {
                    if k != i {
                        assert(m[k] == prev[k]);
                    }
                }
            },
            None => {
                let m = merged(es);
                assert(m == prev.push(e));
                assert forall|k: int| 0 <= k < m.len() implies rank(#[trigger] m[k].1) >= rank(c) by {
                    if k < prev.len() {
                        assert(m[k] == prev[k]);
                    }
                }
            },
        }
    }
}

proof fn lemma_merged_alternatives_at_least(left: Seq<ElementView>, right: Seq<ElementView>, c: Cardinality)
    requires
        at_least(left, c),
        at_least(right, c),
    ensures
        at_least(merged_alternatives(left, right), c),
{
    let a = left.map_values(left_merged(right));
    let f = right.filter(only_right(left));
    let b = f.map_values(|e: ElementView| (e.0, spec_optional(e.1)));
    let m = merged_alternatives(left, right);
    assert(m == a + b);
    assert forall|k: int| 0 <= k < m.len() implies rank(#[trigger] m[k].1) >= rank(c) by {
        if k < a.len() {
            assert(m[k] == a[k]);
            assert(rank(left[k].1) >= rank(c));
            lemma_position_of(right, left[k].0);
            if let Some(p) = position_of(right, left[k].0) {
                assert(rank(right[p].1) >= rank(c));
            }
        } else {
            let j = k - a.len();
            assert(m[k] == b[j]);
            assert(f.contains(f[j]));
            right.lemma_filter_contains_rev(only_right(left), f[j]);
            let q = choose|q: int| 0 <= q < right.len() && right[q] == f[j];
            assert(rank(right[q].1) >= rank(c));
        }
    }
}

proof fn lemma_rule_at_least(rule: GrammarRule, c: Cardinality)
    ensures
        at_least(rule_elements(rule, c), c),
    decreases rule,
{
    match rule {
        GrammarRule::Labeled { rule: r, .. } => lemma_rule_at_least(*r, c),
        GrammarRule::Node(_) => {},
        GrammarRule::Token(_) => {},
        GrammarRule::Sequence(rs) => {
            assert(decreases_to!(rule => rs@));
            lemma_sequence_at_least(rs@, c);
        },
        GrammarRule::Alt(rs) => {
            assert(decreases_to!(rule => rs@));
            lemma_alternative_at_least(rs@, c);
        },
        GrammarRule::Opt(r) => {
            lemma_rule_at_least(*r, spec_optional(c));
        },
        GrammarRule::Rep(r) => {
            lemma_rule_at_least(*r, Cardinality::Many);
        },
    }
}

proof fn lemma_sequence_at_least(rules: Seq<GrammarRule>, c: Cardinality)
    ensures
        at_least(sequence_elements(rules, c), c),
    decreases rules,
{
    if rules.len() > 0 {
        lemma_sequence_at_least(rules.drop_last(), c);
        lemma_rule_at_least(rules.last(), c);
        let a = sequence_elements(rules.drop_last(), c);
        let b = rule_elements(rules.last(), c);
        assert forall|k: int| 0 <= k < (a + b).len() implies rank(#[trigger] (a + b)[k].1) >= rank(c) by {
            if k < a.len() {
                assert((a + b)[k] == a[k]);
            } else {
                assert((a + b)[k] == b[k - a.len()]);
            }
        }
    }
}

proof fn lemma_alternative_at_least(rules: Seq<GrammarRule>, c: Cardinality)
    ensures
        at_least(alternative_elements(rules, c), c),
    decreases rules,
{
    if rules.len() == 1 {
        lemma_rule_at_least(rules[0], c);
        lemma_merged_at_least(rule_elements(rules[0], c), c);
    } else if rules.len() > 1 {
        lemma_alternative_at_least(rules.drop_last(), c);
        lemma_rule_at_least(rules.last(), c);
        lemma_merged_at_least(rule_elements(rules.last(), c), c);
        lemma_merged_alternatives_at_least(
            alternative_elements(rules.drop_last(), c),
            merged(rule_elements(rules.last(), c)),
            c,
        );
    }
}

/// Every element of a rule occurs at least as often as the rule itself, in
/// the order `One < Optional < Many`: an element under `?` is never `One`, and
/// one under `*` is `Many`, however deeply it is nested.
pub proof fn lemma_elements_at_least_enclosing(rule: GrammarRule, c: Cardinality)
    ensures
        forall|i: int| 0 <= i < rule_elements(rule, c).len()
            ==> rank(#[trigger] rule_elements(rule, c)[i].1) >= rank(c),
        forall|i: int| 0 <= i < rule_elements(GrammarRule::Opt(Box::new(rule)), c).len()
            ==> #[trigger] rule_elements(GrammarRule::Opt(Box::new(rule)), c)[i].1 != Cardinality::One,
        forall|i: int| 0 <= i < rule_elements(GrammarRule::Rep(Box::new(rule)), c).len()
            ==> #[trigger] rule_elements(GrammarRule::Rep(Box::new(rule)), c)[i].1 == Cardinality::Many,
{
    lemma_rule_at_least(rule, c);
    lemma_rule_at_least(rule, spec_optional(c));
    lemma_rule_at_least(rule, Cardinality::Many);
    assert(rule_elements(GrammarRule::Opt(Box::new(rule)), c) == rule_elements(rule, spec_optional(c)));
    assert(rule_elements(GrammarRule::Rep(Box::new(rule)), c) == rule_elements(rule, Cardinality::Many));
}

} // verus!
