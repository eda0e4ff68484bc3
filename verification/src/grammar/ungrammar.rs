//! Grammars in the Ungrammar notation, held as plain values, and what can be
//! read off them.

use vstd::prelude::*;
use ::ungrammar::Grammar as OuterGrammar;
use ::ungrammar::Rule as OuterRule;

verus! {

#[verifier::external_type_specification]
#[verifier::external_body]
pub struct ExOuterGrammar(::ungrammar::Grammar);

#[verifier::external_type_specification]
#[verifier::external_body]
pub struct ExOuterRule(::ungrammar::Rule);

/// A production rule, with each node and token it mentions given by name.
pub enum GrammarRule {
    /// A labeled rule, like `a:B`.
    Labeled { label: String, rule: Box<GrammarRule> },
    /// A node, like `A`.
    Node(String),
    /// A token, like `'struct'`.
    Token(String),
    /// A sequence of rules, like `'while' '(' Expr ')' Stmt`.
    Sequence(Vec<GrammarRule>),
    /// An alternative between rules, like `'+' | '-'`.
    Alt(Vec<GrammarRule>),
    /// An optional rule, like `A?`.
    Opt(Box<GrammarRule>),
    /// A repeated rule, like `A*`.
    Rep(Box<GrammarRule>),
}

/// A node of a grammar: its name and the rule on its right-hand side.
pub struct NodeData {
    pub name: String,
    pub rule: GrammarRule,
}

/// A grammar: its nodes in the order in which the text first mentions them.
pub struct Ungrammar {
    pub nodes: Vec<NodeData>,
}

/// Why a grammar text was refused, as the parser words it.
#[derive(Debug)]
pub struct GrammarError {
    pub message: String,
}

impl View for Ungrammar {
    type V = Seq<NodeData>;

    open spec fn view(&self) -> Seq<NodeData> {
        self.nodes@
    }
}

/// The nodes that `ungrammar` reads from a grammar text, or the message with
/// which it refuses the text.
pub uninterp spec fn ungrammar_parse(text: Seq<char>) -> Result<Seq<NodeData>, Seq<char>>;

/// No two nodes of the grammar have the same name.
pub open spec fn node_names_distinct(nodes: Seq<NodeData>) -> bool {
    forall|i: int, j: int|
        0 <= i < nodes.len() && 0 <= j < nodes.len() && i != j
            ==> #[trigger] nodes[i].name@ != #[trigger] nodes[j].name@
}

/// The nodes a rule mentions, left to right, with repeats.
pub open spec fn rule_nodes(rule: GrammarRule) -> Seq<Seq<char>>
    decreases rule,
{
    match rule {
        GrammarRule::Labeled { rule, .. } => rule_nodes(*rule),
        GrammarRule::Node(n) => seq![n@],
        GrammarRule::Token(_) => Seq::empty(),
        GrammarRule::Sequence(rs) => rules_nodes(rs@),
        GrammarRule::Alt(rs) => rules_nodes(rs@),
        GrammarRule::Opt(r) => rule_nodes(*r),
        GrammarRule::Rep(r) => rule_nodes(*r),
    }
}

/// The nodes a list of rules mentions, rule by rule.
pub open spec fn rules_nodes(rules: Seq<GrammarRule>) -> Seq<Seq<char>>
    decreases rules,
{
    if rules.len() == 0 {
        Seq::empty()
    } else {
        rules_nodes(rules.drop_last()) + rule_nodes(rules.last())
    }
}

/// Each node that a rule of the grammar mentions is one of the grammar's nodes.
pub open spec fn mentioned_nodes_defined(nodes: Seq<NodeData>) -> bool {
    forall|i: int, j: int|
        0 <= i < nodes.len() && 0 <= j < rule_nodes(nodes[i].rule).len()
            ==> exists|k: int| 0 <= k < nodes.len() && nodes[k].name@ == #[trigger] rule_nodes(nodes[i].rule)[j]
}

/// Calls `<ungrammar::Grammar as FromStr>::from_str` on the text and copies
/// the grammar it reads into the plain types above, naming each node and token
/// that a rule mentions by its name.
/// Claimed: the result is the named `ungrammar_parse` of the text; as the
/// parser interns each node name once, no two nodes share a name; and as it
/// interns each node a rule mentions and refuses a node without a rule, every
/// node a rule mentions is one of the grammar's nodes.
#[verifier::external_body]
fn parse_ungrammar(text: &str) -> (res: Result<Ungrammar, GrammarError>)
    ensures
        match res {
            Ok(g) => ungrammar_parse(text@) == Ok::<Seq<NodeData>, Seq<char>>(g@)
                && node_names_distinct(g@) && mentioned_nodes_defined(g@),
            Err(e) => ungrammar_parse(text@) == Err::<Seq<NodeData>, Seq<char>>(e.message@),
        },
{
    let g: OuterGrammar = text.parse().map_err(|e: ::ungrammar::Error| GrammarError { message: e.to_string() })?;
    Ok(Ungrammar {
        nodes: g.iter().map(|n| NodeData { name: g[n].name.clone(), rule: copy_rule(&g, &g[n].rule) }).collect(),
    })
}

/// Copies one `ungrammar::Rule` of `grammar` into `GrammarRule`, one variant for
/// another, replacing each node and token by its name in `grammar`.
/// Nothing is claimed of it: it serves `parse_ungrammar`, whose contract states
/// the whole copy.
#[verifier::external_body]
fn copy_rule(grammar: &OuterGrammar, rule: &OuterRule) -> GrammarRule {
    match rule {
        OuterRule::Labeled { label, rule } => GrammarRule::Labeled { label: label.clone(), rule: Box::new(copy_rule(grammar, rule)) },
        OuterRule::Node(n) => GrammarRule::Node(grammar[*n].name.clone()),
        OuterRule::Token(t) => GrammarRule::Token(grammar[*t].name.clone()),
        OuterRule::Seq(rs) => GrammarRule::Sequence(copy_rules(grammar, rs)),
        OuterRule::Alt(rs) => GrammarRule::Alt(copy_rules(grammar, rs)),
        OuterRule::Opt(r) => GrammarRule::Opt(Box::new(copy_rule(grammar, r))),
        OuterRule::Rep(r) => GrammarRule::Rep(Box::new(copy_rule(grammar, r))),
    }
}

/// Copies a list of `ungrammar::Rule`s of `grammar`, in order, with `copy_rule`.
/// Nothing is claimed of it, as of `copy_rule`.
#[verifier::external_body]
fn copy_rules(grammar: &OuterGrammar, rules: &Vec<OuterRule>) -> Vec<GrammarRule> {
    rules.iter().map(|r| copy_rule(grammar, r)).collect()
}

impl Ungrammar {
    /// Reads a grammar from its Ungrammar text.
    pub fn from_str(text: &str) -> (res: Result<Ungrammar, GrammarError>)
        ensures
            res matches Ok(g) ==> ungrammar_parse(text@) == Ok::<Seq<NodeData>, Seq<char>>(g@)
                && node_names_distinct(g@) && mentioned_nodes_defined(g@),
            res matches Err(e) ==> ungrammar_parse(text@) == Err::<Seq<NodeData>, Seq<char>>(e.message@),
    {
        parse_ungrammar(text)
    }
}

/// The tokens a rule mentions, left to right, with repeats.
pub open spec fn rule_tokens(rule: GrammarRule) -> Seq<Seq<char>>
    decreases rule,
{
    match rule {
        GrammarRule::Labeled { rule, .. } => rule_tokens(*rule),
        GrammarRule::Node(_) => Seq::empty(),
        GrammarRule::Token(t) => seq![t@],
        GrammarRule::Sequence(rs) => rules_tokens(rs@),
        GrammarRule::Alt(rs) => rules_tokens(rs@),
        GrammarRule::Opt(r) => rule_tokens(*r),
        GrammarRule::Rep(r) => rule_tokens(*r),
    }
}

/// The tokens a list of rules mentions, rule by rule.
pub open spec fn rules_tokens(rules: Seq<GrammarRule>) -> Seq<Seq<char>>
    decreases rules,
{
    if rules.len() == 0 {
        Seq::empty()
    } else {
        rules_tokens(rules.drop_last()) + rule_tokens(rules.last())
    }
}

/// The names of all the rules, in the order they appear in the grammar.
pub fn collect_rule_names(grammar: &Ungrammar) -> (res: Vec<String>)
    ensures
        res@.len() == grammar@.len(),
        forall|i: int| 0 <= i < res@.len() ==> #[trigger] res@[i]@ == grammar@[i].name@,
{
    let mut names: Vec<String> = Vec::new();
    for i in 0..grammar.nodes.len()
        invariant
            names@.len() == i,
            forall|k: int| 0 <= k < i ==> #[trigger] names@[k]@ == grammar@[k].name@,
    {
        names.push(grammar.nodes[i].name.clone());
    }
    names
}

/// The tokens that the rules of the nodes mention, node by node.
pub open spec fn grammar_tokens(nodes: Seq<NodeData>) -> Seq<Seq<char>>
    decreases nodes.len(),
{
    if nodes.len() == 0 {
        Seq::empty()
    } else {
        grammar_tokens(nodes.drop_last()) + rule_tokens(nodes.last().rule)
    }
}

/// All the token texts in the grammar, node by node and left to right within
/// a rule. A token that the grammar mentions more than once occurs as often.
pub fn collect_token_names(grammar: &Ungrammar) -> (res: Vec<String>)
    ensures
        res@.map_values(|s: String| s@) == grammar_tokens(grammar@),
{
    let mut names: Vec<String> = Vec::new();
    for i in 0..grammar.nodes.len()
        invariant
            names@.map_values(|s: String| s@) == grammar_tokens(grammar@.take(i as int)),
    {
        let mut more = tokens_inside_rule(&grammar.nodes[i].rule);
        proof {
            assert(grammar@.take(i + 1).drop_last() == grammar@.take(i as int));
        }
        names.append(&mut more);
    }
    proof {
        assert(grammar@.take(grammar@.len() as int) == grammar@);
    }
    names
}

/// All the token texts in a rule, left to right, with repeats.
fn tokens_inside_rule(rule: &GrammarRule) -> (res: Vec<String>)
    ensures
        res@.map_values(|s: String| s@) == rule_tokens(*rule),
    decreases rule,
{
    match rule {
        GrammarRule::Labeled { rule, .. } => tokens_inside_rule(rule),
        GrammarRule::Node(_) => Vec::new(),
        GrammarRule::Token(t) => vec![t.clone()],
        GrammarRule::Sequence(rules) => tokens_inside_rules(rules),
        GrammarRule::Alt(rules) => tokens_inside_rules(rules),
        GrammarRule::Opt(rule) => tokens_inside_rule(rule),
        GrammarRule::Rep(rule) => tokens_inside_rule(rule),
    }
}

/// The token texts of a list of rules, rule by rule.
fn tokens_inside_rules(rules: &Vec<GrammarRule>) -> (res: Vec<String>)
    ensures
        res@.map_values(|s: String| s@) == rules_tokens(rules@),
    decreases rules,
{
    let mut out: Vec<String> = Vec::new();
    let mut i: usize = 0;
    while i < rules.len()
        invariant
            i <= rules@.len(),
            out@.map_values(|s: String| s@) == rules_tokens(rules@.take(i as int)),
        decreases rules@.len() - i,
    {
        proof {
            assert(decreases_to!(rules => rules@));
        }
        let mut more = tokens_inside_rule(&rules[i]);
        proof {
            assert(rules@.take(i + 1).drop_last() == rules@.take(i as int));
        }
        out.append(&mut more);
        i = i + 1;
    }
    proof {
        assert(rules@.take(rules@.len() as int) == rules@);
    }
    out
}

} // verus!
