//! Symbols and the rule trees that refer to them.
use vstd::prelude::*;

verus! {

/// The class of a symbol: which collection its index points into.
#[derive(Clone, Copy, Debug, PartialEq, Eq, Structural, Hash, PartialOrd, Ord)]
pub enum SymbolType {
    NonTerminal,
    Terminal,
    External,
    Anonymous,
    End,
}

/// A resolved reference: an index into the collection of its class.
#[derive(Clone, Copy, Debug, PartialEq, Eq, Structural, Hash, PartialOrd, Ord)]
pub struct Symbol {
    pub kind: SymbolType,
    pub index: usize,
}

impl Symbol {
    /// A reference to a variable by index.
    pub fn non_terminal(index: usize) -> (r: Symbol)
        ensures
            r == (Symbol { kind: SymbolType::NonTerminal, index }),
    {
        Symbol { kind: SymbolType::NonTerminal, index }
    }

    /// A reference to an external token by index.
    pub fn external(index: usize) -> (r: Symbol)
        ensures
            r == (Symbol { kind: SymbolType::External, index }),
    {
        Symbol { kind: SymbolType::External, index }
    }
}

/// The model of a rule tree: strings are seen as their characters.
/// `Choice` and `Sequence` hold the models of their elements, in order.
pub enum RuleView {
    Blank,
    Literal(Seq<char>),
    Pattern(Seq<char>),
    NamedSymbol(Seq<char>),
    Symbol(Symbol),
    Choice(Seq<RuleView>),
    Metadata { params: MetadataParams, rule: Box<RuleView> },
    Repeat(Box<RuleView>),
    Sequence(Seq<RuleView>),
}

/// Data attached to a rule by a `Metadata` node; it names nothing.
#[derive(Clone, Debug, PartialEq, Eq)]
pub struct MetadataParams {
    pub precedence: i32,
    pub field_name: Option<String>,
    pub is_token: bool,
}

/// A rule tree. Before interning it refers to other rules by name
/// (`NamedSymbol`); after interning, by symbol (`Symbol`).
#[derive(Debug, PartialEq, Eq)]
pub enum Rule {
    Blank,
    Literal(String),
    Pattern(String),
    NamedSymbol(String),
    Symbol(Symbol),
    Choice(Vec<Rule>),
    Metadata { params: MetadataParams, rule: Box<Rule> },
    Repeat(Box<Rule>),
    Sequence(Vec<Rule>),
}

/// The models of a list of rules, element by element.
pub open spec fn views_of(rules: Seq<Rule>) -> Seq<RuleView>
    decreases rules,
{
    if rules.len() == 0 {
        Seq::empty()
    } else {
        views_of(rules.subrange(0, rules.len() - 1)).push(rules[rules.len() - 1].view())
    }
}

impl View for Rule {
    type V = RuleView;

    open spec fn view(&self) -> RuleView
        decreases self,
    {
        match self {
            Rule::Blank => RuleView::Blank,
            Rule::Literal(s) => RuleView::Literal(s@),
            Rule::Pattern(s) => RuleView::Pattern(s@),
            Rule::NamedSymbol(s) => RuleView::NamedSymbol(s@),
            Rule::Symbol(s) => RuleView::Symbol(*s),
            Rule::Choice(v) => RuleView::Choice(views_of(v@)),
            Rule::Metadata { params, rule } => RuleView::Metadata {
                params: *params,
                rule: Box::new((**rule).view()),
            },
            Rule::Repeat(rule) => RuleView::Repeat(Box::new((**rule).view())),
            Rule::Sequence(v) => RuleView::Sequence(views_of(v@)),
        }
    }
}

} // verus!

verus! {

impl Rule {
    /// A choice among the elements.
    pub fn choice(elements: Vec<Rule>) -> (r: Rule)
        ensures
            r == Rule::Choice(elements),
    {
        Rule::Choice(elements)
    }

    /// The elements one after another.
    pub fn seq(elements: Vec<Rule>) -> (r: Rule)
        ensures
            r == Rule::Sequence(elements),
    {
        Rule::Sequence(elements)
    }

    /// Zero or more repetitions of the content.
    pub fn repeat(content: Rule) -> (r: Rule)
        ensures
            r@ == RuleView::Repeat(Box::new(content@)),
    {
        Rule::Repeat(Box::new(content))
    }

    /// A reference by name.
    pub fn named(name: &str) -> (r: Rule)
        ensures
            r@ == RuleView::NamedSymbol(name@),
    {
        Rule::NamedSymbol(String::from_str(name))
    }

    /// A string literal.
    pub fn string(value: &str) -> (r: Rule)
        ensures
            r@ == RuleView::Literal(value@),
    {
        Rule::Literal(String::from_str(value))
    }

    /// A regular expression.
    pub fn pattern(value: &str) -> (r: Rule)
        ensures
            r@ == RuleView::Pattern(value@),
    {
        Rule::Pattern(String::from_str(value))
    }

    pub fn non_terminal(index: usize) -> (r: Rule)
        ensures
            r@ == RuleView::Symbol(Symbol { kind: SymbolType::NonTerminal, index }),
    {
        Rule::Symbol(Symbol::non_terminal(index))
    }

    pub fn external(index: usize) -> (r: Rule)
        ensures
            r@ == RuleView::Symbol(Symbol { kind: SymbolType::External, index }),
    {
        Rule::Symbol(Symbol::external(index))
    }
}

impl MetadataParams {
    /// A field-by-field copy.
    pub fn duplicate(&self) -> (r: MetadataParams)
        ensures
            r == *self,
    {
        let field_name = match &self.field_name {
            Some(f) => Some(f.clone()),
            None => None,
        };
        MetadataParams { precedence: self.precedence, field_name, is_token: self.is_token }
    }
}

/// `views_of` keeps the length and takes the model of each element.
pub proof fn lemma_views_of(rules: Seq<Rule>)
    ensures
        views_of(rules).len() == rules.len(),
        forall|i: int| 0 <= i < rules.len() ==> #[trigger] views_of(rules)[i] == rules[i]@,
    decreases rules.len(),
{
    if rules.len() > 0 {
        let front = rules.subrange(0, rules.len() - 1);
        lemma_views_of(front);
        assert(views_of(rules) == views_of(front).push(rules[rules.len() - 1]@));
        assert forall|i: int| 0 <= i < rules.len() implies #[trigger] views_of(rules)[i]
            == rules[i]@ by {
            if i < rules.len() - 1 {
                assert(front[i] == rules[i]);
            }
        }
    }
}

} // verus!
