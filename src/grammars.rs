//! Grammars before and after interning, and their models.
use vstd::prelude::*;
use crate::rules::{Rule, RuleView, Symbol, views_of};

verus! {

/// How a variable shows in the syntax tree.
#[derive(Clone, Copy, Debug, PartialEq, Eq, Structural, Hash)]
pub enum VariableType {
    Hidden,
    Anonymous,
    Named,
}

/// A named rule of a grammar.
#[derive(Debug, PartialEq, Eq)]
pub struct Variable {
    pub name: String,
    pub kind: VariableType,
    pub rule: Rule,
}

/// The model of a variable.
pub struct VariableView {
    pub name: Seq<char>,
    pub kind: VariableType,
    pub rule: RuleView,
}

impl View for Variable {
    type V = VariableView;

    open spec fn view(&self) -> VariableView {
        VariableView { name: self.name@, kind: self.kind, rule: self.rule@ }
    }
}

impl Variable {
    pub fn named(name: &str, rule: Rule) -> (r: Variable)
        ensures
            r.name@ == name@,
            r.kind == VariableType::Named,
            r.rule == rule,
    {
        Variable { name: String::from_str(name), kind: VariableType::Named, rule }
    }

    pub fn hidden(name: &str, rule: Rule) -> (r: Variable)
        ensures
            r.name@ == name@,
            r.kind == VariableType::Hidden,
            r.rule == rule,
    {
        Variable { name: String::from_str(name), kind: VariableType::Hidden, rule }
    }
}

/// The characters of each string of a list.
pub open spec fn strings_view(s: Seq<String>) -> Seq<Seq<char>> {
    s.map_values(|x: String| x@)
}

/// A grammar as it is written: rules refer to each other by name.
#[derive(Debug, PartialEq, Eq)]
pub struct InputGrammar {
    pub name: String,
    pub variables: Vec<Variable>,
    pub extra_tokens: Vec<Rule>,
    pub expected_conflicts: Vec<Vec<String>>,
    pub external_tokens: Vec<Rule>,
    pub variables_to_inline: Vec<String>,
    pub supertype_symbols: Vec<String>,
    pub word_token: Option<String>,
}

/// The model of an input grammar: every string seen as its characters.
pub struct InputGrammarView {
    pub name: Seq<char>,
    pub variables: Seq<VariableView>,
    pub extra_tokens: Seq<RuleView>,
    pub expected_conflicts: Seq<Seq<Seq<char>>>,
    pub external_tokens: Seq<RuleView>,
    pub variables_to_inline: Seq<Seq<char>>,
    pub supertype_symbols: Seq<Seq<char>>,
    pub word_token: Option<Seq<char>>,
}

impl View for InputGrammar {
    type V = InputGrammarView;

    open spec fn view(&self) -> InputGrammarView {
        InputGrammarView {
            name: self.name@,
            variables: self.variables@.map_values(|v: Variable| v@),
            extra_tokens: views_of(self.extra_tokens@),
            expected_conflicts: self.expected_conflicts@.map_values(
                |c: Vec<String>| strings_view(c@),
            ),
            external_tokens: views_of(self.external_tokens@),
            variables_to_inline: strings_view(self.variables_to_inline@),
            supertype_symbols: strings_view(self.supertype_symbols@),
            word_token: match self.word_token {
                Some(w) => Some(w@),
                None => None,
            },
        }
    }
}

/// A grammar whose every reference is a symbol.
#[derive(Debug, PartialEq, Eq)]
pub struct InternedGrammar {
    pub variables: Vec<Variable>,
    pub external_tokens: Vec<Variable>,
    pub extra_tokens: Vec<Rule>,
    pub expected_conflicts: Vec<Vec<Symbol>>,
    pub variables_to_inline: Vec<Symbol>,
    pub supertype_symbols: Vec<Symbol>,
    pub word_token: Option<Symbol>,
}

/// The model of an interned grammar.
pub struct InternedGrammarView {
    pub variables: Seq<VariableView>,
    pub external_tokens: Seq<VariableView>,
    pub extra_tokens: Seq<RuleView>,
    pub expected_conflicts: Seq<Seq<Symbol>>,
    pub variables_to_inline: Seq<Symbol>,
    pub supertype_symbols: Seq<Symbol>,
    pub word_token: Option<Symbol>,
}

impl View for InternedGrammar {
    type V = InternedGrammarView;

    open spec fn view(&self) -> InternedGrammarView {
        InternedGrammarView {
            variables: self.variables@.map_values(|v: Variable| v@),
            external_tokens: self.external_tokens@.map_values(|v: Variable| v@),
            extra_tokens: views_of(self.extra_tokens@),
            expected_conflicts: self.expected_conflicts@.map_values(|c: Vec<Symbol>| c@),
            variables_to_inline: self.variables_to_inline@,
            supertype_symbols: self.supertype_symbols@,
            word_token: self.word_token,
        }
    }
}

} // verus!
