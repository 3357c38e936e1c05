//! Resolution of names to symbols, and the rewriting of rule trees and
//! grammars that it drives.
use vstd::prelude::*;
use crate::error::{Error, ErrorView};
use crate::grammars::{
    InputGrammar, InputGrammarView, InternedGrammar, InternedGrammarView, Variable, VariableType,
    VariableView, strings_view,
};
use crate::rules::{Rule, RuleView, Symbol, SymbolType, lemma_views_of, views_of};

verus! {

/// A name that starts with an underscore is hidden.
pub open spec fn is_hidden_name(name: Seq<char>) -> bool {
    name.len() > 0 && name[0] == '_'
}

/// The kind a variable of this name gets.
pub open spec fn variable_type_of(name: Seq<char>) -> VariableType {
    if is_hidden_name(name) {
        VariableType::Hidden
    } else {
        VariableType::Named
    }
}

/// Variable `i` of `g` carries `name`.
pub open spec fn declares_variable(g: InputGrammarView, name: Seq<char>, i: int) -> bool {
    0 <= i < g.variables.len() && g.variables[i].name == name
}

/// External token `i` of `g` is a reference to `name`.
pub open spec fn declares_external(g: InputGrammarView, name: Seq<char>, i: int) -> bool {
    0 <= i < g.external_tokens.len() && g.external_tokens[i] == RuleView::NamedSymbol(name)
}

/// No variable before `i` carries `name`, and variable `i` does.
pub open spec fn first_variable(g: InputGrammarView, name: Seq<char>, i: int) -> bool {
    declares_variable(g, name, i) && forall|j: int| 0 <= j < i ==> !declares_variable(g, name, j)
}

/// No external token before `i` refers to `name`, and token `i` does.
pub open spec fn first_external(g: InputGrammarView, name: Seq<char>, i: int) -> bool {
    declares_external(g, name, i) && forall|j: int| 0 <= j < i ==> !declares_external(g, name, j)
}

/// What `name` denotes in `g`: the first variable of that name; failing
/// that, the first external token of that name; failing that, nothing.
pub open spec fn resolve(g: InputGrammarView, name: Seq<char>) -> Option<Symbol> {
    if exists|i: int| declares_variable(g, name, i) {
        let i = choose|i: int| first_variable(g, name, i);
        Some(Symbol { kind: SymbolType::NonTerminal, index: i as usize })
    } else if exists|i: int| declares_external(g, name, i) {
        let i = choose|i: int| first_external(g, name, i);
        Some(Symbol { kind: SymbolType::External, index: i as usize })
    } else {
        None
    }
}

/// A rule tree with every name replaced by its symbol, or the first name
/// (left to right, outside in) that does not resolve.
pub open spec fn intern_view(g: InputGrammarView, r: RuleView) -> Result<RuleView, Seq<char>>
    decreases r,
{
    match r {
        RuleView::Choice(s) => match intern_list(g, s) {
            Ok(t) => Ok(RuleView::Choice(t)),
            Err(n) => Err(n),
        },
        RuleView::Sequence(s) => match intern_list(g, s) {
            Ok(t) => Ok(RuleView::Sequence(t)),
            Err(n) => Err(n),
        },
        RuleView::Repeat(inner) => match intern_view(g, *inner) {
            Ok(t) => Ok(RuleView::Repeat(Box::new(t))),
            Err(n) => Err(n),
        },
        RuleView::Metadata { params, rule } => match intern_view(g, *rule) {
            Ok(t) => Ok(RuleView::Metadata { params, rule: Box::new(t) }),
            Err(n) => Err(n),
        },
        RuleView::NamedSymbol(name) => match resolve(g, name) {
            Some(sym) => Ok(RuleView::Symbol(sym)),
            None => Err(name),
        },
        _ => Ok(r),
    }
}

/// `intern_view` on each rule of a list, stopping at the first failure.
pub open spec fn intern_list(g: InputGrammarView, s: Seq<RuleView>) -> Result<
    Seq<RuleView>,
    Seq<char>,
>
    decreases s,
{
    if s.len() == 0 {
        Ok(Seq::empty())
    } else {
        match intern_list(g, s.subrange(0, s.len() - 1)) {
            Err(n) => Err(n),
            Ok(front) => match intern_view(g, s[s.len() - 1]) {
                Err(n) => Err(n),
                Ok(t) => Ok(front.push(t)),
            },
        }
    }
}

/// `r` is what `expected` describes: the same rule, or an undefined-symbol
/// error for the same name.
pub open spec fn interned_as<T: View>(expected: Result<T::V, Seq<char>>, r: Result<T, Error>) -> bool {
    match expected {
        Ok(t) => r is Ok && r->Ok_0@ == t,
        Err(n) => r is Err && r->Err_0@ == ErrorView::UndefinedSymbol(n),
    }
}

/// A failure in a prefix of a list is the failure of the whole list.
pub proof fn lemma_intern_list_err(g: InputGrammarView, s: Seq<RuleView>, k: int)
    requires
        0 <= k <= s.len(),
        intern_list(g, s.subrange(0, k)) is Err,
    ensures
        intern_list(g, s) == intern_list(g, s.subrange(0, k)),
    decreases s.len(),
{
    if k == s.len() {
        assert(s.subrange(0, k) =~= s);
    } else {
        let front = s.subrange(0, s.len() - 1);
        assert(front.subrange(0, k) =~= s.subrange(0, k));
        lemma_intern_list_err(g, front, k);
    }
}

/// `resolve` on each name of a list, stopping at the first that fails.
pub open spec fn resolve_list(g: InputGrammarView, names: Seq<Seq<char>>) -> Result<
    Seq<Symbol>,
    Seq<char>,
>
    decreases names.len(),
{
    if names.len() == 0 {
        Ok(Seq::empty())
    } else {
        match resolve_list(g, names.subrange(0, names.len() - 1)) {
            Err(n) => Err(n),
            Ok(front) => match resolve(g, names[names.len() - 1]) {
                Some(sym) => Ok(front.push(sym)),
                None => Err(names[names.len() - 1]),
            },
        }
    }
}

/// `resolve_list` on each group of names, stopping at the first failure.
pub open spec fn resolve_groups(g: InputGrammarView, groups: Seq<Seq<Seq<char>>>) -> Result<
    Seq<Seq<Symbol>>,
    Seq<char>,
>
    decreases groups.len(),
{
    if groups.len() == 0 {
        Ok(Seq::empty())
    } else {
        match resolve_groups(g, groups.subrange(0, groups.len() - 1)) {
            Err(n) => Err(n),
            Ok(front) => match resolve_list(g, groups[groups.len() - 1]) {
                Ok(syms) => Ok(front.push(syms)),
                Err(n) => Err(n),
            },
        }
    }
}

/// The symbols of the names that resolve, in order; the others are left out.
pub open spec fn resolve_some(g: InputGrammarView, names: Seq<Seq<char>>) -> Seq<Symbol>
    decreases names.len(),
{
    if names.len() == 0 {
        Seq::empty()
    } else {
        let front = resolve_some(g, names.subrange(0, names.len() - 1));
        match resolve(g, names[names.len() - 1]) {
            Some(sym) => front.push(sym),
            None => front,
        }
    }
}

/// The variable made of an external token and its interned rule.
pub open spec fn external_variable(token: RuleView, rule: RuleView) -> VariableView {
    match token {
        RuleView::NamedSymbol(name) => VariableView { name, kind: variable_type_of(name), rule },
        _ => VariableView { name: Seq::empty(), kind: VariableType::Anonymous, rule },
    }
}

/// The rules of the variables, in order.
pub open spec fn variable_rules(g: InputGrammarView) -> Seq<RuleView> {
    g.variables.map_values(|v: VariableView| v.rule)
}

/// The symbol of the word token, if the grammar names one.
pub open spec fn resolve_word(g: InputGrammarView) -> Result<Option<Symbol>, Seq<char>> {
    match g.word_token {
        Some(n) => match resolve(g, n) {
            Some(sym) => Ok(Some(sym)),
            None => Err(n),
        },
        None => Ok(None),
    }
}

/// The interned form of a grammar, or the first error met: a hidden start
/// rule, then an undefined name in the variables, the external tokens, the
/// extra tokens, the supertypes, the expected conflicts and the word token,
/// in that order. Names to inline that do not resolve are dropped.
pub open spec fn intern_grammar(g: InputGrammarView) -> Result<InternedGrammarView, ErrorView> {
    let vars = intern_list(g, variable_rules(g));
    let exts = intern_list(g, g.external_tokens);
    let extras = intern_list(g, g.extra_tokens);
    let supers = resolve_list(g, g.supertype_symbols);
    let conflicts = resolve_groups(g, g.expected_conflicts);
    let word = resolve_word(g);
    if g.variables.len() > 0 && is_hidden_name(g.variables[0].name) {
        Err(ErrorView::InvalidStartRule)
    } else if vars is Err {
        Err(ErrorView::UndefinedSymbol(vars->Err_0))
    } else if exts is Err {
        Err(ErrorView::UndefinedSymbol(exts->Err_0))
    } else if extras is Err {
        Err(ErrorView::UndefinedSymbol(extras->Err_0))
    } else if supers is Err {
        Err(ErrorView::UndefinedSymbol(supers->Err_0))
    } else if conflicts is Err {
        Err(ErrorView::UndefinedSymbol(conflicts->Err_0))
    } else if word is Err {
        Err(ErrorView::UndefinedSymbol(word->Err_0))
    } else {
        Ok(
            InternedGrammarView {
                variables: Seq::new(
                    g.variables.len(),
                    |i: int|
                        VariableView {
                            name: g.variables[i].name,
                            kind: variable_type_of(g.variables[i].name),
                            rule: vars->Ok_0[i],
                        },
                ),
                external_tokens: Seq::new(
                    g.external_tokens.len(),
                    |i: int| external_variable(g.external_tokens[i], exts->Ok_0[i]),
                ),
                extra_tokens: extras->Ok_0,
                expected_conflicts: conflicts->Ok_0,
                variables_to_inline: resolve_some(g, g.variables_to_inline),
                supertype_symbols: supers->Ok_0,
                word_token: word->Ok_0,
            },
        )
    }
}

/// `r` is the outcome that `intern_grammar` gives for `g`.
pub open spec fn interns_to(g: InputGrammarView, r: Result<InternedGrammar, Error>) -> bool {
    match intern_grammar(g) {
        Ok(t) => r is Ok && r->Ok_0@ == t,
        Err(e) => r is Err && r->Err_0@ == e,
    }
}

/// A successful `intern_list` keeps the length and interns each element.
pub proof fn lemma_intern_list_ok(g: InputGrammarView, s: Seq<RuleView>)
    requires
        intern_list(g, s) is Ok,
    ensures
        intern_list(g, s)->Ok_0.len() == s.len(),
        forall|i: int|
            0 <= i < s.len() ==> intern_view(g, #[trigger] s[i]) == Ok::<RuleView, Seq<char>>(
                intern_list(g, s)->Ok_0[i],
            ),
    decreases s.len(),
{
    if s.len() > 0 {
        let front = s.subrange(0, s.len() - 1);
        lemma_intern_list_ok(g, front);
        assert forall|i: int| 0 <= i < s.len() implies intern_view(g, #[trigger] s[i]) == Ok::<
            RuleView,
            Seq<char>,
        >(intern_list(g, s)->Ok_0[i]) by {
            if i < s.len() - 1 {
                assert(front[i] == s[i]);
            }
        }
    }
}

/// A failure in a prefix of a list of names is the failure of the whole list.
pub proof fn lemma_resolve_list_err(g: InputGrammarView, s: Seq<Seq<char>>, k: int)
    requires
        0 <= k <= s.len(),
        resolve_list(g, s.subrange(0, k)) is Err,
    ensures
        resolve_list(g, s) == resolve_list(g, s.subrange(0, k)),
    decreases s.len(),
{
    if k == s.len() {
        assert(s.subrange(0, k) =~= s);
    } else {
        let front = s.subrange(0, s.len() - 1);
        assert(front.subrange(0, k) =~= s.subrange(0, k));
        lemma_resolve_list_err(g, front, k);
    }
}

/// A failure in a prefix of a list of groups is the failure of the whole list.
pub proof fn lemma_resolve_groups_err(g: InputGrammarView, s: Seq<Seq<Seq<char>>>, k: int)
    requires
        0 <= k <= s.len(),
        resolve_groups(g, s.subrange(0, k)) is Err,
    ensures
        resolve_groups(g, s) == resolve_groups(g, s.subrange(0, k)),
    decreases s.len(),
{
    if k == s.len() {
        assert(s.subrange(0, k) =~= s);
    } else {
        let front = s.subrange(0, s.len() - 1);
        assert(front.subrange(0, k) =~= s.subrange(0, k));
        lemma_resolve_groups_err(g, front, k);
    }
}

/// Hidden for a name that starts with an underscore, named otherwise.
pub fn variable_type_for_name(name: &str) -> (r: VariableType)
    ensures
        r == variable_type_of(name@),
{
    if name.unicode_len() > 0 && name.get_char(0) == '_' {
        VariableType::Hidden
    } else {
        VariableType::Named
    }
}

/// Resolves names against the declarations of one grammar.
pub struct Interner<'a> {
    pub grammar: &'a InputGrammar,
}

impl<'a> Interner<'a> {
    /// Rewrites each rule of a list in order, stopping at the first failure.
    fn intern_rules(&self, elements: &Vec<Rule>) -> (r: Result<Vec<Rule>, Error>)
        ensures
            match intern_list(self.grammar@, views_of(elements@)) {
                Ok(t) => r is Ok && views_of(r->Ok_0@) == t,
                Err(n) => r is Err && r->Err_0@ == ErrorView::UndefinedSymbol(n),
            },
        decreases elements, 0nat,
    {
        let ghost g = self.grammar@;
        let ghost vs = views_of(elements@);
        proof {
            lemma_views_of(elements@);
        }
        let mut result: Vec<Rule> = Vec::with_capacity(elements.len());
        let mut i: usize = 0;
        while i < elements.len()
            invariant
                g == self.grammar@,
                vs == views_of(elements@),
                vs.len() == elements.len(),
                forall|j: int| 0 <= j < elements.len() ==> #[trigger] vs[j] == elements@[j]@,
                i <= elements.len(),
                intern_list(g, vs.subrange(0, i as int)) == Ok::<Seq<RuleView>, Seq<char>>(
                    views_of(result@),
                ),
            decreases elements.len() - i,
        {
            proof {
                assert(decreases_to!(elements => elements[i as int]));
            }
            let item = self.intern_rule(&elements[i]);
            let ghost front = vs.subrange(0, i as int);
            proof {
                assert(vs.subrange(0, i + 1).subrange(0, i as int) =~= front);
                assert(vs.subrange(0, i + 1)[i as int] == elements@[i as int]@);
            }
            match item {
                Ok(t) => {
                    let ghost before = result@;
                    result.push(t);
                    proof {
                        assert(result@.subrange(0, result@.len() - 1) =~= before);
                    }
                },
                Err(e) => {
                    proof {
                        lemma_intern_list_err(g, vs, i + 1);
                    }
                    return Err(e);
                },
            }
            i = i + 1;
        }
        proof {
            assert(vs.subrange(0, i as int) =~= vs);
        }
        Ok(result)
    }

    /// Resolves each name of a list in order, stopping at the first that fails.
    fn intern_names(&self, names: &Vec<String>) -> (r: Result<Vec<Symbol>, Error>)
        ensures
            match resolve_list(self.grammar@, strings_view(names@)) {
                Ok(t) => r is Ok && r->Ok_0@ == t,
                Err(n) => r is Err && r->Err_0@ == ErrorView::UndefinedSymbol(n),
            },
    {
        let ghost g = self.grammar@;
        let ghost ns = strings_view(names@);
        let mut result: Vec<Symbol> = Vec::with_capacity(names.len());
        let mut i: usize = 0;
        while i < names.len()
            invariant
                g == self.grammar@,
                ns == strings_view(names@),
                i <= names.len(),
                resolve_list(g, ns.subrange(0, i as int)) == Ok::<Seq<Symbol>, Seq<char>>(
                    result@,
                ),
            decreases names.len() - i,
        {
            let found = self.intern_name(&names[i]);
            proof {
                assert(ns.subrange(0, i + 1).subrange(0, i as int) =~= ns.subrange(0, i as int));
                assert(ns.subrange(0, i + 1)[i as int] == names@[i as int]@);
            }
            match found {
                Some(symbol) => {
                    result.push(symbol);
                },
                None => {
                    proof {
                        lemma_resolve_list_err(g, ns, i + 1);
                    }
                    return Err(Error::UndefinedSymbol(names[i].clone()));
                },
            }
            i = i + 1;
        }
        proof {
            assert(ns.subrange(0, i as int) =~= ns);
        }
        Ok(result)
    }

    /// The rule with every name replaced by its symbol, or an
    /// undefined-symbol error for the first name that does not resolve.
    pub fn intern_rule(&self, rule: &Rule) -> (r: Result<Rule, Error>)
        ensures
            interned_as(intern_view(self.grammar@, rule@), r),
        decreases rule, 1nat,
    {
        match rule {
            Rule::Choice(elements) => match self.intern_rules(elements) {
                Ok(result) => Ok(Rule::Choice(result)),
                Err(e) => Err(e),
            },
            Rule::Sequence(elements) => match self.intern_rules(elements) {
                Ok(result) => Ok(Rule::Sequence(result)),
                Err(e) => Err(e),
            },
            Rule::Repeat(content) => match self.intern_rule(content) {
                Ok(result) => Ok(Rule::Repeat(Box::new(result))),
                Err(e) => Err(e),
            },
            Rule::Metadata { rule, params } => match self.intern_rule(rule) {
                Ok(result) => Ok(Rule::Metadata { rule: Box::new(result), params: params.duplicate() }),
                Err(e) => Err(e),
            },
            Rule::NamedSymbol(name) => {
                if let Some(symbol) = self.intern_name(name) {
                    Ok(Rule::Symbol(symbol))
                } else {
                    Err(Error::UndefinedSymbol(name.clone()))
                }
            },
            Rule::Blank => Ok(Rule::Blank),
            Rule::Literal(s) => Ok(Rule::Literal(s.clone())),
            Rule::Pattern(s) => Ok(Rule::Pattern(s.clone())),
            Rule::Symbol(s) => Ok(Rule::Symbol(*s)),
        }
    }

    /// The symbol that a name denotes in the grammar, if any (`resolve`).
    pub fn intern_name(&self, symbol: &String) -> (r: Option<Symbol>)
        ensures
            r == resolve(self.grammar@, symbol@),
    {
        let ghost g = self.grammar@;
        let variables = &self.grammar.variables;
        let mut i: usize = 0;
        while i < variables.len()
            invariant
                g == self.grammar@,
                variables == self.grammar.variables,
                i <= variables.len(),
                forall|j: int| 0 <= j < i ==> !declares_variable(g, symbol@, j),
            decreases variables.len() - i,
        {
            if variables[i].name == *symbol {
                assert(first_variable(g, symbol@, i as int));
                return Some(Symbol::non_terminal(i));
            }
            i = i + 1;
        }
        let externals = &self.grammar.external_tokens;
        proof {
            lemma_views_of(externals@);
        }
        let mut k: usize = 0;
        while k < externals.len()
            invariant
                g == self.grammar@,
                externals == self.grammar.external_tokens,
                k <= externals.len(),
                g.external_tokens == views_of(externals@),
                g.external_tokens.len() == externals.len(),
                forall|j: int| 0 <= j < g.external_tokens.len() ==> #[trigger] g.external_tokens[j] == externals@[j]@,
                forall|j: int| 0 <= j < g.variables.len() ==> !declares_variable(g, symbol@, j),
                forall|j: int| 0 <= j < k ==> !declares_external(g, symbol@, j),
            decreases externals.len() - k,
        {
            if let Rule::NamedSymbol(name) = &externals[k] {
                if *name == *symbol {
                    assert(g.external_tokens[k as int] == RuleView::NamedSymbol(name@));
                    assert(first_external(g, symbol@, k as int));
                    return Some(Symbol::external(k));
                }
            }
            k = k + 1;
        }
        None
    }
}

/// Interns every collection of a grammar: the result is `intern_grammar`
/// of its model, an interned grammar or the first error met.
#[verifier::loop_isolation(false)]
pub fn intern_symbols(grammar: &InputGrammar) -> (r: Result<InternedGrammar, Error>)
    requires
        grammar.variables.len() > 0,
    ensures
        interns_to(grammar@, r),
{
    let ghost g = grammar@;
    let interner = Interner { grammar };

    if variable_type_for_name(grammar.variables[0].name.as_str()) == VariableType::Hidden {
        return Err(Error::InvalidStartRule);
    }

    // The variables.
    let ghost vrules = variable_rules(g);
    let mut variables: Vec<Variable> = Vec::with_capacity(grammar.variables.len());
    let mut i: usize = 0;
    while i < grammar.variables.len()
        invariant
            g == grammar@,
            interner.grammar == grammar,
            vrules == variable_rules(g),
            !(g.variables.len() > 0 && is_hidden_name(g.variables[0].name)),
            i <= grammar.variables.len(),
            intern_list(g, vrules.subrange(0, i as int)) is Ok,
            variables.len() == i,
            forall|j: int|
                0 <= j < i ==> #[trigger] variables@[j]@ == (VariableView {
                    name: g.variables[j].name,
                    kind: variable_type_of(g.variables[j].name),
                    rule: intern_list(g, vrules.subrange(0, i as int))->Ok_0[j],
                }),
        decreases grammar.variables.len() - i,
    {
        let variable = &grammar.variables[i];
        let rule = interner.intern_rule(&variable.rule);
        let ghost front = vrules.subrange(0, i as int);
        proof {
            assert(vrules.subrange(0, i + 1).subrange(0, i as int) =~= front);
            assert(vrules.subrange(0, i + 1)[i as int] == variable.rule@);
        }
        match rule {
            Ok(rule) => {
                let kind = variable_type_for_name(variable.name.as_str());
                let ghost before = variables@;
                proof {
                    lemma_intern_list_ok(g, front);
                    assert(intern_list(g, vrules.subrange(0, i + 1)) == Ok::<
                        Seq<RuleView>,
                        Seq<char>,
                    >(intern_list(g, front)->Ok_0.push(rule@)));
                }
                variables.push(Variable { name: variable.name.clone(), kind, rule });
                proof {
                    assert forall|j: int| 0 <= j < i + 1 implies #[trigger] variables@[j]@
                        == (VariableView {
                        name: g.variables[j].name,
                        kind: variable_type_of(g.variables[j].name),
                        rule: intern_list(g, vrules.subrange(0, i + 1))->Ok_0[j],
                    }) by {
                        if j < i {
                            assert(variables@[j] == before[j]);
                        }
                    }
                }
            },
            Err(e) => {
                proof {
                    lemma_intern_list_err(g, vrules, i + 1);
                }
                return Err(e);
            },
        }
        i = i + 1;
    }
    proof {
        assert(vrules.subrange(0, i as int) =~= vrules);
    }

    // The external tokens.
    let externals = &grammar.external_tokens;
    let ghost es = g.external_tokens;
    proof {
        lemma_views_of(externals@);
    }
    let mut external_tokens: Vec<Variable> = Vec::with_capacity(externals.len());
    let mut k: usize = 0;
    while k < externals.len()
        invariant
            g == grammar@,
            interner.grammar == grammar,
            externals == grammar.external_tokens,
            es == g.external_tokens,
            es == views_of(externals@),
            es.len() == externals.len(),
            forall|j: int| 0 <= j < externals.len() ==> #[trigger] es[j] == externals@[j]@,
            intern_list(g, vrules) is Ok,
            k <= externals.len(),
            intern_list(g, es.subrange(0, k as int)) is Ok,
            external_tokens.len() == k,
            forall|j: int|
                0 <= j < k ==> #[trigger] external_tokens@[j]@ == external_variable(
                    es[j],
                    intern_list(g, es.subrange(0, k as int))->Ok_0[j],
                ),
        decreases externals.len() - k,
    {
        let external_token = &externals[k];
        let rule = interner.intern_rule(external_token);
        let ghost front = es.subrange(0, k as int);
        proof {
            assert(es.subrange(0, k + 1).subrange(0, k as int) =~= front);
            assert(es.subrange(0, k + 1)[k as int] == external_token@);
        }
        match rule {
            Ok(rule) => {
                let ghost before = external_tokens@;
                proof {
                    lemma_intern_list_ok(g, front);
                    assert(intern_list(g, es.subrange(0, k + 1)) == Ok::<
                        Seq<RuleView>,
                        Seq<char>,
                    >(intern_list(g, front)->Ok_0.push(rule@)));
                }
                let (name, kind) = if let Rule::NamedSymbol(name) = external_token {
                    (name.clone(), variable_type_for_name(name.as_str()))
                } else {
                    (String::new(), VariableType::Anonymous)
                };
                external_tokens.push(Variable { name, kind, rule });
                proof {
                    assert forall|j: int| 0 <= j < k + 1 implies #[trigger] external_tokens@[j]@
                        == external_variable(
                        es[j],
                        intern_list(g, es.subrange(0, k + 1))->Ok_0[j],
                    ) by {
                        if j < k {
                            assert(external_tokens@[j] == before[j]);
                        }
                    }
                }
            },
            Err(e) => {
                proof {
                    lemma_intern_list_err(g, es, k + 1);
                }
                return Err(e);
            },
        }
        k = k + 1;
    }
    proof {
        assert(es.subrange(0, k as int) =~= es);
    }

    // The extra tokens.
    let extra_tokens = match interner.intern_rules(&grammar.extra_tokens) {
        Ok(rules) => rules,
        Err(e) => {
            return Err(e);
        },
    };

    // The supertypes.
    let supertype_symbols = match interner.intern_names(&grammar.supertype_symbols) {
        Ok(symbols) => symbols,
        Err(e) => {
            return Err(e);
        },
    };

    // The expected conflicts.
    let groups = &grammar.expected_conflicts;
    let ghost gs = g.expected_conflicts;
    let mut expected_conflicts: Vec<Vec<Symbol>> = Vec::new();
    proof {
        assert(expected_conflicts@.map_values(|x: Vec<Symbol>| x@) =~= Seq::empty());
    }
    let mut c: usize = 0;
    while c < groups.len()
        invariant
            g == grammar@,
            interner.grammar == grammar,
            groups == grammar.expected_conflicts,
            gs == g.expected_conflicts,
            c <= groups.len(),
            resolve_groups(g, gs.subrange(0, c as int)) == Ok::<Seq<Seq<Symbol>>, Seq<char>>(
                expected_conflicts@.map_values(|x: Vec<Symbol>| x@),
            ),
        decreases groups.len() - c,
    {
        let group = interner.intern_names(&groups[c]);
        proof {
            assert(gs.subrange(0, c + 1).subrange(0, c as int) =~= gs.subrange(0, c as int));
            assert(gs.subrange(0, c + 1)[c as int] == strings_view(groups@[c as int]@));
        }
        match group {
            Ok(symbols) => {
                let ghost before = expected_conflicts@;
                expected_conflicts.push(symbols);
                proof {
                    assert(expected_conflicts@.map_values(|x: Vec<Symbol>| x@) =~= before.map_values(
                        |x: Vec<Symbol>| x@,
                    ).push(symbols@));
                }
            },
            Err(e) => {
                proof {
                    lemma_resolve_groups_err(g, gs, c + 1);
                }
                return Err(e);
            },
        }
        c = c + 1;
    }
    proof {
        assert(gs.subrange(0, c as int) =~= gs);
    }

    // The names to inline: those that do not resolve are dropped.
    let inline_names = &grammar.variables_to_inline;
    let ghost ns = g.variables_to_inline;
    let mut variables_to_inline: Vec<Symbol> = Vec::new();
    let mut n: usize = 0;
    while n < inline_names.len()
        invariant
            g == grammar@,
            interner.grammar == grammar,
            inline_names == grammar.variables_to_inline,
            ns == g.variables_to_inline,
            n <= inline_names.len(),
            variables_to_inline@ == resolve_some(g, ns.subrange(0, n as int)),
        decreases inline_names.len() - n,
    {
        let found = interner.intern_name(&inline_names[n]);
        proof {
            assert(ns.subrange(0, n + 1).subrange(0, n as int) =~= ns.subrange(0, n as int));
            assert(ns.subrange(0, n + 1)[n as int] == inline_names@[n as int]@);
        }
        if let Some(symbol) = found {
            variables_to_inline.push(symbol);
        }
        n = n + 1;
    }
    proof {
        assert(ns.subrange(0, n as int) =~= ns);
    }

    // The word token.
    let mut word_token: Option<Symbol> = None;
    if let Some(name) = &grammar.word_token {
        match interner.intern_name(name) {
            Some(symbol) => {
                word_token = Some(symbol);
            },
            None => {
                return Err(Error::UndefinedSymbol(name.clone()));
            },
        }
    }
    let result = InternedGrammar {
        variables,
        external_tokens,
        extra_tokens,
        expected_conflicts,
        variables_to_inline,
        supertype_symbols,
        word_token,
    };
    proof {
        let t = intern_grammar(g)->Ok_0;
        lemma_intern_list_ok(g, vrules);
        lemma_intern_list_ok(g, es);
        assert(result@.variables =~= t.variables);
        assert(result@.external_tokens =~= t.external_tokens);
    }
    Ok(result)
}

} // verus!
