//! Properties of interning that relate several results or hold of every
//! grammar.
use vstd::prelude::*;
use crate::error::{Error, ErrorView};
use crate::grammars::{InputGrammarView, InternedGrammar, InternedGrammarView};
use crate::intern_symbols::{
    declares_external, declares_variable, first_external, first_variable, intern_grammar, intern_list,
    intern_view, interns_to, is_hidden_name, lemma_intern_list_ok, resolve, resolve_some,
    variable_rules,
};
use crate::rules::{RuleView, Symbol, SymbolType};

verus! {

/// Interning one grammar twice gives equal outcomes.
pub proof fn lemma_deterministic(
    g: InputGrammarView,
    r1: Result<InternedGrammar, Error>,
    r2: Result<InternedGrammar, Error>,
)
    requires
        interns_to(g, r1),
        interns_to(g, r2),
    ensures
        r1 is Ok <==> r2 is Ok,
        r1 is Ok ==> r1->Ok_0@ == r2->Ok_0@,
        r1 is Err ==> r1->Err_0@ == r2->Err_0@,
{
}

/// A non-terminal symbol points at a variable of the name it was resolved
/// from, an external symbol at an external token of that name; and the
/// first variable of a name is the one its references get.
pub proof fn lemma_index_fidelity(g: InputGrammarView, name: Seq<char>)
    requires
        g.variables.len() <= usize::MAX,
        g.external_tokens.len() <= usize::MAX,
    ensures
        resolve(g, name) matches Some(s) ==> (s.kind == SymbolType::NonTerminal
            && declares_variable(g, name, s.index as int)) || (s.kind == SymbolType::External
            && declares_external(g, name, s.index as int)),
        forall|i: int|
            first_variable(g, name, i) ==> resolve(g, name) == Some(
                Symbol { kind: SymbolType::NonTerminal, index: i as usize },
            ),
{
    if exists|i: int| declares_variable(g, name, i) {
        lemma_first_variable_exists(g, name);
        let k = choose|i: int| first_variable(g, name, i);
        assert forall|i: int| first_variable(g, name, i) implies i == k by {
            if i < k {
                assert(declares_variable(g, name, i));
            } else if k < i {
                assert(declares_variable(g, name, k));
            }
        }
    } else if exists|i: int| declares_external(g, name, i) {
        lemma_first_external_exists(g, name);
    }
}

proof fn lemma_first_variable_exists(g: InputGrammarView, name: Seq<char>)
    requires
        exists|i: int| declares_variable(g, name, i),
    ensures
        exists|i: int| first_variable(g, name, i),
{
    let w = choose|i: int| declares_variable(g, name, i);
    lemma_first_variable_below(g, name, w);
}

proof fn lemma_first_variable_below(g: InputGrammarView, name: Seq<char>, w: int)
    requires
        declares_variable(g, name, w),
    ensures
        exists|i: int| first_variable(g, name, i),
    decreases w,
{
    if exists|j: int| 0 <= j < w && declares_variable(g, name, j) {
        let j = choose|j: int| 0 <= j < w && declares_variable(g, name, j);
        lemma_first_variable_below(g, name, j);
    } else {
        assert(first_variable(g, name, w));
    }
}

proof fn lemma_first_external_exists(g: InputGrammarView, name: Seq<char>)
    requires
        exists|i: int| declares_external(g, name, i),
    ensures
        exists|i: int| first_external(g, name, i),
{
    let w = choose|i: int| declares_external(g, name, i);
    lemma_first_external_below(g, name, w);
}

proof fn lemma_first_external_below(g: InputGrammarView, name: Seq<char>, w: int)
    requires
        declares_external(g, name, w),
    ensures
        exists|i: int| first_external(g, name, i),
    decreases w,
{
    if exists|j: int| 0 <= j < w && declares_external(g, name, j) {
        let j = choose|j: int| 0 <= j < w && declares_external(g, name, j);
        lemma_first_external_below(g, name, j);
    } else {
        assert(first_external(g, name, w));
    }
}

/// A name that both a variable and an external token carry resolves to a
/// non-terminal.
pub proof fn lemma_variables_first(g: InputGrammarView, name: Seq<char>, i: int, j: int)
    requires
        declares_variable(g, name, i),
        declares_external(g, name, j),
    ensures
        resolve(g, name) is Some,
        resolve(g, name)->Some_0.kind == SymbolType::NonTerminal,
{
}

/// A grammar whose first variable is hidden fails with `InvalidStartRule`,
/// whatever its rules hold.
pub proof fn lemma_start_rule_guard(g: InputGrammarView)
    requires
        g.variables.len() > 0,
        is_hidden_name(g.variables[0].name),
    ensures
        intern_grammar(g) == Err::<InternedGrammarView, ErrorView>(
            ErrorView::InvalidStartRule,
        ),
{
}

/// The name a failed rewrite reports is one that does not resolve.
pub proof fn lemma_error_is_undefined(g: InputGrammarView, r: RuleView)
    ensures
        intern_view(g, r) matches Err(n) ==> resolve(g, n) is None,
    decreases r,
{
    match r {
        RuleView::Choice(s) => lemma_list_error_is_undefined(g, s),
        RuleView::Sequence(s) => lemma_list_error_is_undefined(g, s),
        RuleView::Repeat(inner) => lemma_error_is_undefined(g, *inner),
        RuleView::Metadata { params, rule } => lemma_error_is_undefined(g, *rule),
        _ => {},
    }
}

/// The name a failed rewrite of a list reports is one that does not resolve.
pub proof fn lemma_list_error_is_undefined(g: InputGrammarView, s: Seq<RuleView>)
    ensures
        intern_list(g, s) matches Err(n) ==> resolve(g, n) is None,
    decreases s,
{
    if s.len() > 0 {
        lemma_list_error_is_undefined(g, s.subrange(0, s.len() - 1));
        lemma_error_is_undefined(g, s[s.len() - 1]);
    }
}

/// A grammar with a visible start rule, one of whose variables refers to a
/// name that nothing declares, fails with an undefined-symbol error, and the
/// name it reports is declared by nothing.
pub proof fn lemma_undefined_reference(g: InputGrammarView, i: int)
    requires
        g.variables.len() > 0,
        !is_hidden_name(g.variables[0].name),
        0 <= i < g.variables.len(),
        intern_view(g, g.variables[i].rule) is Err,
    ensures
        intern_grammar(g) is Err,
        intern_grammar(g)->Err_0 is UndefinedSymbol,
        resolve(g, intern_grammar(g)->Err_0->UndefinedSymbol_0) is None,
{
    let s = variable_rules(g);
    assert(s[i] == g.variables[i].rule);
    if intern_list(g, s) is Ok {
        lemma_intern_list_ok(g, s);
    }
    lemma_list_error_is_undefined(g, s);
}

/// Of two names to inline, one that resolves and one that does not, only
/// the symbol of the first is kept, in either order.
pub proof fn lemma_inline_soft_fail(g: InputGrammarView, good: Seq<char>, bad: Seq<char>)
    requires
        resolve(g, good) is Some,
        resolve(g, bad) is None,
    ensures
        resolve_some(g, seq![good, bad]) == seq![resolve(g, good)->Some_0],
        resolve_some(g, seq![bad, good]) == seq![resolve(g, good)->Some_0],
{
    let s1 = seq![good, bad];
    let s2 = seq![bad, good];
    assert(s1.subrange(0, 1) =~= seq![good]);
    assert(s2.subrange(0, 1) =~= seq![bad]);
    assert(seq![good].subrange(0, 0) =~= Seq::<Seq<char>>::empty());
    assert(seq![bad].subrange(0, 0) =~= Seq::<Seq<char>>::empty());
    assert(resolve_some(g, Seq::empty()) == Seq::<Symbol>::empty());
    assert(seq![good][0] == good);
    assert(seq![bad][0] == bad);
    assert(resolve_some(g, seq![good]) =~= seq![resolve(g, good)->Some_0]);
    assert(resolve_some(g, seq![bad]) =~= Seq::<Symbol>::empty());
    assert(resolve_some(g, s1) =~= seq![resolve(g, good)->Some_0]);
    assert(resolve_some(g, s2) =~= seq![resolve(g, good)->Some_0]);
}

/// The rule tree holds no name.
pub open spec fn names_nothing(r: RuleView) -> bool
    decreases r,
{
    match r {
        RuleView::Choice(s) => all_name_nothing(s),
        RuleView::Sequence(s) => all_name_nothing(s),
        RuleView::Repeat(inner) => names_nothing(*inner),
        RuleView::Metadata { params, rule } => names_nothing(*rule),
        RuleView::NamedSymbol(_) => false,
        _ => true,
    }
}

/// No rule tree of the list holds a name.
pub open spec fn all_name_nothing(s: Seq<RuleView>) -> bool
    decreases s,
{
    s.len() == 0 || (all_name_nothing(s.subrange(0, s.len() - 1)) && names_nothing(
        s[s.len() - 1],
    ))
}

/// A rule tree that holds no name is interned to itself.
pub proof fn lemma_structure_preserved(g: InputGrammarView, r: RuleView)
    requires
        names_nothing(r),
    ensures
        intern_view(g, r) == Ok::<RuleView, Seq<char>>(r),
    decreases r,
{
    match r {
        RuleView::Choice(s) => lemma_list_structure_preserved(g, s),
        RuleView::Sequence(s) => lemma_list_structure_preserved(g, s),
        RuleView::Repeat(inner) => lemma_structure_preserved(g, *inner),
        RuleView::Metadata { params, rule } => lemma_structure_preserved(g, *rule),
        _ => {},
    }
}

/// A list of rule trees that hold no name is interned to itself.
pub proof fn lemma_list_structure_preserved(g: InputGrammarView, s: Seq<RuleView>)
    requires
        all_name_nothing(s),
    ensures
        intern_list(g, s) == Ok::<Seq<RuleView>, Seq<char>>(s),
    decreases s,
{
    if s.len() > 0 {
        let front = s.subrange(0, s.len() - 1);
        lemma_list_structure_preserved(g, front);
        lemma_structure_preserved(g, s[s.len() - 1]);
        assert(front.push(s[s.len() - 1]) =~= s);
    } else {
        assert(s =~= Seq::<RuleView>::empty());
    }
}

} // verus!
