//! The rule catalogue: a closed set of inference-rule identifiers, each with
//! a pure check that takes a conclusion and the expressions its citations
//! resolve to, and answers with a verdict. The document core resolves
//! citations and delegates here; it never interprets a rule itself.

use vstd::prelude::*;
use crate::expr::Expr;

verus! {

/// Identifier of an inference rule.
#[derive(Debug, Clone, Copy, PartialEq, Eq, Structural, Hash)]
pub enum Rule {
    /// Reiteration: the conclusion repeats the single cited line. Also the
    /// designated placeholder rule of freshly inserted steps.
    Reit,
    /// Conjunction introduction: the conclusion is the conjunction of
    /// exactly the two cited expressions, in either order.
    AndIntro,
    /// Implication introduction: the conclusion is an implication from the
    /// assumption of the single cited sub-proof to one of its derived lines.
    ImpIntro,
}

/// Why a rule rejected a justification.
#[derive(Debug, PartialEq, Eq)]
pub enum RuleMismatch {
    WrongDepCount { expected: usize, got: usize },
    WrongSdepCount { expected: usize, got: usize },
    /// The conclusion does not repeat the cited line; `dep` is the cited
    /// expression.
    NotReiterationOfDep { dep: Expr },
    /// The conclusion is not the conjunction of the two cited expressions;
    /// the conjunctive form expected is `left & right` (or its swap).
    NotConjunctionOfDeps { left: Expr, right: Expr },
    /// The cited sub-proof does not have exactly one assumption.
    WrongAssumptionCount { got: usize },
    /// The conclusion is not an implication from the cited sub-proof's
    /// assumption to one of its derived lines.
    NotImplicationOfSubproof { assumption: Expr },
}

impl Rule {
    /// Human-readable name of the rule, for menus and feedback.
    pub fn name(&self) -> &'static str {
        match self {
            Rule::Reit => "Reiteration",
            Rule::AndIntro => "Conjunction Introduction",
            Rule::ImpIntro => "Implication Introduction",
        }
    }
}

/// Every rule of the catalogue, for menus.
pub fn all_rules() -> (r: Vec<Rule>)
    ensures
        r@ == seq![Rule::Reit, Rule::AndIntro, Rule::ImpIntro],
{
    let mut v: Vec<Rule> = Vec::new();
    v.push(Rule::Reit);
    v.push(Rule::AndIntro);
    v.push(Rule::ImpIntro);
    proof {
        assert(v@ =~= seq![Rule::Reit, Rule::AndIntro, Rule::ImpIntro]);
    }
    v
}

/// What a cited sub-proof stands for once resolved: the expressions of its
/// assumptions and the conclusions of its own direct lines.
#[derive(Debug, PartialEq, Eq)]
pub struct ResolvedSubproof {
    pub premises: Vec<Expr>,
    pub conclusions: Vec<Expr>,
}

impl ResolvedSubproof {
    /// The mathematical content of a resolved sub-proof citation.
    pub open spec fn sm(self) -> (Seq<Expr>, Seq<Expr>) {
        (self.premises@, self.conclusions@)
    }
}

/// The verdict of `rule` on `conclusion` given the expressions the direct
/// citations resolve to (`deps`) and the contents the sub-proof-range
/// citations resolve to (`sdeps`, each an (assumptions, derived lines) pair).
pub open spec fn check_rule_spec(
    rule: Rule,
    conclusion: Expr,
    deps: Seq<Expr>,
    sdeps: Seq<(Seq<Expr>, Seq<Expr>)>,
) -> Result<(), RuleMismatch> {
    match rule {
        Rule::Reit => {
            if deps.len() != 1 {
                Err(RuleMismatch::WrongDepCount { expected: 1, got: deps.len() as usize })
            } else if sdeps.len() != 0 {
                Err(RuleMismatch::WrongSdepCount { expected: 0, got: sdeps.len() as usize })
            } else if conclusion == deps[0] {
                Ok(())
            } else {
                Err(RuleMismatch::NotReiterationOfDep { dep: deps[0] })
            }
        },
        Rule::AndIntro => {
            if deps.len() != 2 {
                Err(RuleMismatch::WrongDepCount { expected: 2, got: deps.len() as usize })
            } else if sdeps.len() != 0 {
                Err(RuleMismatch::WrongSdepCount { expected: 0, got: sdeps.len() as usize })
            } else if conclusion matches Expr::And(a, b)
                && ((*a == deps[0] && *b == deps[1]) || (*a == deps[1] && *b == deps[0])) {
                Ok(())
            } else {
                Err(RuleMismatch::NotConjunctionOfDeps { left: deps[0], right: deps[1] })
            }
        },
        Rule::ImpIntro => {
            if deps.len() != 0 {
                Err(RuleMismatch::WrongDepCount { expected: 0, got: deps.len() as usize })
            } else if sdeps.len() != 1 {
                Err(RuleMismatch::WrongSdepCount { expected: 1, got: sdeps.len() as usize })
            } else if sdeps[0].0.len() != 1 {
                Err(RuleMismatch::WrongAssumptionCount { got: sdeps[0].0.len() as usize })
            } else if conclusion matches Expr::Imp(a, b)
                && *a == sdeps[0].0[0] && sdeps[0].1.contains(*b) {
                Ok(())
            } else {
                Err(RuleMismatch::NotImplicationOfSubproof { assumption: sdeps[0].0[0] })
            }
        },
    }
}

/// Executable counterpart of `check_rule_spec`.
pub fn check_rule(
    rule: Rule,
    conclusion: &Expr,
    deps: &Vec<Expr>,
    sdeps: &Vec<ResolvedSubproof>,
) -> (r: Result<(), RuleMismatch>)
    ensures
        r == check_rule_spec(rule, *conclusion, deps@, sdeps@.map_values(|s: ResolvedSubproof| s.sm())),
{
    let ghost sm = sdeps@.map_values(|s: ResolvedSubproof| s.sm());
    match rule {
        Rule::Reit => {
            if deps.len() != 1 {
                Err(RuleMismatch::WrongDepCount { expected: 1, got: deps.len() })
            } else if sdeps.len() != 0 {
                Err(RuleMismatch::WrongSdepCount { expected: 0, got: sdeps.len() })
            } else if conclusion.eq_expr(&deps[0]) {
                Ok(())
            } else {
                Err(RuleMismatch::NotReiterationOfDep { dep: deps[0].duplicate() })
            }
        },
        Rule::AndIntro => {
            if deps.len() != 2 {
                Err(RuleMismatch::WrongDepCount { expected: 2, got: deps.len() })
            } else if sdeps.len() != 0 {
                Err(RuleMismatch::WrongSdepCount { expected: 0, got: sdeps.len() })
            } else {
                let ok = match conclusion {
                    Expr::And(a, b) => (a.eq_expr(&deps[0]) && b.eq_expr(&deps[1]))
                        || (a.eq_expr(&deps[1]) && b.eq_expr(&deps[0])),
                    _ => false,
                };
                if ok {
                    Ok(())
                } else {
                    Err(RuleMismatch::NotConjunctionOfDeps {
                        left: deps[0].duplicate(),
                        right: deps[1].duplicate(),
                    })
                }
            }
        },
        Rule::ImpIntro => {
            if deps.len() != 0 {
                Err(RuleMismatch::WrongDepCount { expected: 0, got: deps.len() })
            } else if sdeps.len() != 1 {
                Err(RuleMismatch::WrongSdepCount { expected: 1, got: sdeps.len() })
            } else {
                proof {
                    assert(sm[0] == sdeps@[0].sm());
                }
                let sd = &sdeps[0];
                if sd.premises.len() != 1 {
                    Err(RuleMismatch::WrongAssumptionCount { got: sd.premises.len() })
                } else {
                    let ok = match conclusion {
                        Expr::Imp(a, b) => a.eq_expr(&sd.premises[0])
                            && contains_expr(&sd.conclusions, b),
                        _ => false,
                    };
                    if ok {
                        Ok(())
                    } else {
                        Err(RuleMismatch::NotImplicationOfSubproof {
                            assumption: sd.premises[0].duplicate(),
                        })
                    }
                }
            }
        },
    }
}

/// Whether `e` occurs in `v`, by structural equality.
pub fn contains_expr(v: &Vec<Expr>, e: &Expr) -> (r: bool)
    ensures
        r == v@.contains(*e),
{
    let mut i: usize = 0;
    while i < v.len()
        invariant
            i <= v@.len(),
            forall|k: int| 0 <= k < i ==> v@[k] != *e,
        decreases v@.len() - i,
    {
        if v[i].eq_expr(e) {
            return true;
        }
        i += 1;
    }
    false
}

} // verus!
