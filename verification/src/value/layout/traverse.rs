//! Walking a layout in the order of the wire.
//!
//! A layout is a tree, and the wire holds its leaves depth first. One kind
//! of node is different: of the variants of a sum only one is on the wire,
//! and which one is known only from the stream. So the walk is an iterator
//! that stops at each sum and waits to be told which branch to take.
//!
//! The walk keeps a stack of rules still to visit. A step takes the rule on
//! top, follows resolved references down to the rule they stand for,
//! schedules the parts of that rule (first part on top) and yields it. The
//! module path of the last reference followed is remembered, and a `Custom`
//! rule met after that is yielded as `CustomForPath` with that path.

use crate::error::{Error, ErrorCode};
use crate::value::layout::{
    clone_rules, rule_views, summand_view, summand_views, tag_views, BinProtRule, FieldView,
    PolyvarTag, RecordField, RuleRef, RuleView, Summand, SummandView, TagView,
};
use vstd::prelude::*;

verus! {

/// An iterator whose next item may depend on a choice: at some points it
/// asks for a call of `branch` before it goes on.
pub trait BranchingIterator {
    /// What the iterator yields.
    type Item;

    /// How the iterator fails.
    type Error;

    /// Whether a branch must be chosen before the next step.
    spec fn branch_pending(&self) -> bool;

    /// The next item, or nothing at the end. Fails while a branch must be
    /// chosen.
    fn next(&mut self) -> (r: Result<Option<Self::Item>, Self::Error>)
        ensures
            old(self).branch_pending() ==> r is Err,
    ;

    /// Chooses a branch. Fails when there is none to choose.
    fn branch(&mut self, branch: usize) -> (r: Result<(), Self::Error>)
        ensures
            !old(self).branch_pending() ==> r is Err,
    ;
}

/// A depth-first walk of a layout.
pub struct BinProtRuleIterator {
    stack: Vec<BinProtRule>,
    branch: Option<Vec<Summand>>,
    current_module_path: Option<String>,
}

/// The state of a walk.
pub struct WalkView {
    /// The rules still to visit; the last is visited next.
    pub stack: Seq<RuleView>,
    /// The variants of the sum at which the walk has stopped.
    pub branch: Option<Seq<SummandView>>,
    /// The module path of the last reference followed.
    pub path: Option<Seq<char>>,
}

/// The rule that `rule` stands for: `rule` itself, unless it is a resolved
/// reference.
pub open spec fn resolve(rule: RuleView) -> RuleView
    decreases rule,
{
    match rule {
        RuleView::Resolved { path, rule: inner } => resolve(*inner),
        _ => rule,
    }
}

/// The module path remembered after the references at the root of `rule`
/// have been followed, when `path` was remembered before.
pub open spec fn path_after(rule: RuleView, path: Option<Seq<char>>) -> Option<Seq<char>>
    decreases rule,
{
    match rule {
        RuleView::Resolved { path: p, rule: inner } => path_after(*inner, Some(p)),
        _ => path,
    }
}

/// The rules of the fields of `fields`, in order.
pub open spec fn field_rules(fields: Seq<FieldView>) -> Seq<RuleView> {
    Seq::new(fields.len(), |i: int| fields[i].rule)
}

/// The tags of a polymorphic variant as the variants of a sum: each tag
/// with its name, its hash for an index, and its arguments.
pub open spec fn tags_as_summands(tags: Seq<TagView>) -> Seq<SummandView> {
    Seq::new(
        tags.len(),
        |i: int| SummandView { name: tags[i].name, index: tags[i].hash, args: tags[i].args },
    )
}

/// The parts of `rule` that a walk visits after `rule`, in order.
pub open spec fn parts(rule: RuleView) -> Seq<RuleView> {
    match rule {
        RuleView::Option(r) => seq![*r],
        RuleView::List(r) => seq![*r],
        RuleView::Tuple(rules) => rules,
        RuleView::Record(fields) => field_rules(fields),
        _ => Seq::empty(),
    }
}

/// What a step yields, and the state it leaves.
///
/// While a branch must be chosen the step fails and changes nothing. On an
/// empty stack it yields nothing. Else it takes the rule on top and
/// follows resolved references. A reference that is not resolved fails.
/// A sum, or a polymorphic variant, is yielded and its variants wait for a
/// choice. `Custom` is yielded as `CustomForPath` when a module path is
/// remembered. Any other rule is yielded, and its parts are put on the
/// stack, the first on top.
pub open spec fn step(w: WalkView) -> (Result<Option<RuleView>, ErrorCode>, WalkView) {
    if w.branch is Some {
        (Err(ErrorCode::MustBranch), w)
    } else if w.stack.len() == 0 {
        (Ok(None), w)
    } else {
        let rest = w.stack.drop_last();
        let node = resolve(w.stack.last());
        let path = path_after(w.stack.last(), w.path);
        match node {
            RuleView::Unresolved(_) => (
                Err(ErrorCode::UnresolvedReference),
                WalkView { stack: rest, branch: None, path },
            ),
            RuleView::Sum(summands) => (
                Ok(Some(node)),
                WalkView { stack: rest, branch: Some(summands), path },
            ),
            RuleView::Polyvar(tags) => (
                Ok(Some(node)),
                WalkView { stack: rest, branch: Some(tags_as_summands(tags)), path },
            ),
            RuleView::Custom => (
                Ok(
                    Some(
                        match path {
                            Some(p) => RuleView::CustomForPath(p),
                            None => RuleView::Custom,
                        },
                    ),
                ),
                WalkView { stack: rest, branch: None, path },
            ),
            _ => (
                Ok(Some(node)),
                WalkView { stack: rest + parts(node).reverse(), branch: None, path },
            ),
        }
    }
}

/// What the choice of the branch `k` gives, and the state it leaves.
///
/// With no branch to choose, and with a `k` that names no variant, the
/// choice fails and changes nothing. Else the arguments of the variant `k`
/// are put on the stack, the first on top, and the walk goes on.
pub open spec fn choose_branch(w: WalkView, k: nat) -> (Result<(), ErrorCode>, WalkView) {
    match w.branch {
        None => (Err(ErrorCode::CannotBranch), w),
        Some(summands) => if k >= summands.len() {
            (Err(ErrorCode::InvalidBranch), w)
        } else {
            (
                Ok(()),
                WalkView {
                    stack: w.stack + summands[k as int].args.reverse(),
                    branch: None,
                    path: w.path,
                },
            )
        },
    }
}

/// `r` is what a step that gives `outcome` returns.
pub open spec fn yields(
    outcome: Result<Option<RuleView>, ErrorCode>,
    r: Result<Option<BinProtRule>, Error>,
) -> bool {
    match outcome {
        Ok(Some(v)) => r matches Ok(Some(rule)) && rule@ == v,
        Ok(None) => r matches Ok(None),
        Err(code) => r == Err::<Option<BinProtRule>, Error>(Error::Syntax(code)),
    }
}

/// The rule for which a reference stands is no resolved reference.
pub proof fn lemma_resolve_is_final(rule: RuleView)
    ensures
        !(resolve(rule) is Resolved),
        resolve(resolve(rule)) == resolve(rule),
    decreases rule,
{
    match rule {
        RuleView::Resolved { path, rule: inner } => {
            lemma_resolve_is_final(*inner);
        },
        _ => {},
    }
}

/// The rule for which a reference stands is the rule itself or lies
/// within it.
pub proof fn lemma_resolve_within(rule: RuleView)
    ensures
        resolve(rule) == rule || decreases_to!(rule => resolve(rule)),
    decreases rule,
{
    match rule {
        RuleView::Resolved { path, rule: inner } => {
            lemma_resolve_within(*inner);
        },
        _ => {},
    }
}

/// After a sum or a polymorphic variant was yielded, the next step asks
/// for a branch.
pub proof fn lemma_sum_demands_branch(w: WalkView)
    requires
        step(w).0 matches Ok(Some(rule)) && (rule is Sum || rule is Polyvar),
    ensures
        step(w).1.branch is Some,
        step(step(w).1).0 == Err::<Option<RuleView>, ErrorCode>(ErrorCode::MustBranch),
        step(step(w).1).1 == step(w).1,
{
    lemma_resolve_is_final(w.stack.last());
}

/// After the branch `k` was chosen, the walk goes through the arguments of
/// the variant `k` in order: the `i`-th rule from the top of the stack is
/// the `i`-th argument, and beneath the arguments the stack is what it was.
pub proof fn lemma_branch_continues_in_order(w: WalkView, k: nat)
    requires
        w.branch is Some,
        k < w.branch->Some_0.len(),
    ensures
        ({
            let args = w.branch->Some_0[k as int].args;
            let after = choose_branch(w, k).1;
            &&& choose_branch(w, k).0 == Ok::<(), ErrorCode>(())
            &&& after.branch is None
            &&& after.stack.len() == w.stack.len() + args.len()
            &&& after.stack.take(w.stack.len() as int) == w.stack
            &&& forall|i: int|
                0 <= i < args.len() ==> #[trigger] after.stack[after.stack.len() - 1 - i]
                    == args[i]
        }),
{
    let args = w.branch->Some_0[k as int].args;
    let after = choose_branch(w, k).1;
    assert(after.stack.take(w.stack.len() as int) =~= w.stack);
}

/// References are transparent: no step yields a reference that is
/// resolved.
pub proof fn lemma_reference_never_yielded(w: WalkView)
    ensures
        step(w).0 matches Ok(Some(rule)) ==> !(rule is Resolved),
{
    if w.branch is None && w.stack.len() > 0 {
        lemma_resolve_is_final(w.stack.last());
    }
}

/// Puts the rules of `rules` on `stack`, the first on top.
fn push_reversed(stack: &mut Vec<BinProtRule>, rules: Vec<BinProtRule>)
    ensures
        rule_views(final(stack)@) == rule_views(old(stack)@) + rule_views(rules@).reverse(),
{
    let mut rules = rules;
    let ghost all = rule_views(rules@);
    let ghost below = rule_views(stack@);
    while rules.len() > 0
        invariant
            rules.len() <= all.len(),
            rule_views(rules@) == all.take(rules.len() as int),
            rule_views(stack@) == below + all.skip(rules.len() as int).reverse(),
        decreases rules.len(),
    {
        let ghost m = rules.len() as int;
        let ghost before = stack@;
        let rule = rules.pop().unwrap();
        stack.push(rule);
        assert(rule_views(rules@) =~= all.take(m - 1));
        assert(rule@ == all[m - 1]) by {
            assert(all.take(m)[m - 1] == all[m - 1]);
        }
        assert(rule_views(stack@) =~= rule_views(before).push(rule@));
        assert(all.skip(m - 1).reverse() =~= all.skip(m).reverse().push(all[m - 1]));
        assert(rule_views(stack@) =~= below + all.skip(m - 1).reverse());
    }
    assert(all.skip(0) =~= all);
}

/// Puts the rules of the fields of `fields` on `stack`, the first on top.
fn push_fields_reversed(stack: &mut Vec<BinProtRule>, fields: Vec<RecordField>)
    ensures
        rule_views(final(stack)@) == rule_views(old(stack)@) + field_rules(
            crate::value::layout::field_views(fields@),
        ).reverse(),
{
    let mut fields = fields;
    let ghost all = field_rules(crate::value::layout::field_views(fields@));
    let ghost below = rule_views(stack@);
    while fields.len() > 0
        invariant
            fields.len() <= all.len(),
            field_rules(crate::value::layout::field_views(fields@)) == all.take(
                fields.len() as int,
            ),
            rule_views(stack@) == below + all.skip(fields.len() as int).reverse(),
        decreases fields.len(),
    {
        let ghost m = fields.len() as int;
        let ghost before = stack@;
        let field = fields.pop().unwrap();
        let rule = field.field_rule;
        stack.push(rule);
        assert(field_rules(crate::value::layout::field_views(fields@)) =~= all.take(m - 1));
        assert(rule@ == all[m - 1]) by {
            assert(all.take(m)[m - 1] == all[m - 1]);
        }
        assert(rule_views(stack@) =~= rule_views(before).push(rule@));
        assert(all.skip(m - 1).reverse() =~= all.skip(m).reverse().push(all[m - 1]));
        assert(rule_views(stack@) =~= below + all.skip(m - 1).reverse());
    }
    assert(all.skip(0) =~= all);
}

/// The tags of a polymorphic variant as the variants of a sum.
fn summands_of_tags(tags: &Vec<PolyvarTag>) -> (summands: Vec<Summand>)
    ensures
        summand_views(summands@) == tags_as_summands(tag_views(tags@)),
{
    let mut summands: Vec<Summand> = Vec::new();
    let n: usize = tags.len();
    let mut i: usize = 0;
    while i < n
        invariant
            i <= n,
            n == tags.len(),
            summands.len() == i,
            forall|j: int|
                0 <= j < i ==> summand_view(#[trigger] summands@[j]) == tags_as_summands(
                    tag_views(tags@),
                )[j],
        decreases n - i,
    {
        let tag: &PolyvarTag = &tags[i];
        summands.push(
            Summand {
                ctor_name: tag.polyvar_name.clone(),
                index: tag.hash,
                ctor_args: clone_rules(&tag.polyvar_args),
            },
        );
        i = i + 1;
    }
    assert(summand_views(summands@) =~= tags_as_summands(tag_views(tags@)));
    summands
}

/// Whether `rule` is a reference that is resolved.
fn is_resolved(rule: &BinProtRule) -> (b: bool)
    ensures
        b == (rule@ is Resolved),
{
    match rule {
        BinProtRule::Reference(RuleRef::Resolved(_)) => true,
        _ => false,
    }
}

impl View for BinProtRuleIterator {
    type V = WalkView;

    closed spec fn view(&self) -> WalkView {
        WalkView {
            stack: rule_views(self.stack@),
            branch: match self.branch {
                Some(summands) => Some(summand_views(summands@)),
                None => None,
            },
            path: match self.current_module_path {
                Some(p) => Some(p@),
                None => None,
            },
        }
    }
}

impl BranchingIterator for BinProtRuleIterator {
    type Item = BinProtRule;

    type Error = Error;

    open spec fn branch_pending(&self) -> bool {
        self@.branch is Some
    }

    fn next(&mut self) -> (r: Result<Option<BinProtRule>, Error>)
        ensures
            final(self)@ == step(old(self)@).1,
            yields(step(old(self)@).0, r),
    {
        if self.branch.is_some() {
            return Err(Error::Syntax(ErrorCode::MustBranch));
        }
        let ghost top = old(self)@.stack.last();
        let ghost rest = old(self)@.stack.drop_last();
        let mut rule = match self.stack.pop() {
            Some(rule) => rule,
            None => {
                return Ok(None);
            },
        };
        assert(rule_views(self.stack@) =~= rest);
        assert(rule@ == top);
        while is_resolved(&rule)
            invariant
                self.branch is None,
                rule_views(self.stack@) == rest,
                resolve(rule@) == resolve(top),
                path_after(rule@, self@.path) == path_after(top, old(self)@.path),
            decreases rule@,
        {
            match rule {
                BinProtRule::Reference(RuleRef::Resolved(r)) => {
                    self.current_module_path = Some(r.source_module_path);
                    rule = *r.ref_rule;
                },
                other => {
                    rule = other;
                },
            }
        }
        let node = rule.clone();
        match rule {
            BinProtRule::Reference(_) => Err(Error::Syntax(ErrorCode::UnresolvedReference)),
            BinProtRule::Sum(summands) => {
                self.branch = Some(summands);
                Ok(Some(node))
            },
            BinProtRule::Polyvar(tags) => {
                self.branch = Some(summands_of_tags(&tags));
                Ok(Some(node))
            },
            BinProtRule::Custom => {
                match &self.current_module_path {
                    Some(path) => Ok(Some(BinProtRule::CustomForPath(path.clone()))),
                    None => Ok(Some(node)),
                }
            },
            BinProtRule::Option(r) => {
                self.stack.push(*r);
                assert(rule_views(self.stack@) =~= rest + parts(node@).reverse());
                Ok(Some(node))
            },
            BinProtRule::List(r) => {
                self.stack.push(*r);
                assert(rule_views(self.stack@) =~= rest + parts(node@).reverse());
                Ok(Some(node))
            },
            BinProtRule::Tuple(rules) => {
                push_reversed(&mut self.stack, rules);
                Ok(Some(node))
            },
            BinProtRule::Record(fields) => {
                push_fields_reversed(&mut self.stack, fields);
                Ok(Some(node))
            },
            _ => {
                assert(rule_views(self.stack@) =~= rest + parts(node@).reverse());
                Ok(Some(node))
            },
        }
    }

    fn branch(&mut self, branch: usize) -> (r: Result<(), Error>)
        ensures
            final(self)@ == choose_branch(old(self)@, branch as nat).1,
            match choose_branch(old(self)@, branch as nat).0 {
                Ok(_) => r == Ok::<(), Error>(()),
                Err(code) => r == Err::<(), Error>(Error::Syntax(code)),
            },
    {
        let offered: usize = match &self.branch {
            Some(summands) => summands.len(),
            None => {
                return Err(Error::Syntax(ErrorCode::CannotBranch));
            },
        };
        if branch >= offered {
            return Err(Error::Syntax(ErrorCode::InvalidBranch));
        }
        let mut summands = self.branch.take().unwrap();
        let chosen = summands.swap_remove(branch);
        push_reversed(&mut self.stack, chosen.ctor_args);
        Ok(())
    }
}

impl BinProtRuleIterator {
    /// Whether the walk has nothing left to visit and waits for no choice.
    pub fn is_done(&self) -> (done: bool)
        ensures
            done == (self@.stack.len() == 0 && self@.branch is None),
    {
        self.stack.len() == 0 && self.branch.is_none()
    }

    /// Drops the rule on top of the stack unvisited: the part of an option
    /// that is absent, or of a list that is empty. Fails while a branch
    /// must be chosen, and on an empty stack.
    pub fn skip(&mut self) -> (r: Result<(), Error>)
        ensures
            old(self)@.branch is Some ==> r == Err::<(), Error>(
                Error::Syntax(ErrorCode::MustBranch),
            ) && final(self)@ == old(self)@,
            old(self)@.branch is None && old(self)@.stack.len() == 0 ==> r == Err::<(), Error>(
                Error::Syntax(ErrorCode::LayoutExhausted),
            ) && final(self)@ == old(self)@,
            old(self)@.branch is None && old(self)@.stack.len() > 0 ==> r == Ok::<(), Error>(())
                && final(self)@ == (WalkView {
                stack: old(self)@.stack.drop_last(),
                ..old(self)@
            }),
    {
        if self.branch.is_some() {
            return Err(Error::Syntax(ErrorCode::MustBranch));
        }
        match self.stack.pop() {
            Some(_) => {
                assert(rule_views(self.stack@) =~= old(self)@.stack.drop_last());
                Ok(())
            },
            None => Err(Error::Syntax(ErrorCode::LayoutExhausted)),
        }
    }

    /// Puts `rule` on top of the stack, to be visited next: one more
    /// element of a list. Fails while a branch must be chosen.
    pub fn push(&mut self, rule: BinProtRule) -> (r: Result<(), Error>)
        ensures
            old(self)@.branch is Some ==> r == Err::<(), Error>(
                Error::Syntax(ErrorCode::MustBranch),
            ) && final(self)@ == old(self)@,
            old(self)@.branch is None ==> r == Ok::<(), Error>(()) && final(self)@ == (WalkView {
                stack: old(self)@.stack.push(rule@),
                ..old(self)@
            }),
    {
        if self.branch.is_some() {
            return Err(Error::Syntax(ErrorCode::MustBranch));
        }
        self.stack.push(rule);
        assert(rule_views(self.stack@) =~= old(self)@.stack.push(rule@));
        Ok(())
    }
}

impl BinProtRule {
    /// A walk of this layout, from its root.
    pub fn into_branching_iter(self) -> (it: BinProtRuleIterator)
        ensures
            it@ == (WalkView { stack: seq![self@], branch: None, path: None }),
    {
        let mut stack: Vec<BinProtRule> = Vec::new();
        stack.push(self);
        assert(rule_views(stack@) =~= seq![self@]);
        BinProtRuleIterator { stack, branch: None, current_module_path: None }
    }
}

} // verus!
