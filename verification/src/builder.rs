//! Turns the algebra of a query into a plan.
use crate::algebra::{
    Expression, GraphPattern, NamedNodeOrVariable, OrderComparator, StaticBindings, TermOrVariable,
    TripleOrPathPattern, TriplePattern,
};
use crate::error::{Error, Outcome};
use crate::expression::{
    assemble, lemma_operand_is_part, operand, operand_minimum, operands, reject,
};
use crate::model::{copy_variables, names, Name, NamedNode, Term, Variable};
use crate::numbering::variable_key;
use crate::ordering::{join_order, sort_bgp, targets};
use crate::plan::{
    comparator_models, expression_models, node_models, positions, template_models, tuple_models,
    Comparator, EncodedTuple, Formula, PatternValue, Plan, PlanExpression, PlanNode, Slot, SortKey,
    TemplateSlot, TemplateTriple, TripleTemplate, TripleTemplateValue,
};
use crate::record::{continues, group_record, lemma_asked_once, questions, replays, Record};
use crate::semantics::{
    bgp_run, blank_tuple, branches, branches_run, comparator_run, comparators_run, end_run,
    expression_run, joins_run, keys_run, lemma_branch_is_part, middle_run, only_right, operands_run,
    outset, pattern_run, problem_positions, query_run, row_run, rows_run, sliced, template_end_run,
    template_middle_run, template_run, template_triple_run, Progress,
};
use crate::store::{may_answer, may_answer_all, Answers, EncodedTerm, Question, StoreConnection};
use vstd::pervasive::unreached;
use vstd::prelude::*;

verus! {

broadcast use group_record;

/// Why planning stops without a result.
enum Stop<'p, E> {
    Failed(Error<'p, E>),
    Stuck,
}

impl<'p, E> Stop<'p, E> {
    spec fn outcome<T>(self) -> Outcome<T, E> {
        match self {
            Stop::Failed(error) => Outcome::Failed(error.model()),
            Stop::Stuck => Outcome::Stuck,
        }
    }
}

spec fn slot_outcome<'p, E>(result: Result<PatternValue, Stop<'p, E>>) -> Outcome<Slot, E> {
    match result {
        Ok(value) => Outcome::Done(value.model()),
        Err(stop) => stop.outcome(),
    }
}

spec fn plan_outcome<'p, E>(result: Result<PlanNode, Stop<'p, E>>) -> Outcome<Plan, E> {
    match result {
        Ok(node) => Outcome::Done(node.model()),
        Err(stop) => stop.outcome(),
    }
}

spec fn formula_outcome<'p, E>(result: Result<PlanExpression, Stop<'p, E>>) -> Outcome<Formula, E> {
    match result {
        Ok(expression) => Outcome::Done(expression.model()),
        Err(stop) => stop.outcome(),
    }
}

spec fn formulas_outcome<'p, E>(result: Result<Vec<PlanExpression>, Stop<'p, E>>) -> Outcome<
    Seq<Formula>,
    E,
> {
    match result {
        Ok(list) => Outcome::Done(expression_models(list@)),
        Err(stop) => stop.outcome(),
    }
}

spec fn tuple_outcome<'p, E>(result: Result<EncodedTuple, Stop<'p, E>>) -> Outcome<
    Seq<Option<EncodedTerm>>,
    E,
> {
    match result {
        Ok(tuple) => Outcome::Done(tuple@),
        Err(stop) => stop.outcome(),
    }
}

spec fn tuples_outcome<'p, E>(result: Result<Vec<EncodedTuple>, Stop<'p, E>>) -> Outcome<
    Seq<Seq<Option<EncodedTerm>>>,
    E,
> {
    match result {
        Ok(list) => Outcome::Done(tuple_models(list@)),
        Err(stop) => stop.outcome(),
    }
}

spec fn key_outcome<'p, E>(result: Result<Comparator, Stop<'p, E>>) -> Outcome<SortKey, E> {
    match result {
        Ok(key) => Outcome::Done(key.model()),
        Err(stop) => stop.outcome(),
    }
}

spec fn keys_outcome<'p, E>(result: Result<Vec<Comparator>, Stop<'p, E>>) -> Outcome<
    Seq<SortKey>,
    E,
> {
    match result {
        Ok(list) => Outcome::Done(comparator_models(list@)),
        Err(stop) => stop.outcome(),
    }
}

spec fn plans_outcome<'p, E>(result: Result<Vec<PlanNode>, Stop<'p, E>>) -> Outcome<Seq<Plan>, E> {
    match result {
        Ok(list) => Outcome::Done(node_models(list@)),
        Err(stop) => stop.outcome(),
    }
}

/// How far planning has come.
spec fn progress<E>(variables: Seq<Variable>, record: Record<E>) -> Progress {
    Progress { variables: names(variables), asked: questions(record) }
}

spec fn template_slot_outcome<'p, E>(
    result: Result<TripleTemplateValue, Stop<'p, E>>,
) -> Outcome<TemplateSlot, E> {
    match result {
        Ok(value) => Outcome::Done(value.model()),
        Err(stop) => stop.outcome(),
    }
}

spec fn template_triple_outcome<'p, E>(result: Result<TripleTemplate, Stop<'p, E>>) -> Outcome<
    TemplateTriple,
    E,
> {
    match result {
        Ok(triple) => Outcome::Done(triple.model()),
        Err(stop) => stop.outcome(),
    }
}

spec fn template_outcome<'p, E>(result: Result<Vec<TripleTemplate>, Stop<'p, E>>) -> Outcome<
    Seq<TemplateTriple>,
    E,
> {
    match result {
        Ok(triples) => Outcome::Done(template_models(triples@)),
        Err(stop) => stop.outcome(),
    }
}

/// Whether `result` is what planning the query comes to with these answers, and the store may
/// give these answers to what it was asked.
pub open spec fn built<'p, S: StoreConnection>(
    store: S,
    pattern: GraphPattern,
    answers: Answers<S::Error>,
    result: Result<(PlanNode, Vec<Variable>), Error<'p, S::Error>>,
) -> bool {
    let (outcome, end) = query_run(pattern, answers);
    &&& may_answer_all(store, end.asked, answers)
    &&& match result {
        Ok((plan, variables)) => outcome == Outcome::<Plan, S::Error>::Done(plan.model())
            && names(variables@) == end.variables,
        Err(error) => outcome == Outcome::<Plan, S::Error>::Failed(error.model()),
    }
}

/// Whether planning the query comes to a construct that has no plan with these answers, and the
/// store may give these answers to what it was asked.
pub open spec fn not_built<S: StoreConnection>(
    store: S,
    pattern: GraphPattern,
    answers: Answers<S::Error>,
) -> bool {
    let (outcome, end) = query_run(pattern, answers);
    &&& may_answer_all(store, end.asked, answers)
    &&& outcome is Stuck
}

/// Whether a query has a plan, or an error, whatever the store may answer.
pub open spec fn plannable<S: StoreConnection>(store: S, pattern: GraphPattern) -> bool {
    forall|answers: Answers<S::Error>| !(#[trigger] not_built(store, pattern, answers))
}

/// Whether `result` is what planning the template comes to with these answers, and the store may
/// give these answers to what it was asked.
pub open spec fn template_built<'p, S: StoreConnection>(
    store: S,
    template: Seq<TriplePattern>,
    variables: Seq<Name>,
    answers: Answers<S::Error>,
    result: Result<Vec<TripleTemplate>, Error<'p, S::Error>>,
) -> bool {
    let (outcome, end, _) = template_run(
        template,
        0,
        seq![],
        answers,
        outset(variables),
        seq![],
    );
    &&& may_answer_all(store, end.asked, answers)
    &&& match result {
        Ok(triples) => outcome == Outcome::<Seq<TemplateTriple>, S::Error>::Done(
            template_models(triples@),
        ),
        Err(error) => outcome == Outcome::<Seq<TemplateTriple>, S::Error>::Failed(error.model()),
    }
}

/// Plans queries over a store.
pub struct PlanBuilder<'a, S: StoreConnection> {
    store: &'a S,
}

impl<'a, S: StoreConnection> PlanBuilder<'a, S> {
    /// Plans a query. The result is the plan, and the variable at each position of its tuples.
    ///
    /// Not every query has a plan: [`PlanBuilder::try_build`] takes those too.
    pub fn build<'p>(store: &'a S, pattern: &'p GraphPattern) -> (result: Result<
        (PlanNode, Vec<Variable>),
        Error<'p, S::Error>,
    >)
        requires
            plannable(*store, *pattern),
        ensures
            exists|answers: Answers<S::Error>| #[trigger] built(*store, *pattern, answers, result),
    {
        match Self::try_build(store, pattern) {
            Some(result) => result,
            None => unreached(),
        }
    }

    /// Plans a query, where it has a plan or an error. It has neither if planning comes to a
    /// property path, a service, an aggregation, a call with too few parameters, or a value that
    /// is bound to a variable that has no place in the tuples yet.
    pub fn try_build<'p>(store: &'a S, pattern: &'p GraphPattern) -> (result: Option<
        Result<(PlanNode, Vec<Variable>), Error<'p, S::Error>>,
    >)
        ensures
            match result {
                Some(result) => exists|answers: Answers<S::Error>| #[trigger]
                    built(*store, *pattern, answers, result),
                None => exists|answers: Answers<S::Error>| #[trigger]
                    not_built(*store, *pattern, answers),
            },
    {
        let mut variables: Vec<Variable> = Vec::new();
        let mut record: Ghost<Record<S::Error>> = Ghost(Seq::empty());
        let builder = PlanBuilder { store };
        assert(progress(variables@, record@) == outset(seq![])) by {
            assert(names(variables@) =~= seq![]);
            assert(questions(record@) =~= seq![]);
        }
        let plan = builder.build_for_graph_pattern(
            pattern,
            PlanNode::Init,
            &mut variables,
            PatternValue::Constant(EncodedTerm::DefaultGraph),
            &mut record,
        );
        proof {
            lemma_record_is_honest(*store, record@);
        }
        let ghost answers = answers_of(record@);
        match plan {
            Ok(plan) => {
                let result = Ok((plan, variables));
                assert(built(*store, *pattern, answers, result));
                Some(result)
            },
            Err(Stop::Failed(error)) => {
                let result = Err(error);
                assert(built(*store, *pattern, answers, result));
                Some(result)
            },
            Err(Stop::Stuck) => {
                assert(not_built(*store, *pattern, answers));
                None
            },
        }
    }

    /// Plans a template of triples. `variables` says what is at each position of the tuples.
    pub fn build_graph_template<'p>(
        store: &'a S,
        template: &'p [TriplePattern],
        variables: Vec<Variable>,
    ) -> (result: Result<Vec<TripleTemplate>, Error<'p, S::Error>>)
        ensures
            exists|answers: Answers<S::Error>| #[trigger]
                template_built(*store, template@, names(variables@), answers, result),
    {
        let ghost given = names(variables@);
        let mut variables = variables;
        let mut record: Ghost<Record<S::Error>> = Ghost(Seq::empty());
        let builder = PlanBuilder { store };
        assert(progress(variables@, record@) == outset(given)) by {
            assert(questions(record@) =~= seq![]);
        }
        let triples = builder.build_for_graph_template(template, &mut variables, &mut record);
        proof {
            lemma_record_is_honest(*store, record@);
        }
        let ghost answers = answers_of(record@);
        match triples {
            Ok(triples) => {
                let result = Ok(triples);
                assert(template_built(*store, template@, given, answers, result));
                result
            },
            Err(Stop::Failed(error)) => {
                let result = Err(error);
                assert(template_built(*store, template@, given, answers, result));
                result
            },
            Err(Stop::Stuck) => unreached(),
        }
    }

    /// The code of a term. The store's answer goes on the record.
    fn encode_term<'p>(&self, term: &'p Term, record: &mut Ghost<Record<S::Error>>) -> (result:
        Result<EncodedTerm, Stop<'p, S::Error>>)
        ensures
            continues(*self.store, old(record)@, final(record)@),
            questions(final(record)@) == questions(old(record)@).push(Question::Term(*term)),
            forall|answers: Answers<S::Error>| #[trigger]
                replays(answers, final(record)@) ==> answers(
                    questions(old(record)@).len() as int,
                ) == match result {
                    Ok(code) => Ok::<EncodedTerm, S::Error>(code),
                    Err(stop) => Err(stop->Failed_0->Store_0),
                },
            result is Err ==> result->Err_0 is Failed && result->Err_0->Failed_0 is Store,
    {
        let answer = self.store.encode_term(term);
        proof {
            lemma_asked_once(*self.store, record@, Question::Term(*term), answer);
        }
        *record = Ghost(record@.push((Question::Term(*term), answer)));
        match answer {
            Ok(code) => Ok(code),
            Err(error) => Err(Stop::Failed(Error::Store(error))),
        }
    }

    /// The code of an IRI. The store's answer goes on the record.
    fn encode_named_node<'p>(
        &self,
        node: &'p NamedNode,
        record: &mut Ghost<Record<S::Error>>,
    ) -> (result: Result<EncodedTerm, Stop<'p, S::Error>>)
        ensures
            continues(*self.store, old(record)@, final(record)@),
            questions(final(record)@) == questions(old(record)@).push(Question::NamedNode(*node)),
            forall|answers: Answers<S::Error>| #[trigger]
                replays(answers, final(record)@) ==> answers(
                    questions(old(record)@).len() as int,
                ) == match result {
                    Ok(code) => Ok::<EncodedTerm, S::Error>(code),
                    Err(stop) => Err(stop->Failed_0->Store_0),
                },
            result is Err ==> result->Err_0 is Failed && result->Err_0->Failed_0 is Store,
    {
        let answer = self.store.encode_named_node(node);
        proof {
            lemma_asked_once(*self.store, record@, Question::NamedNode(*node), answer);
        }
        *record = Ghost(record@.push((Question::NamedNode(*node), answer)));
        match answer {
            Ok(code) => Ok(code),
            Err(error) => Err(Stop::Failed(Error::Store(error))),
        }
    }

    fn pattern_value_from_term_or_variable<'p>(
        &self,
        term_or_variable: &'p TermOrVariable,
        variables: &mut Vec<Variable>,
        record: &mut Ghost<Record<S::Error>>,
    ) -> (result: Result<PatternValue, Stop<'p, S::Error>>)
        ensures
            continues(*self.store, old(record)@, final(record)@),
            forall|answers: Answers<S::Error>| #[trigger]
                replays(answers, final(record)@) ==> end_run(
                    *term_or_variable,
                    answers,
                    progress(old(variables)@, old(record)@),
                ) == (slot_outcome(result), progress(final(variables)@, final(record)@)),
    {
        match term_or_variable {
            TermOrVariable::Term(term) => Ok(
                PatternValue::Constant(self.encode_term(term, record)?),
            ),
            TermOrVariable::Variable(variable) => Ok(
                PatternValue::Variable(variable_key(variables, variable)),
            ),
        }
    }

    fn pattern_value_from_named_node_or_variable<'p>(
        &self,
        named_node_or_variable: &'p NamedNodeOrVariable,
        variables: &mut Vec<Variable>,
        record: &mut Ghost<Record<S::Error>>,
    ) -> (result: Result<PatternValue, Stop<'p, S::Error>>)
        ensures
            continues(*self.store, old(record)@, final(record)@),
            forall|answers: Answers<S::Error>| #[trigger]
                replays(answers, final(record)@) ==> middle_run(
                    *named_node_or_variable,
                    answers,
                    progress(old(variables)@, old(record)@),
                ) == (slot_outcome(result), progress(final(variables)@, final(record)@)),
    {
        match named_node_or_variable {
            NamedNodeOrVariable::NamedNode(named_node) => Ok(
                PatternValue::Constant(self.encode_named_node(named_node, record)?),
            ),
            NamedNodeOrVariable::Variable(variable) => Ok(
                PatternValue::Variable(variable_key(variables, variable)),
            ),
        }
    }

    /// Plans a basic graph pattern, best known pattern first.
    #[verifier::loop_isolation(false)]
    fn build_for_bgp<'p>(
        &self,
        p: &'p Vec<TripleOrPathPattern>,
        input: PlanNode,
        variables: &mut Vec<Variable>,
        graph_name: PatternValue,
        record: &mut Ghost<Record<S::Error>>,
    ) -> (result: Result<PlanNode, Stop<'p, S::Error>>)
        ensures
            continues(*self.store, old(record)@, final(record)@),
            forall|answers: Answers<S::Error>| #[trigger]
                replays(answers, final(record)@) ==> bgp_run(
                    p@,
                    input.model(),
                    graph_name.model(),
                    answers,
                    progress(old(variables)@, old(record)@),
                ) == (plan_outcome(result), progress(final(variables)@, final(record)@)),
    {
        let sorted = sort_bgp(p.as_slice());
        let ghost order = join_order(p@, set![]);
        let ghost graph = graph_name.model();
        let ghost start = (input.model(), progress(variables@, record@));
        let mut plan = input;
        let mut i: usize = 0;
        while i < sorted.len()
            invariant
                i <= sorted@.len(),
                targets(sorted@) == order,
                graph == graph_name.model(),
                continues(*self.store, old(record)@, record@),
                forall|answers: Answers<S::Error>| #[trigger]
                    replays(answers, record@) ==> joins_run(
                        order,
                        0,
                        start.0,
                        graph,
                        answers,
                        start.1,
                    ) == joins_run(
                        order,
                        i as int,
                        plan.model(),
                        graph,
                        answers,
                        progress(variables@, record@),
                    ),
            decreases sorted@.len() - i,
        {
            let pattern: &'p TripleOrPathPattern = sorted[i];
            assert(order[i as int] == *pattern);
            match pattern {
                TripleOrPathPattern::Triple(triple) => {
                    let subject = self.pattern_value_from_term_or_variable(
                        &triple.subject,
                        variables,
                        record,
                    )?;
                    let predicate = self.pattern_value_from_named_node_or_variable(
                        &triple.predicate,
                        variables,
                        record,
                    )?;
                    let object = self.pattern_value_from_term_or_variable(
                        &triple.object,
                        variables,
                        record,
                    )?;
                    plan =
                    PlanNode::QuadPatternJoin {
                        child: Box::new(plan),
                        subject,
                        predicate,
                        object,
                        graph_name,
                    };
                },
                TripleOrPathPattern::Path(_) => {
                    return Err(Stop::Stuck);
                },
            }
            i = i + 1;
        }
        Ok(plan)
    }

    /// Plans a row of bindings.
    #[verifier::loop_isolation(false)]
    fn encode_row<'p>(
        &self,
        bindings: &'p StaticBindings,
        values: &'p Vec<Option<Term>>,
        variables: &mut Vec<Variable>,
        record: &mut Ghost<Record<S::Error>>,
    ) -> (result: Result<EncodedTuple, Stop<'p, S::Error>>)
        ensures
            continues(*self.store, old(record)@, final(record)@),
            forall|answers: Answers<S::Error>| #[trigger]
                replays(answers, final(record)@) ==> row_run(
                    bindings.variables@,
                    values@,
                    0,
                    blank_tuple(names(old(variables)@).len()),
                    answers,
                    progress(old(variables)@, old(record)@),
                ) == (tuple_outcome(result), progress(final(variables)@, final(record)@)),
    {
        let width = variables.len();
        let mut tuple: EncodedTuple = Vec::new();
        while tuple.len() < width
            invariant
                tuple@.len() <= width,
                forall|j: int| 0 <= j < tuple@.len() ==> tuple@[j] is None,
            decreases width - tuple@.len(),
        {
            tuple.push(None);
        }
        assert(tuple@ =~= blank_tuple(names(variables@).len()));
        let ghost start = progress(variables@, record@);
        let ghost blank = tuple@;
        let mut key: usize = 0;
        while key < values.len()
            invariant
                key <= values@.len(),
                continues(*self.store, old(record)@, record@),
                forall|answers: Answers<S::Error>| #[trigger]
                    replays(answers, record@) ==> row_run(
                        bindings.variables@,
                        values@,
                        0,
                        blank,
                        answers,
                        start,
                    ) == row_run(
                        bindings.variables@,
                        values@,
                        key as int,
                        tuple@,
                        answers,
                        progress(variables@, record@),
                    ),
            decreases values@.len() - key,
        {
            if let Some(term) = &values[key] {
                let code = self.encode_term(term, record)?;
                if key >= bindings.variables.len() {
                    return Err(Stop::Stuck);
                }
                let position = variable_key(variables, &bindings.variables[key]);
                if position >= tuple.len() {
                    return Err(Stop::Stuck);
                }
                tuple[position] = Some(code);
            }
            key = key + 1;
        }
        Ok(tuple)
    }

    /// Plans a table of bindings.
    #[verifier::loop_isolation(false)]
    fn encode_bindings<'p>(
        &self,
        bindings: &'p StaticBindings,
        variables: &mut Vec<Variable>,
        record: &mut Ghost<Record<S::Error>>,
    ) -> (result: Result<Vec<EncodedTuple>, Stop<'p, S::Error>>)
        ensures
            continues(*self.store, old(record)@, final(record)@),
            forall|answers: Answers<S::Error>| #[trigger]
                replays(answers, final(record)@) ==> rows_run(
                    *bindings,
                    0,
                    seq![],
                    answers,
                    progress(old(variables)@, old(record)@),
                ) == (tuples_outcome(result), progress(final(variables)@, final(record)@)),
    {
        let ghost start = progress(variables@, record@);
        let mut tuples: Vec<EncodedTuple> = Vec::new();
        let mut i: usize = 0;
        assert(tuple_models(tuples@) =~= seq![]);
        while i < bindings.values.len()
            invariant
                i <= bindings.values@.len(),
                continues(*self.store, old(record)@, record@),
                forall|answers: Answers<S::Error>| #[trigger]
                    replays(answers, record@) ==> rows_run(
                        *bindings,
                        0,
                        seq![],
                        answers,
                        start,
                    ) == rows_run(
                        *bindings,
                        i as int,
                        tuple_models(tuples@),
                        answers,
                        progress(variables@, record@),
                    ),
            decreases bindings.values@.len() - i,
        {
            let ghost before = tuples@;
            let tuple = self.encode_row(bindings, &bindings.values[i], variables, record)?;
            tuples.push(tuple);
            assert(tuple_models(tuples@) =~= tuple_models(before).push(tuple@));
            i = i + 1;
        }
        Ok(tuples)
    }

    /// Plans an expression.
    fn build_for_expression<'p>(
        &self,
        expression: &'p Expression,
        variables: &mut Vec<Variable>,
        graph_name: PatternValue,
        record: &mut Ghost<Record<S::Error>>,
    ) -> (result: Result<PlanExpression, Stop<'p, S::Error>>)
        ensures
            continues(*self.store, old(record)@, final(record)@),
            forall|answers: Answers<S::Error>| #[trigger]
                replays(answers, final(record)@) ==> expression_run(
                    *expression,
                    graph_name.model(),
                    answers,
                    progress(old(variables)@, old(record)@),
                ) == (formula_outcome(result), progress(final(variables)@, final(record)@)),
        decreases *expression, 1nat,
    {
        match expression {
            Expression::Constant(TermOrVariable::Term(term)) => Ok(
                PlanExpression::Constant(self.encode_term(term, record)?),
            ),
            Expression::Constant(TermOrVariable::Variable(variable)) => Ok(
                PlanExpression::Variable(variable_key(variables, variable)),
            ),
            Expression::Bound(variable) => Ok(
                PlanExpression::Bound(variable_key(variables, variable)),
            ),
            Expression::Exists(pattern) => {
                let node = self.build_for_graph_pattern(
                    pattern,
                    PlanNode::Init,
                    variables,
                    graph_name,
                    record,
                )?;
                Ok(PlanExpression::Exists(Box::new(node)))
            },
            _ => {
                if let Some(error) = reject(expression) {
                    return Err(Stop::Failed(error));
                }
                let parts = self.expression_list(expression, variables, graph_name, record)?;
                if parts.len() < operand_minimum(expression) {
                    return Err(Stop::Stuck);
                }
                Ok(assemble(expression, parts))
            },
        }
    }

    /// Plans the operands of an expression.
    #[verifier::loop_isolation(false)]
    fn expression_list<'p>(
        &self,
        expression: &'p Expression,
        variables: &mut Vec<Variable>,
        graph_name: PatternValue,
        record: &mut Ghost<Record<S::Error>>,
    ) -> (result: Result<Vec<PlanExpression>, Stop<'p, S::Error>>)
        ensures
            continues(*self.store, old(record)@, final(record)@),
            forall|answers: Answers<S::Error>| #[trigger]
                replays(answers, final(record)@) ==> operands_run(
                    *expression,
                    0,
                    seq![],
                    graph_name.model(),
                    answers,
                    progress(old(variables)@, old(record)@),
                ) == (formulas_outcome(result), progress(final(variables)@, final(record)@)),
            result is Ok ==> result->Ok_0@.len() == operands(*expression).len(),
        decreases *expression, 0nat,
    {
        let ghost start = progress(variables@, record@);
        let mut parts: Vec<PlanExpression> = Vec::new();
        assert(expression_models(parts@) =~= seq![]);
        loop
            invariant
                parts@.len() <= operands(*expression).len(),
                continues(*self.store, old(record)@, record@),
                forall|answers: Answers<S::Error>| #[trigger]
                    replays(answers, record@) ==> operands_run(
                        *expression,
                        0,
                        seq![],
                        graph_name.model(),
                        answers,
                        start,
                    ) == operands_run(
                        *expression,
                        parts@.len() as int,
                        expression_models(parts@),
                        graph_name.model(),
                        answers,
                        progress(variables@, record@),
                    ),
            decreases operands(*expression).len() - parts@.len(),
        {
            match operand(expression, parts.len()) {
                None => {
                    return Ok(parts);
                },
                Some(e) => {
                    let ghost before = parts@;
                    proof {
                        lemma_operand_is_part(*expression, before.len() as int);
                    }
                    let part = self.build_for_expression(e, variables, graph_name, record)?;
                    parts.push(part);
                    assert(expression_models(parts@) =~= expression_models(before).push(
                        part.model(),
                    ));
                },
            }
        }
    }

    /// Plans a sort key.
    fn build_for_comparator<'p>(
        &self,
        comparator: &'p OrderComparator,
        variables: &mut Vec<Variable>,
        graph_name: PatternValue,
        record: &mut Ghost<Record<S::Error>>,
    ) -> (result: Result<Comparator, Stop<'p, S::Error>>)
        ensures
            continues(*self.store, old(record)@, final(record)@),
            forall|answers: Answers<S::Error>| #[trigger]
                replays(answers, final(record)@) ==> comparator_run(
                    *comparator,
                    graph_name.model(),
                    answers,
                    progress(old(variables)@, old(record)@),
                ) == (key_outcome(result), progress(final(variables)@, final(record)@)),
        decreases *comparator, 0nat,
    {
        match comparator {
            OrderComparator::Asc(e) => Ok(
                Comparator::Asc(self.build_for_expression(e, variables, graph_name, record)?),
            ),
            OrderComparator::Desc(e) => Ok(
                Comparator::Desc(self.build_for_expression(e, variables, graph_name, record)?),
            ),
        }
    }

    /// Plans sort keys.
    #[verifier::loop_isolation(false)]
    fn build_for_comparators<'p>(
        &self,
        order: &'p Vec<OrderComparator>,
        variables: &mut Vec<Variable>,
        graph_name: PatternValue,
        record: &mut Ghost<Record<S::Error>>,
    ) -> (result: Result<Vec<Comparator>, Stop<'p, S::Error>>)
        ensures
            continues(*self.store, old(record)@, final(record)@),
            forall|answers: Answers<S::Error>| #[trigger]
                replays(answers, final(record)@) ==> comparators_run(
                    order@,
                    0,
                    seq![],
                    graph_name.model(),
                    answers,
                    progress(old(variables)@, old(record)@),
                ) == (keys_outcome(result), progress(final(variables)@, final(record)@)),
        decreases *order, 0nat,
    {
        let ghost start = progress(variables@, record@);
        let mut by: Vec<Comparator> = Vec::new();
        let mut i: usize = 0;
        assert(comparator_models(by@) =~= seq![]);
        while i < order.len()
            invariant
                i <= order@.len(),
                continues(*self.store, old(record)@, record@),
                forall|answers: Answers<S::Error>| #[trigger]
                    replays(answers, record@) ==> comparators_run(
                        order@,
                        0,
                        seq![],
                        graph_name.model(),
                        answers,
                        start,
                    ) == comparators_run(
                        order@,
                        i as int,
                        comparator_models(by@),
                        graph_name.model(),
                        answers,
                        progress(variables@, record@),
                    ),
            decreases order@.len() - i,
        {
            let ghost before = by@;
            let key = self.build_for_comparator(&order[i], variables, graph_name, record)?;
            by.push(key);
            assert(comparator_models(by@) =~= comparator_models(before).push(key.model()));
            i = i + 1;
        }
        Ok(by)
    }

    /// Plans the alternatives of a union, nested unions flattened.
    #[verifier::loop_isolation(false)]
    fn build_for_union<'p>(
        &self,
        pattern: &'p GraphPattern,
        variables: &mut Vec<Variable>,
        graph_name: PatternValue,
        record: &mut Ghost<Record<S::Error>>,
    ) -> (result: Result<Vec<PlanNode>, Stop<'p, S::Error>>)
        requires
            *pattern is Union,
        ensures
            continues(*self.store, old(record)@, final(record)@),
            forall|answers: Answers<S::Error>| #[trigger]
                replays(answers, final(record)@) ==> branches_run(
                    *pattern,
                    0,
                    seq![],
                    graph_name.model(),
                    answers,
                    progress(old(variables)@, old(record)@),
                ) == (plans_outcome(result), progress(final(variables)@, final(record)@)),
        decreases *pattern, 0nat,
    {
        let ghost start = progress(variables@, record@);
        let mut stack: Vec<&'p GraphPattern> = Vec::new();
        stack.push(pattern);
        let mut children: Vec<PlanNode> = Vec::new();
        proof {
            assert(node_models(children@) =~= seq![]);
            reveal_with_fuel(pending, 2);
            assert(branches(*pattern).skip(0) =~= pending(stack@));
        }
        loop
            invariant
                children@.len() <= branches(*pattern).len(),
                branches(*pattern).skip(children@.len() as int) == pending(stack@),
                continues(*self.store, old(record)@, record@),
                forall|answers: Answers<S::Error>| #[trigger]
                    replays(answers, record@) ==> branches_run(
                        *pattern,
                        0,
                        seq![],
                        graph_name.model(),
                        answers,
                        start,
                    ) == branches_run(
                        *pattern,
                        children@.len() as int,
                        node_models(children@),
                        graph_name.model(),
                        answers,
                        progress(variables@, record@),
                    ),
            decreases weight(stack@),
        {
            let ghost before = stack@;
            let ghost done = children@;
            let ghost all = branches(*pattern);
            match stack.pop() {
                None => {
                    assert(all.skip(done.len() as int).len() == 0);
                    return Ok(children);
                },
                Some(GraphPattern::Union(a, b)) => {
                    proof {
                        lemma_pending_union(before, **a, **b);
                    }
                    stack.push(a);
                    stack.push(b);
                    assert(stack@ =~= before.drop_last().push(&**a).push(&**b));
                },
                Some(p) => {
                    proof {
                        assert(stack@ =~= before.drop_last());
                        assert(pending(before) == branches(*p) + pending(stack@));
                        assert(all.skip(done.len() as int)[0] == *p);
                        assert(all[done.len() as int] == *p);
                        lemma_branch_is_part(*pattern, done.len() as int);
                        assert(all.skip(done.len() as int + 1) =~= all.skip(
                            done.len() as int,
                        ).drop_first());
                        assert(pending(stack@) =~= pending(before).drop_first());
                    }
                    let child = self.build_for_graph_pattern(
                        p,
                        PlanNode::Init,
                        variables,
                        graph_name,
                        record,
                    )?;
                    children.push(child);
                    assert(node_models(children@) =~= node_models(done).push(child.model()));
                },
            }
        }
    }

    /// Plans a pattern over what `input` yields, in the graph `graph_name`.
    fn build_for_graph_pattern<'p>(
        &self,
        pattern: &'p GraphPattern,
        input: PlanNode,
        variables: &mut Vec<Variable>,
        graph_name: PatternValue,
        record: &mut Ghost<Record<S::Error>>,
    ) -> (result: Result<PlanNode, Stop<'p, S::Error>>)
        ensures
            continues(*self.store, old(record)@, final(record)@),
            forall|answers: Answers<S::Error>| #[trigger]
                replays(answers, final(record)@) ==> pattern_run(
                    *pattern,
                    input.model(),
                    graph_name.model(),
                    answers,
                    progress(old(variables)@, old(record)@),
                ) == (plan_outcome(result), progress(final(variables)@, final(record)@)),
        decreases *pattern, 1nat,
    {
        match pattern {
            GraphPattern::BGP(p) => self.build_for_bgp(p, input, variables, graph_name, record),
            GraphPattern::Join(a, b) => {
                let left = self.build_for_graph_pattern(
                    a,
                    input.clone(),
                    variables,
                    graph_name,
                    record,
                )?;
                let right = self.build_for_graph_pattern(b, input, variables, graph_name, record)?;
                Ok(PlanNode::Join { left: Box::new(left), right: Box::new(right) })
            },
            GraphPattern::LeftJoin(a, b, e) => {
                let left = self.build_for_graph_pattern(a, input, variables, graph_name, record)?;
                let right = self.build_for_graph_pattern(
                    b,
                    PlanNode::Init,
                    variables,
                    graph_name,
                    record,
                )?;
                // The condition `true` needs no filter.
                let right = if e.is_true() {
                    right
                } else {
                    PlanNode::Filter {
                        child: Box::new(right),
                        expression: self.build_for_expression(e, variables, graph_name, record)?,
                    }
                };
                let possible_problem_vars = positions_only_right(
                    &left,
                    &right,
                    graph_name,
                    variables.len(),
                );
                Ok(
                    PlanNode::LeftJoin {
                        left: Box::new(left),
                        right: Box::new(right),
                        possible_problem_vars,
                    },
                )
            },
            GraphPattern::Filter(e, p) => {
                let child = self.build_for_graph_pattern(p, input, variables, graph_name, record)?;
                let expression = self.build_for_expression(e, variables, graph_name, record)?;
                Ok(PlanNode::Filter { child: Box::new(child), expression })
            },
            GraphPattern::Union(_, _) => {
                let children = self.build_for_union(pattern, variables, graph_name, record)?;
                Ok(PlanNode::Union { entry: Box::new(input), children })
            },
            GraphPattern::Graph(g, p) => {
                let graph_name = self.pattern_value_from_named_node_or_variable(
                    g,
                    variables,
                    record,
                )?;
                self.build_for_graph_pattern(p, input, variables, graph_name, record)
            },
            GraphPattern::Extend(p, v, e) => {
                let child = self.build_for_graph_pattern(p, input, variables, graph_name, record)?;
                let position = variable_key(variables, v);
                let expression = self.build_for_expression(e, variables, graph_name, record)?;
                Ok(PlanNode::Extend { child: Box::new(child), position, expression })
            },
            GraphPattern::Minus(a, b) => {
                let left = self.build_for_graph_pattern(
                    a,
                    input.clone(),
                    variables,
                    graph_name,
                    record,
                )?;
                let right = self.build_for_graph_pattern(b, input, variables, graph_name, record)?;
                Ok(PlanNode::AntiJoin { left: Box::new(left), right: Box::new(right) })
            },
            GraphPattern::Service(_, _, _) => Err(Stop::Stuck),
            GraphPattern::AggregateJoin(_, _) => Err(Stop::Stuck),
            GraphPattern::Data(bs) => {
                let tuples = self.encode_bindings(bs, variables, record)?;
                Ok(PlanNode::StaticBindings { tuples })
            },
            GraphPattern::OrderBy(l, o) => {
                let by = self.build_for_comparators(o, variables, graph_name, record);
                if let Err(Stop::Stuck) = by {
                    return Err(Stop::Stuck);
                }
                let child = self.build_for_graph_pattern(l, input, variables, graph_name, record)?;
                Ok(PlanNode::Sort { child: Box::new(child), by: by? })
            },
            GraphPattern::Project(l, new_variables) => {
                let mut inner = copy_variables(new_variables);
                let child = self.build_for_graph_pattern(
                    l,
                    input,
                    &mut inner,
                    graph_name,
                    record,
                )?;
                let mapping = keys_of(new_variables, variables, Ghost(questions(record@)));
                Ok(PlanNode::Project { child: Box::new(child), mapping })
            },
            GraphPattern::Distinct(l) => {
                let child = self.build_for_graph_pattern(l, input, variables, graph_name, record)?;
                Ok(PlanNode::HashDeduplicate { child: Box::new(child) })
            },
            GraphPattern::Reduced(l) => self.build_for_graph_pattern(
                l,
                input,
                variables,
                graph_name,
                record,
            ),
            GraphPattern::Slice(l, start, length) => {
                let plan = self.build_for_graph_pattern(l, input, variables, graph_name, record)?;
                Ok(slice_plan(plan, *start, *length))
            },
        }
    }

    fn template_value_from_term_or_variable<'p>(
        &self,
        term_or_variable: &'p TermOrVariable,
        variables: &mut Vec<Variable>,
        bnodes: &mut Vec<Variable>,
        record: &mut Ghost<Record<S::Error>>,
    ) -> (result: Result<TripleTemplateValue, Stop<'p, S::Error>>)
        ensures
            continues(*self.store, old(record)@, final(record)@),
            forall|answers: Answers<S::Error>| #[trigger]
                replays(answers, final(record)@) ==> template_end_run(
                    *term_or_variable,
                    answers,
                    progress(old(variables)@, old(record)@),
                    names(old(bnodes)@),
                ) == (
                    template_slot_outcome(result),
                    progress(final(variables)@, final(record)@),
                    names(final(bnodes)@),
                ),
            result is Err ==> result->Err_0 is Failed,
    {
        match term_or_variable {
            TermOrVariable::Term(term) => Ok(
                TripleTemplateValue::Constant(self.encode_term(term, record)?),
            ),
            TermOrVariable::Variable(variable) => if variable.has_name() {
                Ok(TripleTemplateValue::Variable(variable_key(variables, variable)))
            } else {
                Ok(TripleTemplateValue::BlankNode(variable_key(bnodes, variable)))
            },
        }
    }

    fn template_value_from_named_node_or_variable<'p>(
        &self,
        named_node_or_variable: &'p NamedNodeOrVariable,
        variables: &mut Vec<Variable>,
        bnodes: &mut Vec<Variable>,
        record: &mut Ghost<Record<S::Error>>,
    ) -> (result: Result<TripleTemplateValue, Stop<'p, S::Error>>)
        ensures
            continues(*self.store, old(record)@, final(record)@),
            forall|answers: Answers<S::Error>| #[trigger]
                replays(answers, final(record)@) ==> template_middle_run(
                    *named_node_or_variable,
                    answers,
                    progress(old(variables)@, old(record)@),
                    names(old(bnodes)@),
                ) == (
                    template_slot_outcome(result),
                    progress(final(variables)@, final(record)@),
                    names(final(bnodes)@),
                ),
            result is Err ==> result->Err_0 is Failed,
    {
        match named_node_or_variable {
            NamedNodeOrVariable::NamedNode(term) => Ok(
                TripleTemplateValue::Constant(self.encode_named_node(term, record)?),
            ),
            NamedNodeOrVariable::Variable(variable) => if variable.has_name() {
                Ok(TripleTemplateValue::Variable(variable_key(variables, variable)))
            } else {
                Ok(TripleTemplateValue::BlankNode(variable_key(bnodes, variable)))
            },
        }
    }

    /// Plans a triple of a template.
    fn build_for_template_triple<'p>(
        &self,
        triple: &'p TriplePattern,
        variables: &mut Vec<Variable>,
        bnodes: &mut Vec<Variable>,
        record: &mut Ghost<Record<S::Error>>,
    ) -> (result: Result<TripleTemplate, Stop<'p, S::Error>>)
        ensures
            continues(*self.store, old(record)@, final(record)@),
            forall|answers: Answers<S::Error>| #[trigger]
                replays(answers, final(record)@) ==> template_triple_run(
                    *triple,
                    answers,
                    progress(old(variables)@, old(record)@),
                    names(old(bnodes)@),
                ) == (
                    template_triple_outcome(result),
                    progress(final(variables)@, final(record)@),
                    names(final(bnodes)@),
                ),
            result is Err ==> result->Err_0 is Failed,
    {
        Ok(
            TripleTemplate {
                subject: self.template_value_from_term_or_variable(
                    &triple.subject,
                    variables,
                    bnodes,
                    record,
                )?,
                predicate: self.template_value_from_named_node_or_variable(
                    &triple.predicate,
                    variables,
                    bnodes,
                    record,
                )?,
                object: self.template_value_from_term_or_variable(
                    &triple.object,
                    variables,
                    bnodes,
                    record,
                )?,
            },
        )
    }

    /// Plans a template of triples.
    #[verifier::loop_isolation(false)]
    fn build_for_graph_template<'p>(
        &self,
        template: &'p [TriplePattern],
        variables: &mut Vec<Variable>,
        record: &mut Ghost<Record<S::Error>>,
    ) -> (result: Result<Vec<TripleTemplate>, Stop<'p, S::Error>>)
        ensures
            continues(*self.store, old(record)@, final(record)@),
            forall|answers: Answers<S::Error>| #[trigger]
                replays(answers, final(record)@) ==> {
                    let (outcome, end, _) = template_run(
                        template@,
                        0,
                        seq![],
                        answers,
                        progress(old(variables)@, old(record)@),
                        seq![],
                    );
                    &&& outcome == template_outcome(result)
                    &&& end == progress(final(variables)@, final(record)@)
                },
            result is Err ==> result->Err_0 is Failed,
    {
        let ghost start = progress(variables@, record@);
        let mut bnodes: Vec<Variable> = Vec::new();
        let mut triples: Vec<TripleTemplate> = Vec::new();
        let mut i: usize = 0;
        assert(names(bnodes@) =~= seq![]);
        assert(template_models(triples@) =~= seq![]);
        while i < template.len()
            invariant
                i <= template@.len(),
                continues(*self.store, old(record)@, record@),
                forall|answers: Answers<S::Error>| #[trigger]
                    replays(answers, record@) ==> template_run(
                        template@,
                        0,
                        seq![],
                        answers,
                        start,
                        seq![],
                    ) == template_run(
                        template@,
                        i as int,
                        template_models(triples@),
                        answers,
                        progress(variables@, record@),
                        names(bnodes@),
                    ),
            decreases template@.len() - i,
        {
            let ghost before = triples@;
            let triple = self.build_for_template_triple(
                &template[i],
                variables,
                &mut bnodes,
                record,
            )?;
            triples.push(triple);
            assert(template_models(triples@) =~= template_models(before).push(triple.model()));
            i = i + 1;
        }
        Ok(triples)
    }
}

/// The answers that a record holds.
spec fn answers_of<E>(record: Record<E>) -> Answers<E> {
    |i: int|
        if 0 <= i < record.len() {
            record[i].1
        } else {
            arbitrary()
        }
}

/// A record that was kept from the start holds what the store may answer.
proof fn lemma_record_is_honest<S: StoreConnection>(store: S, record: Record<S::Error>)
    requires
        continues(store, seq![], record),
    ensures
        replays(answers_of(record), record),
        may_answer_all(store, questions(record), answers_of(record)),
{
    reveal(replays);
    reveal(continues);
    assert forall|i: int| 0 <= i < questions(record).len() implies may_answer(
        store,
        #[trigger] questions(record)[i],
        answers_of(record)(i),
    ) by {
        assert(record[i].0 == questions(record)[i]);
    }
}

/// Cuts the first `start` tuples off, and what comes after `length` more.
fn slice_plan(plan: PlanNode, start: usize, length: Option<usize>) -> (cut: PlanNode)
    ensures
        cut.model() == sliced(plan.model(), start as nat, length),
{
    let rest = if start > 0 {
        PlanNode::Skip { child: Box::new(plan), count: start }
    } else {
        plan
    };
    assert(rest.model() == sliced(plan.model(), start as nat, None));
    match length {
        Some(length) => PlanNode::Limit { child: Box::new(rest), count: length },
        None => rest,
    }
}

/// The alternatives that are left on a stack of patterns, from the top down.
spec fn pending(stack: Seq<&GraphPattern>) -> Seq<GraphPattern>
    decreases stack.len(),
{
    if stack.len() == 0 {
        seq![]
    } else {
        branches(*stack.last()) + pending(stack.drop_last())
    }
}

/// How many patterns there are in a union, itself and its nested unions among them.
spec fn union_size(pattern: GraphPattern) -> nat
    decreases pattern,
{
    match pattern {
        GraphPattern::Union(a, b) => 1 + union_size(*a) + union_size(*b),
        _ => 1,
    }
}

/// How many patterns are left on a stack of patterns.
spec fn weight(stack: Seq<&GraphPattern>) -> nat
    decreases stack.len(),
{
    if stack.len() == 0 {
        0
    } else {
        union_size(*stack.last()) + weight(stack.drop_last())
    }
}

/// The two sides of a union can take its place on the stack.
proof fn lemma_pending_union(stack: Seq<&GraphPattern>, a: GraphPattern, b: GraphPattern)
    requires
        stack.len() > 0,
        *stack.last() == GraphPattern::Union(Box::new(a), Box::new(b)),
    ensures
        pending(stack.drop_last().push(&a).push(&b)) == pending(stack),
        weight(stack.drop_last().push(&a).push(&b)) < weight(stack),
{
    let rest = stack.drop_last();
    assert(rest.push(&a).drop_last() =~= rest);
    assert(rest.push(&a).push(&b).drop_last() =~= rest.push(&a));
    assert(rest.push(&a).last() == &a);
    assert(rest.push(&a).push(&b).last() == &b);
    assert(pending(rest.push(&a)) == branches(a) + pending(rest));
    assert(pending(stack) =~= branches(b) + branches(a) + pending(rest));
    assert(pending(rest.push(&a).push(&b)) =~= branches(b) + (branches(a) + pending(rest)));
    assert(weight(rest.push(&a)) == union_size(a) + weight(rest));
}

/// The positions that `right` mentions and `left` does not. They are below `width`, but for that
/// of the graph.
fn positions_only_right(
    left: &PlanNode,
    right: &PlanNode,
    graph_name: PatternValue,
    width: usize,
) -> (list: Vec<usize>)
    ensures
        positions(list@) == problem_positions(
            left.model(),
            right.model(),
            graph_name.model(),
            width as nat,
        ),
{
    let mut list: Vec<usize> = Vec::new();
    assert(positions(list@) =~= seq![]);
    for k in 0..width
        invariant
            positions(list@) == only_right(left.model(), right.model(), k as nat),
    {
        let ghost before = list@;
        if right.mentions(k) && !left.mentions(k) {
            list.push(k);
            assert(positions(list@) =~= positions(before).push(k as nat));
        }
    }
    if let PatternValue::Variable(k) = graph_name {
        let ghost before = list@;
        if k >= width && right.mentions(k) && !left.mentions(k) {
            list.push(k);
            assert(positions(list@) =~= positions(before).push(k as nat));
        }
    }
    list
}

/// The keys of variables, each numbered in turn.
fn keys_of(
    list: &Vec<Variable>,
    variables: &mut Vec<Variable>,
    Ghost(asked): Ghost<Seq<Question>>,
) -> (keys: Vec<usize>)
    ensures
        keys_run(list@, 0, seq![], Progress { variables: names(old(variables)@), asked }) == (
            positions(keys@),
            Progress { variables: names(final(variables)@), asked },
        ),
{
    let mut keys: Vec<usize> = Vec::new();
    let mut i: usize = 0;
    assert(positions(keys@) =~= seq![]);
    while i < list.len()
        invariant
            i <= list@.len(),
            keys_run(list@, 0, seq![], Progress { variables: names(old(variables)@), asked })
                == keys_run(
                list@,
                i as int,
                positions(keys@),
                Progress { variables: names(variables@), asked },
            ),
        decreases list@.len() - i,
    {
        let ghost before = keys@;
        let key = variable_key(variables, &list[i]);
        keys.push(key);
        assert(positions(keys@) =~= positions(before).push(key as nat));
        i = i + 1;
    }
    keys
}

} // verus!
