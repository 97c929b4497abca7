//! Groups of suppliers: one request goes to every member, and the answers
//! are split into successes and failures.

use vstd::prelude::*;
use crate::errors::SupplierError;
use crate::models::{SupplierRequest, SupplierResponse};
use crate::supplier::{Supplier, SupplierHandle};

verus! {

/// What one member of a group made of a request: its name, and its response
/// or its error.
pub type Answer = (Seq<char>, Result<SupplierResponse, SupplierError>);

/// The entry that an answer adds to the successes, if it is a success.
pub open spec fn success_of(answer: Answer) -> Option<(Seq<char>, SupplierResponse)> {
    match answer.1 {
        Ok(response) => Some((answer.0, response)),
        Err(_) => None,
    }
}

/// The entry that an answer adds to the failures, if it is a failure.
pub open spec fn failure_of(answer: Answer) -> Option<(Seq<char>, SupplierError)> {
    match answer.1 {
        Ok(_) => None,
        Err(error) => Some((answer.0, error)),
    }
}

/// The successes among the answers, in the order of the answers.
pub open spec fn successes_of(answers: Seq<Answer>) -> Seq<(Seq<char>, SupplierResponse)> {
    answers.filter_map(|answer: Answer| success_of(answer))
}

/// The failures among the answers, in the order of the answers.
pub open spec fn failures_of(answers: Seq<Answer>) -> Seq<(Seq<char>, SupplierError)> {
    answers.filter_map(|answer: Answer| failure_of(answer))
}

/// The answers of a group: answer `i` is outcome `i` under name `i`.
pub open spec fn answers_of(
    names: Seq<Seq<char>>,
    outcomes: Seq<Result<SupplierResponse, SupplierError>>,
) -> Seq<Answer> {
    Seq::new(names.len(), |i: int| (names[i], outcomes[i]))
}

/// The members were asked: each gave the name and the outcome that stand at
/// its place, a name that it may go by and an answer that it may give to
/// `request`.
pub open spec fn asked(
    members: Seq<SupplierHandle>,
    request: SupplierRequest,
    names: Seq<Seq<char>>,
    outcomes: Seq<Result<SupplierResponse, SupplierError>>,
) -> bool {
    &&& names.len() == members.len()
    &&& outcomes.len() == members.len()
    &&& forall|i: int|
        0 <= i < members.len() ==> (#[trigger] members[i]).goes_by(names[i]) && members[i].answers(
            request,
            outcomes[i],
        )
}

/// The outcome of one request to a group: who answered with what, and who
/// failed with which error. Both lists keep the order of the group's members.
pub struct SupplierGroupResult {
    /// The members that answered, each with its response.
    pub successes: Vec<(String, SupplierResponse)>,
    /// The members that failed, each with its error.
    pub failures: Vec<(String, SupplierError)>,
}

impl SupplierGroupResult {
    /// The successes, with each name as text.
    pub open spec fn successes_view(&self) -> Seq<(Seq<char>, SupplierResponse)> {
        self.successes@.map_values(|entry: (String, SupplierResponse)| (entry.0@, entry.1))
    }

    /// The failures, with each name as text.
    pub open spec fn failures_view(&self) -> Seq<(Seq<char>, SupplierError)> {
        self.failures@.map_values(|entry: (String, SupplierError)| (entry.0@, entry.1))
    }

    /// The result holds the answers, given the name and the outcome of each
    /// member: the successes and the failures among them, in their order.
    pub open spec fn reports(
        &self,
        names: Seq<Seq<char>>,
        outcomes: Seq<Result<SupplierResponse, SupplierError>>,
    ) -> bool {
        &&& outcomes.len() == names.len()
        &&& self.successes_view() == successes_of(answers_of(names, outcomes))
        &&& self.failures_view() == failures_of(answers_of(names, outcomes))
    }

    /// Files one member's outcome under its name: a response goes to the end
    /// of the successes, an error to the end of the failures. The error is
    /// kept as it came.
    pub fn record(&mut self, name: String, outcome: Result<SupplierResponse, SupplierError>)
        ensures
            match outcome {
                Ok(response) => {
                    &&& final(self).successes@ == old(self).successes@.push((name, response))
                    &&& final(self).failures@ == old(self).failures@
                },
                Err(error) => {
                    &&& final(self).successes@ == old(self).successes@
                    &&& final(self).failures@ == old(self).failures@.push((name, error))
                },
            },
    {
        match outcome {
            Ok(response) => self.successes.push((name, response)),
            Err(error) => self.failures.push((name, error)),
        }
    }
}

/// A named set of suppliers that can be queried as one.
pub trait SupplierGroup {
    /// The group's display name.
    fn group_name(&self) -> &str;

    /// Sends the request to the members and reports what each made of it.
    fn query(&self, request: SupplierRequest) -> SupplierGroupResult;
}

/// A group that keeps its members in the order in which they were added and
/// queries them one after the other.
pub struct BasicSupplierGroup {
    name: String,
    suppliers: Vec<SupplierHandle>,
}

impl BasicSupplierGroup {
    /// The group's display name.
    pub closed spec fn spec_group_name(&self) -> Seq<char> {
        self.name@
    }

    /// The members, in the order in which they were added.
    pub closed spec fn members(&self) -> Seq<SupplierHandle> {
        self.suppliers@
    }

    /// A group without members.
    pub fn new(name: &str) -> (group: Self)
        ensures
            group.spec_group_name() == name@,
            group.members() == Seq::<SupplierHandle>::empty(),
    {
        BasicSupplierGroup { name: name.to_owned(), suppliers: Vec::new() }
    }

    /// Appends a supplier, behind a new handle that stands for it. Suppliers
    /// of the same name may be added more than once.
    pub fn add_supplier<S: Supplier + 'static>(&mut self, supplier: S)
        ensures
            final(self).spec_group_name() == old(self).spec_group_name(),
            exists|handle: SupplierHandle|
                handle.stands_for(supplier) && final(self).members() == old(self).members().push(
                    handle,
                ),
    {
        let handle = SupplierHandle::new(supplier);
        self.add_supplier_arc(handle);
    }

    /// Appends a supplier that is already behind a handle.
    pub fn add_supplier_arc(&mut self, supplier: SupplierHandle)
        ensures
            final(self).spec_group_name() == old(self).spec_group_name(),
            final(self).members() == old(self).members().push(supplier),
    {
        self.suppliers.push(supplier);
    }
}

/// One more name with one more outcome adds one answer at the end.
proof fn lemma_answers_push(
    names: Seq<Seq<char>>,
    outcomes: Seq<Result<SupplierResponse, SupplierError>>,
    name: Seq<char>,
    outcome: Result<SupplierResponse, SupplierError>,
)
    requires
        outcomes.len() == names.len(),
    ensures
        answers_of(names.push(name), outcomes.push(outcome)) == answers_of(names, outcomes).push(
            (name, outcome),
        ),
{
    assert(answers_of(names.push(name), outcomes.push(outcome)) =~= answers_of(
        names,
        outcomes,
    ).push((name, outcome)));
}

/// What one more answer adds to the successes and to the failures.
proof fn lemma_partition_push(answers: Seq<Answer>, answer: Answer)
    ensures
        successes_of(answers.push(answer)) == match answer.1 {
            Ok(response) => successes_of(answers).push((answer.0, response)),
            Err(_) => successes_of(answers),
        },
        failures_of(answers.push(answer)) == match answer.1 {
            Ok(_) => failures_of(answers),
            Err(error) => failures_of(answers).push((answer.0, error)),
        },
{
    assert(answers.push(answer).drop_last() =~= answers);
}

/// Every answer is a success or a failure, and not both.
proof fn lemma_partition_len(answers: Seq<Answer>)
    ensures
        successes_of(answers).len() + failures_of(answers).len() == answers.len(),
    decreases answers.len(),
{
    if answers.len() > 0 {
        lemma_partition_len(answers.drop_last());
        lemma_partition_push(answers.drop_last(), answers.last());
    }
}

/// Each answer stands in the list that its outcome calls for.
proof fn lemma_partition_holds(answers: Seq<Answer>, i: int)
    requires
        0 <= i < answers.len(),
    ensures
        match answers[i].1 {
            Ok(response) => successes_of(answers).contains((answers[i].0, response)),
            Err(error) => failures_of(answers).contains((answers[i].0, error)),
        },
    decreases answers.len(),
{
    let rest = answers.drop_last();
    lemma_partition_push(rest, answers.last());
    if i < rest.len() {
        lemma_partition_holds(rest, i);
        match answers[i].1 {
            Ok(response) => {
                let k = choose|k: int|
                    0 <= k < successes_of(rest).len() && successes_of(rest)[k] == (
                        answers[i].0,
                        response,
                    );
                assert(successes_of(answers)[k] == (answers[i].0, response));
            },
            Err(error) => {
                let k = choose|k: int|
                    0 <= k < failures_of(rest).len() && failures_of(rest)[k] == (
                        answers[i].0,
                        error,
                    );
                assert(failures_of(answers)[k] == (answers[i].0, error));
            },
        }
    } else {
        match answers[i].1 {
            Ok(response) => {
                assert(successes_of(answers).last() == (answers[i].0, response));
            },
            Err(error) => {
                assert(failures_of(answers).last() == (answers[i].0, error));
            },
        }
    }
}

/// Each success is the answer of a member that succeeded.
proof fn lemma_success_has_source(answers: Seq<Answer>, k: int) -> (i: int)
    requires
        0 <= k < successes_of(answers).len(),
    ensures
        0 <= i < answers.len(),
        answers[i] == (successes_of(answers)[k].0, Ok::<SupplierResponse, SupplierError>(
            successes_of(answers)[k].1,
        )),
    decreases answers.len(),
{
    let rest = answers.drop_last();
    lemma_partition_push(rest, answers.last());
    if k < successes_of(rest).len() {
        lemma_success_has_source(rest, k)
    } else {
        answers.len() - 1
    }
}

/// Each failure is the answer of a member that failed.
proof fn lemma_failure_has_source(answers: Seq<Answer>, k: int) -> (i: int)
    requires
        0 <= k < failures_of(answers).len(),
    ensures
        0 <= i < answers.len(),
        answers[i] == (failures_of(answers)[k].0, Err::<SupplierResponse, SupplierError>(
            failures_of(answers)[k].1,
        )),
    decreases answers.len(),
{
    let rest = answers.drop_last();
    lemma_partition_push(rest, answers.last());
    if k < failures_of(rest).len() {
        lemma_failure_has_source(rest, k)
    } else {
        answers.len() - 1
    }
}

/// Where every answer is a success, the successes are the answers.
proof fn lemma_all_successes(answers: Seq<Answer>)
    requires
        forall|i: int| 0 <= i < answers.len() ==> (#[trigger] answers[i]).1 is Ok,
    ensures
        failures_of(answers).len() == 0,
        successes_of(answers).len() == answers.len(),
        forall|i: int|
            0 <= i < answers.len() ==> #[trigger] successes_of(answers)[i] == (
                answers[i].0,
                answers[i].1->Ok_0,
            ),
    decreases answers.len(),
{
    if answers.len() > 0 {
        let rest = answers.drop_last();
        assert forall|i: int| 0 <= i < rest.len() implies (#[trigger] rest[i]).1 is Ok by {
            assert(answers[i].1 is Ok);
        }
        lemma_all_successes(rest);
        lemma_partition_push(rest, answers.last());
    }
}

/// A group's result accounts for every answer: the successes and the
/// failures together are as many as the answers, one for each member.
pub proof fn lemma_partition_complete(
    result: SupplierGroupResult,
    names: Seq<Seq<char>>,
    outcomes: Seq<Result<SupplierResponse, SupplierError>>,
)
    requires
        result.reports(names, outcomes),
    ensures
        result.successes@.len() + result.failures@.len() == names.len(),
{
    lemma_partition_len(answers_of(names, outcomes));
}

/// A failure never hides a later member, and no member is filed twice or
/// under the wrong heading: the failures hold exactly the members that
/// failed, each under its name with its error, and the successes exactly the
/// members that succeeded, each under its name with its response, wherever
/// the failing members stand among the others.
pub proof fn lemma_partition_exact(
    result: SupplierGroupResult,
    names: Seq<Seq<char>>,
    outcomes: Seq<Result<SupplierResponse, SupplierError>>,
)
    requires
        result.reports(names, outcomes),
    ensures
        forall|i: int|
            0 <= i < names.len() && (#[trigger] outcomes[i]) is Ok
                ==> result.successes_view().contains((names[i], outcomes[i]->Ok_0)),
        forall|i: int|
            0 <= i < names.len() && (#[trigger] outcomes[i]) is Err
                ==> result.failures_view().contains((names[i], outcomes[i]->Err_0)),
        forall|k: int|
            0 <= k < result.successes_view().len() ==> exists|i: int|
                0 <= i < names.len() && #[trigger] names[i] == (#[trigger] result.successes_view()[
                    k
                ]).0 && outcomes[i] == Ok::<SupplierResponse, SupplierError>(
                    result.successes_view()[k].1,
                ),
        forall|k: int|
            0 <= k < result.failures_view().len() ==> exists|i: int|
                0 <= i < names.len() && #[trigger] names[i] == (#[trigger] result.failures_view()[
                    k
                ]).0 && outcomes[i] == Err::<SupplierResponse, SupplierError>(
                    result.failures_view()[k].1,
                ),
        result.successes_view().len() + result.failures_view().len() == names.len(),
{
    let answers = answers_of(names, outcomes);
    lemma_partition_len(answers);
    assert forall|i: int| 0 <= i < names.len() && (#[trigger] outcomes[i]) is Ok implies
        result.successes_view().contains((names[i], outcomes[i]->Ok_0)) by {
        lemma_partition_holds(answers, i);
    }
    assert forall|i: int| 0 <= i < names.len() && (#[trigger] outcomes[i]) is Err implies
        result.failures_view().contains((names[i], outcomes[i]->Err_0)) by {
        lemma_partition_holds(answers, i);
    }
    assert forall|k: int| 0 <= k < result.successes_view().len() implies exists|i: int|
        0 <= i < names.len() && #[trigger] names[i] == (#[trigger] result.successes_view()[k]).0
            && outcomes[i] == Ok::<SupplierResponse, SupplierError>(
            result.successes_view()[k].1,
        ) by {
        let i = lemma_success_has_source(answers, k);
        assert(answers[i] == (names[i], outcomes[i]));
    }
    assert forall|k: int| 0 <= k < result.failures_view().len() implies exists|i: int|
        0 <= i < names.len() && #[trigger] names[i] == (#[trigger] result.failures_view()[k]).0
            && outcomes[i] == Err::<SupplierResponse, SupplierError>(
            result.failures_view()[k].1,
        ) by {
        let i = lemma_failure_has_source(answers, k);
        assert(answers[i] == (names[i], outcomes[i]));
    }
}

/// Where every member succeeds, the successes stand in the order of the
/// members: success `i` is member `i` under its name with its response, and
/// there is no failure.
pub proof fn lemma_successes_keep_order(
    result: SupplierGroupResult,
    names: Seq<Seq<char>>,
    outcomes: Seq<Result<SupplierResponse, SupplierError>>,
)
    requires
        result.reports(names, outcomes),
        forall|i: int| 0 <= i < names.len() ==> (#[trigger] outcomes[i]) is Ok,
    ensures
        result.failures@.len() == 0,
        result.successes@.len() == names.len(),
        forall|i: int|
            0 <= i < names.len() ==> #[trigger] result.successes_view()[i] == (
                names[i],
                outcomes[i]->Ok_0,
            ),
{
    let answers = answers_of(names, outcomes);
    assert forall|i: int| 0 <= i < answers.len() implies (#[trigger] answers[i]).1 is Ok by {
        assert(outcomes[i] is Ok);
    }
    lemma_all_successes(answers);
}

/// A group without members reports no success and no failure, whatever the
/// request.
pub proof fn lemma_empty_group(
    result: SupplierGroupResult,
    names: Seq<Seq<char>>,
    outcomes: Seq<Result<SupplierResponse, SupplierError>>,
)
    requires
        result.reports(names, outcomes),
        names.len() == 0,
    ensures
        result.successes@ == Seq::<(String, SupplierResponse)>::empty(),
        result.failures@ == Seq::<(String, SupplierError)>::empty(),
{
    lemma_partition_len(answers_of(names, outcomes));
}

impl SupplierGroup for BasicSupplierGroup {
    /// The name that the group was made with.
    fn group_name(&self) -> (name: &str)
        ensures
            name@ == self.spec_group_name(),
    {
        self.name.as_str()
    }

    /// Sends a copy of the request to every member, in the order of the
    /// members, whatever the earlier members answered, and asks the member
    /// for its name. Each answer is filed under that name: the result holds
    /// what the members answered to the request, and nothing else.
    fn query(&self, request: SupplierRequest) -> (result: SupplierGroupResult)
        ensures
            result.successes@.len() + result.failures@.len() == self.members().len(),
            exists|names: Seq<Seq<char>>, outcomes: Seq<Result<SupplierResponse, SupplierError>>|
                asked(self.members(), request, names, outcomes) && result.reports(names, outcomes),
    {
        let mut result = SupplierGroupResult { successes: Vec::new(), failures: Vec::new() };
        let ghost mut names = Seq::<Seq<char>>::empty();
        let ghost mut outcomes = Seq::<Result<SupplierResponse, SupplierError>>::empty();
        let mut i: usize = 0;
        proof {
            assert(result.successes_view() =~= successes_of(Seq::<Answer>::empty()));
            assert(result.failures_view() =~= failures_of(Seq::<Answer>::empty()));
        }
        while i < self.suppliers.len()
            invariant
                i <= self.suppliers.len(),
                result.successes@.len() + result.failures@.len() == i,
                asked(self.suppliers@.take(i as int), request, names, outcomes),
                result.reports(names, outcomes),
            decreases self.suppliers.len() - i,
        {
            let member = &self.suppliers[i];
            let copy = request.clone();
            assert(copy == request);
            let outcome = member.query(copy);
            let name = member.name().to_owned();
            proof {
                lemma_answers_push(names, outcomes, name@, outcome);
                lemma_partition_push(answers_of(names, outcomes), (name@, outcome));
                names = names.push(name@);
                outcomes = outcomes.push(outcome);
                assert(self.suppliers@.take(i + 1) =~= self.suppliers@.take(i as int).push(*member));
            }
            let ghost earlier = result;
            let ghost answer = (name@, outcome);
            result.record(name, outcome);
            proof {
                match answer.1 {
                    Ok(response) => {
                        assert(result.successes_view() =~= earlier.successes_view().push(
                            (answer.0, response),
                        ));
                    },
                    Err(error) => {
                        assert(result.failures_view() =~= earlier.failures_view().push(
                            (answer.0, error),
                        ));
                    },
                }
            }
            i = i + 1;
        }
        proof {
            assert(self.suppliers@.take(i as int) =~= self.suppliers@);
        }
        result
    }
}

} // verus!
