//! Iteration over the answers of a completed query.
use vstd::prelude::*;

use crate::address::IpAddress;
use crate::answer::{AnswerView, QueryResult, SocketAnswer};

verus! {

/// The handle by which a `smoltcp` DNS socket knows a query.
#[verifier::external_type_specification]
#[verifier::external_body]
pub struct ExQueryHandle(smoltcp::socket::dns::QueryHandle);

/// The answers to a query are no longer wanted: the network stack is to cancel the
/// query, which frees its slot, and then to wake its own task and those that wait
/// for a slot.
#[derive(Clone, Copy)]
pub struct Release {
    /// The query to cancel.
    pub query: smoltcp::socket::dns::QueryHandle,
}

/// How far an iteration has come.
pub enum IterView {
    /// The query holds its slot, and the answer at `next_index` comes next.
    Query { query: smoltcp::socket::dns::QueryHandle, next_index: nat },
    /// The slot has been given back.
    Done,
}

/// What one step of an iteration gives.
pub struct StepView {
    /// The state after the step.
    pub state: IterView,
    /// The answer handed out, if any.
    pub answer: Option<AnswerView>,
    /// The release that the network stack is to carry out, if any.
    pub release: Option<Release>,
}

/// What the answers kept by the socket say.
pub open spec fn views(answers: Seq<SocketAnswer<'_>>) -> Seq<AnswerView> {
    Seq::new(answers.len(), |i: int| answers[i]@)
}

impl IterView {
    /// A step hands out the next answer. Where there is none, it releases the query,
    /// which ends the iteration.
    pub open spec fn next(self, answers: Seq<AnswerView>) -> StepView {
        match self {
            IterView::Done => StepView { state: self, answer: None, release: None },
            IterView::Query { query, next_index } => if next_index < answers.len() {
                StepView {
                    state: IterView::Query { query, next_index: next_index + 1 },
                    answer: Some(answers[next_index as int]),
                    release: None,
                }
            } else {
                StepView { state: IterView::Done, answer: None, release: Some(Release { query }) }
            },
        }
    }

    /// An iteration that is given up releases its query, unless that has been done.
    pub open spec fn drop(self) -> Option<Release> {
        match self {
            IterView::Done => None,
            IterView::Query { query, .. } => Some(Release { query }),
        }
    }

    /// The state after steps over the given answers, one step for each.
    pub open spec fn after(self, steps: Seq<Seq<AnswerView>>) -> IterView
        decreases steps.len(),
    {
        if steps.len() == 0 {
            self
        } else {
            self.after(steps.drop_last()).next(steps.last()).state
        }
    }

    /// The releases that come out of such steps.
    pub open spec fn releases(self, steps: Seq<Seq<AnswerView>>) -> Seq<Release>
        decreases steps.len(),
    {
        if steps.len() == 0 {
            seq![]
        } else {
            let before = self.releases(steps.drop_last());
            match self.after(steps.drop_last()).next(steps.last()).release {
                Some(release) => before.push(release),
                None => before,
            }
        }
    }

    /// All releases of an iteration that is given up after such steps.
    pub open spec fn all_releases(self, steps: Seq<Seq<AnswerView>>) -> Seq<Release> {
        match self.after(steps).drop() {
            Some(release) => self.releases(steps).push(release),
            None => self.releases(steps),
        }
    }
}

/// The first address among the answers from `from` on.
pub open spec fn first_address(answers: Seq<AnswerView>, from: nat) -> Option<IpAddress>
    decreases answers.len() - from,
{
    if from >= answers.len() {
        None
    } else {
        match answers[from as int] {
            AnswerView::Address(address) => Some(address),
            _ => first_address(answers, from + 1),
        }
    }
}

/// An iteration releases its query exactly once, whatever the answers are at each step,
/// and whether it comes to its end or is given up before.
pub proof fn law_query_is_released_once(
    query: smoltcp::socket::dns::QueryHandle,
    next_index: nat,
    steps: Seq<Seq<AnswerView>>,
)
    ensures
        (IterView::Query { query, next_index }).all_releases(steps) == seq![Release { query }],
    decreases steps.len(),
{
    let start = IterView::Query { query, next_index };
    if steps.len() > 0 {
        law_query_is_released_once(query, next_index, steps.drop_last());
        lemma_open_iteration(query, next_index, steps.drop_last());
        lemma_open_iteration(query, next_index, steps);
    }
    assert(start.all_releases(steps) =~= seq![Release { query }]);
}

/// An iteration goes on over its own query until it is done, and has released nothing
/// before.
proof fn lemma_open_iteration(
    query: smoltcp::socket::dns::QueryHandle,
    next_index: nat,
    steps: Seq<Seq<AnswerView>>,
)
    ensures
        match (IterView::Query { query, next_index }).after(steps) {
            IterView::Query { query: open, .. } => open == query && (IterView::Query {
                query,
                next_index,
            }).releases(steps) == Seq::<Release>::empty(),
            IterView::Done => (IterView::Query { query, next_index }).releases(steps) == seq![
                Release { query },
            ],
        },
    decreases steps.len(),
{
    if steps.len() > 0 {
        lemma_open_iteration(query, next_index, steps.drop_last());
        let start = IterView::Query { query, next_index };
        assert(start.releases(steps) =~= seq![Release { query }] || start.releases(steps)
            =~= Seq::<Release>::empty());
    }
}

/// Steps over unchanging answers hand them out in order, each one once, and then nothing
/// any more.
pub proof fn law_answers_come_in_order(
    query: smoltcp::socket::dns::QueryHandle,
    answers: Seq<AnswerView>,
    steps: nat,
)
    ensures
        (IterView::Query { query, next_index: 0 }).after(Seq::new(steps, |i: int| answers)).next(
            answers,
        ).answer == (if steps < answers.len() {
            Some(answers[steps as int])
        } else {
            None
        }),
{
    lemma_position(query, answers, steps);
}

/// The position after a number of steps over unchanging answers.
proof fn lemma_position(
    query: smoltcp::socket::dns::QueryHandle,
    answers: Seq<AnswerView>,
    steps: nat,
)
    ensures
        (IterView::Query { query, next_index: 0 }).after(Seq::new(steps, |i: int| answers)) == (
        if steps <= answers.len() {
            IterView::Query { query, next_index: steps }
        } else {
            IterView::Done
        }),
    decreases steps,
{
    let all = Seq::new(steps, |i: int| answers);
    if steps > 0 {
        let fewer = (steps - 1) as nat;
        lemma_position(query, answers, fewer);
        assert(all.drop_last() =~= Seq::new(fewer, |i: int| answers));
        assert(all.last() == answers);
    }
}

/// An iteration that is done stays done: it hands out nothing and releases nothing.
pub proof fn law_done_stays_done(steps: Seq<Seq<AnswerView>>)
    ensures
        IterView::Done.after(steps) == IterView::Done,
        IterView::Done.all_releases(steps) == Seq::<Release>::empty(),
    decreases steps.len(),
{
    if steps.len() > 0 {
        law_done_stays_done(steps.drop_last());
    }
}

/// An address is found exactly where one of the answers is an address, and it is the one
/// that comes first.
pub proof fn law_first_address(answers: Seq<AnswerView>, from: nat)
    ensures
        match first_address(answers, from) {
            Some(address) => exists|i: int|
                from <= i < answers.len() && #[trigger] answers[i] == AnswerView::Address(address)
                    && forall|j: int| from <= j < i ==> !(#[trigger] answers[j] is Address),
            None => forall|j: int| from <= j < answers.len() ==> !(#[trigger] answers[j] is Address),
        },
    decreases answers.len() - from,
{
    if from < answers.len() {
        match answers[from as int] {
            AnswerView::Address(_) => {},
            _ => {
                law_first_address(answers, from + 1);
            },
        }
    }
}

/// What the answers say is said of each of them in its place.
pub proof fn law_every_answer_is_viewed(answers: Seq<SocketAnswer<'_>>)
    ensures
        views(answers).len() == answers.len(),
        forall|i: int| 0 <= i < answers.len() ==> #[trigger] views(answers)[i] == answers[i]@,
{
}

/// The address found among the answers of a socket is that of the answer with the least
/// index that is an address; none is found where no answer is one.
pub proof fn law_first_address_of_slice(answers: Seq<SocketAnswer<'_>>, from: nat)
    ensures
        match first_address(views(answers), from) {
            Some(address) => exists|i: int|
                from <= i < answers.len() && #[trigger] answers[i] == SocketAnswer::Address(address)
                    && forall|j: int| from <= j < i ==> !(#[trigger] answers[j] is Address),
            None => forall|j: int| from <= j < answers.len() ==> !(#[trigger] answers[j] is Address),
        },
{
    law_first_address(views(answers), from);
    law_every_answer_is_viewed(answers);
    assert forall|j: int|
        from <= j < answers.len() && (#[trigger] answers[j] is Address) implies views(
        answers,
    )[j] is Address by {
        assert(views(answers)[j] == answers[j]@);
    }
    if let Some(address) = first_address(views(answers), from) {
        let i = choose|i: int|
            from <= i < views(answers).len() && #[trigger] views(answers)[i]
                == AnswerView::Address(address) && forall|j: int|
                from <= j < i ==> !(#[trigger] views(answers)[j] is Address);
        assert(views(answers)[i] == answers[i]@);
        assert(answers[i] == SocketAnswer::Address(address));
    }
}

/// Over a slice of `n` answers that stays as it is, the call after `k` others gives what the
/// answer at `k` says and releases nothing, for every `k` below `n`. The call after `n`
/// others gives nothing and releases the query, and those that follow give and release
/// nothing.
pub proof fn law_calls_over_a_slice(
    query: smoltcp::socket::dns::QueryHandle,
    answers: Seq<SocketAnswer<'_>>,
    k: nat,
)
    ensures
        ({
            let start = IterView::Query { query, next_index: 0 };
            let step = start.after(Seq::new(k, |i: int| views(answers))).next(views(answers));
            &&& k < answers.len() ==> step.answer == Some(answers[k as int]@)
                && step.release is None
            &&& k == answers.len() ==> step.answer is None && step.release == Some(
                Release { query },
            )
            &&& k > answers.len() ==> step.answer is None && step.release is None
        }),
{
    law_every_answer_is_viewed(answers);
    lemma_position(query, views(answers), k);
}

/// One step of an iteration over a slice of answers, at any position.
pub proof fn law_step_over_a_slice(state: IterView, answers: Seq<SocketAnswer<'_>>)
    ensures
        match state {
            IterView::Done => {
                &&& state.next(views(answers)).answer is None
                &&& state.next(views(answers)).release is None
                &&& state.next(views(answers)).state == IterView::Done
            },
            IterView::Query { query, next_index } => if next_index < answers.len() {
                &&& state.next(views(answers)).answer == Some(answers[next_index as int]@)
                &&& state.next(views(answers)).release is None
                &&& state.next(views(answers)).state == IterView::Query {
                    query,
                    next_index: next_index + 1,
                }
            } else {
                &&& state.next(views(answers)).answer is None
                &&& state.next(views(answers)).release == Some(Release { query })
                &&& state.next(views(answers)).state == IterView::Done
            },
        },
{
    law_every_answer_is_viewed(answers);
}

/// An iteration that is given up releases its own query, and nothing where it is done.
pub proof fn law_given_up_iteration_releases_its_query(state: IterView)
    ensures
        match state {
            IterView::Done => state.drop() is None,
            IterView::Query { query, .. } => state.drop() == Some(Release { query }),
        },
{
}

/// An iterator over the answers for a completed DNS query.
pub struct QueryResultIter {
    inner: QueryResultIterInner,
}

enum QueryResultIterInner {
    Query { query: smoltcp::socket::dns::QueryHandle, next_index: usize },
    Done,
}

impl View for QueryResultIter {
    type V = IterView;

    closed spec fn view(&self) -> IterView {
        match self.inner {
            QueryResultIterInner::Query { query, next_index } => IterView::Query {
                query,
                next_index: next_index as nat,
            },
            QueryResultIterInner::Done => IterView::Done,
        }
    }
}

impl QueryResultIter {
    /// Begins with the first answer of a query that holds its slot.
    pub fn new(query: smoltcp::socket::dns::QueryHandle) -> (iter: QueryResultIter)
        ensures
            iter@ == (IterView::Query { query, next_index: 0 }),
    {
        QueryResultIter { inner: QueryResultIterInner::Query { query, next_index: 0 } }
    }

    /// Hands out the next of the answers that the socket keeps for the query. At their
    /// end the query is to be released.
    pub fn next(&mut self, answers: &[SocketAnswer<'_>]) -> (step: (
        Option<QueryResult>,
        Option<Release>,
    ))
        ensures
            ({
                let expected = old(self)@.next(views(answers@));
                &&& final(self)@ == expected.state
                &&& (match step.0 {
                    Some(answer) => expected.answer == Some(answer@),
                    None => expected.answer is None,
                })
                &&& step.1 == expected.release
            }),
            match old(self)@ {
                IterView::Done => step == (None::<QueryResult>, None::<Release>) && final(self)@
                    == IterView::Done,
                IterView::Query { query, next_index } => if next_index < answers@.len() {
                    &&& step.0 matches Some(answer)
                    &&& answer@ == answers@[next_index as int]@
                    &&& step.1 is None
                    &&& final(self)@ == IterView::Query { query, next_index: next_index + 1 }
                } else {
                    &&& step.0 is None
                    &&& step.1 == Some(Release { query })
                    &&& final(self)@ == IterView::Done
                },
            },
    {
        match self.inner {
            QueryResultIterInner::Done => (None, None),
            QueryResultIterInner::Query { query, next_index } => {
                if next_index < answers.len() {
                    let answer = QueryResult::from(answers[next_index]);
                    self.inner = QueryResultIterInner::Query { query, next_index: next_index + 1 };
                    (Some(answer), None)
                } else {
                    self.inner = QueryResultIterInner::Done;
                    (None, Some(Release { query }))
                }
            },
        }
    }

    /// Gives the iteration up. A query that still holds its slot is to be released.
    pub fn drop(self) -> (release: Option<Release>)
        ensures
            release == self@.drop(),
            match self@ {
                IterView::Done => release is None,
                IterView::Query { query, .. } => release == Some(Release { query }),
            },
    {
        match self.inner {
            QueryResultIterInner::Done => None,
            QueryResultIterInner::Query { query, .. } => Some(Release { query }),
        }
    }

    /// Goes on to the first answer that is an address, then gives the iteration up.
    pub fn find_address(self, answers: &[SocketAnswer<'_>]) -> (found: (
        Option<IpAddress>,
        Option<Release>,
    ))
        ensures
            found.0 == (match self@ {
                IterView::Query { next_index, .. } => first_address(views(answers@), next_index),
                IterView::Done => None,
            }),
            found.1 == self@.drop(),
            match self@ {
                IterView::Done => found.0 is None && found.1 is None,
                IterView::Query { query, next_index } => {
                    &&& found.1 == Some(Release { query })
                    &&& match found.0 {
                        Some(address) => exists|i: int|
                            next_index <= i < answers@.len() && #[trigger] answers@[i]
                                == SocketAnswer::Address(address) && forall|j: int|
                                next_index <= j < i ==> !(#[trigger] answers@[j] is Address),
                        None => forall|j: int|
                            next_index <= j < answers@.len() ==> !(
                            #[trigger] answers@[j] is Address),
                    }
                },
            },
    {
        let mut iter = self;
        loop
            invariant
                match iter@ {
                    IterView::Query { query, next_index } => (self@ matches IterView::Query {
                        query: q,
                        next_index: i,
                    } && q == query && first_address(views(answers@), i) == first_address(
                        views(answers@),
                        next_index,
                    )),
                    IterView::Done => self@ == IterView::Done,
                },
            decreases
                    (match iter@ {
                        IterView::Query { next_index, .. } => answers@.len() - next_index,
                        IterView::Done => 0,
                    }),
        {
            proof {
                if let IterView::Query { next_index, .. } = self@ {
                    law_first_address_of_slice(answers@, next_index);
                }
            }
            match iter.next(answers) {
                (Some(QueryResult::Address(address)), _) => {
                    return (Some(address), iter.drop());
                },
                (Some(_), _) => {},
                (None, release) => {
                    return (None, release);
                },
            }
        }
    }
}

} // verus!
