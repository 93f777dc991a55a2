//! The order in which requests reach Neovim.

use crate::nvim;
use crate::nvim::Call;
use crate::nvim::CallView;
use crate::nvim::NvimEvent;
use crate::nvim::Request;
use crate::nvim::RequestView;
use vstd::prelude::*;

verus! {

/// Those of some requests that wait in line, or those that do not, in order.
pub open spec fn chosen(requests: Seq<RequestView>, waiting: bool) -> Seq<RequestView>
    decreases requests.len(),
{
    if requests.len() == 0 {
        Seq::empty()
    } else {
        let before = chosen(requests.drop_last(), waiting);
        if requests.last().waits_in_line() == waiting {
            before.push(requests.last())
        } else {
            before
        }
    }
}

/// Requests that are made one after the other, each once the one before it is
/// answered, so that keys typed in a row arrive in that order.
#[derive(Debug, PartialEq, Eq)]
pub struct RequestLine {
    /// Those that are not made yet.
    pub waiting: Vec<Request>,
    /// What the one is called in messages that is made and not answered yet.
    pub underway: Option<&'static str>,
}

/// What a line holds.
#[verifier::ext_equal]
pub struct LineView {
    pub waiting: Seq<RequestView>,
    pub underway: Option<Seq<char>>,
}

impl View for RequestLine {
    type V = LineView;

    open spec fn view(&self) -> LineView {
        LineView {
            waiting: nvim::requests_view(self.waiting@),
            underway: match self.underway {
                Some(operation) => Some(operation@),
                None => None,
            },
        }
    }
}

/// A line in which nothing waits.
pub open spec fn empty_line() -> LineView {
    LineView { waiting: Seq::empty(), underway: None }
}

impl LineView {
    /// With the requests that wait in line behind those that do already.
    pub open spec fn sent(self, requests: Seq<RequestView>) -> LineView {
        LineView { waiting: self.waiting + chosen(requests, true), ..self }
    }

    /// Whether the next request can be made.
    pub open spec fn is_ready(self) -> bool {
        self.underway is None && self.waiting.len() > 0
    }

    /// After the next request was made, if it can be.
    pub open spec fn called(self) -> LineView {
        if self.is_ready() {
            LineView {
                waiting: self.waiting.drop_first(),
                underway: Some(self.waiting[0].operation()),
            }
        } else {
            self
        }
    }

    /// After the request that was made is answered.
    pub open spec fn answered(self) -> LineView {
        LineView { underway: None, ..self }
    }

    /// What is reported of an answer: that the request failed, if it did.
    pub open spec fn message(self, outcome: Result<(), Seq<char>>) -> Option<Seq<char>> {
        match (self.underway, outcome) {
            (Some(operation), Err(error)) => Some(nvim::failure_text(operation, error)),
            _ => None,
        }
    }
}

impl RequestLine {
    /// A line in which nothing waits.
    pub fn new() -> (line: Self)
        ensures
            line@ == empty_line(),
    {
        let line = RequestLine { waiting: Vec::new(), underway: None };
        assert(line@.waiting =~= Seq::empty());
        line
    }

    /// Takes in requests. The result holds those that do not wait in line: they are
    /// to be made at once.
    pub fn send(&mut self, requests: Vec<Request>) -> (beside: Vec<Request>)
        ensures
            final(self)@ == old(self)@.sent(nvim::requests_view(requests@)),
            nvim::requests_view(beside@) == chosen(nvim::requests_view(requests@), false),
    {
        let ghost start = self@;
        let ghost all = nvim::requests_view(requests@);
        let mut rest = requests;
        let mut beside: Vec<Request> = Vec::new();
        let ghost mut at: int = 0;
        assert(nvim::requests_view(beside@) =~= Seq::empty());
        assert(start.waiting + chosen(all.take(0), true) =~= start.waiting);
        while rest.len() > 0
            invariant
                0 <= at <= all.len(),
                nvim::requests_view(rest@) == all.skip(at),
                self@ == start.sent(all.take(at)),
                nvim::requests_view(beside@) == chosen(all.take(at), false),
            decreases rest@.len(),
        {
            let ghost before = self@;
            let ghost passed = nvim::requests_view(beside@);
            let ghost to_come = nvim::requests_view(rest@);
            assert(to_come.len() == rest@.len());
            assert(to_come[0] == all[at]);
            let request = rest.remove(0);
            let ghost next = request@;
            assert(next == all[at]);
            assert(nvim::requests_view(rest@) =~= to_come.drop_first());
            assert(to_come.drop_first() =~= all.skip(at + 1));
            assert(all.take(at + 1).drop_last() =~= all.take(at));
            if request.waits_in_line() {
                self.waiting.push(request);
                assert(self@.waiting =~= before.waiting.push(next));
                assert(self@.waiting =~= start.waiting + chosen(all.take(at + 1), true));
            } else {
                beside.push(request);
                assert(nvim::requests_view(beside@) =~= passed.push(next));
            }
            proof {
                at = at + 1;
            }
        }
        assert(all.take(at) =~= all);
        beside
    }

    /// The call of the next request, if it can be made.
    pub fn next_call(&mut self) -> (call: Option<Call>)
        ensures
            final(self)@ == old(self)@.called(),
            match call {
                Some(made) => old(self)@.is_ready() && made@ == old(self)@.waiting[0].call(),
                None => !old(self)@.is_ready(),
            },
    {
        if self.underway.is_some() || self.waiting.len() == 0 {
            return None;
        }
        let ghost before = self@;
        assert(before.waiting[0] == self.waiting@[0]@);
        let request = self.waiting.remove(0);
        assert(nvim::requests_view(self.waiting@) =~= before.waiting.drop_first());
        self.underway = Some(request.operation());
        Some(request.into_call())
    }

    /// Takes up the answer to the request that was made. The result reports a
    /// failure.
    pub fn answered(&mut self, outcome: Result<(), String>) -> (event: Option<NvimEvent>)
        ensures
            final(self)@ == old(self)@.answered(),
            match old(self)@.message(nvim::outcome_view(outcome)) {
                Some(message) => event matches Some(report) && nvim::reports(report, message),
                None => event is None,
            },
    {
        let event = match (self.underway, outcome) {
            (Some(operation), Err(error)) => Some(
                nvim::request_failed(operation, error.as_str()),
            ),
            _ => None,
        };
        self.underway = None;
        event
    }
}

/// Something that happens to the requests of a session.
pub enum Happening {
    /// One is made on the client.
    Asked(RequestView),
    /// What the client was asked is taken from it and sent.
    Sent,
    /// The next one in line is called.
    Called,
    /// The one that was called is answered.
    Answered(Result<(), Seq<char>>),
}

/// The requests of a session, from the client that is asked to Neovim's answers.
#[verifier::ext_equal]
pub struct Delivery {
    /// All that was asked so far.
    pub asked: Seq<RequestView>,
    /// What the client holds.
    pub client: Seq<RequestView>,
    pub line: LineView,
    /// Those that were made without waiting in line.
    pub beside: Seq<RequestView>,
    /// What Neovim received of those that wait in line.
    pub calls: Seq<CallView>,
    pub answers: Seq<Result<(), Seq<char>>>,
    /// What was reported.
    pub messages: Seq<Seq<char>>,
}

/// Nothing was asked yet.
pub open spec fn no_delivery() -> Delivery {
    Delivery {
        asked: Seq::empty(),
        client: Seq::empty(),
        line: empty_line(),
        beside: Seq::empty(),
        calls: Seq::empty(),
        answers: Seq::empty(),
        messages: Seq::empty(),
    }
}

/// The calls that requests make.
pub open spec fn calls_of(requests: Seq<RequestView>) -> Seq<CallView> {
    Seq::new(requests.len(), |i: int| requests[i].call())
}

/// What is reported of the first `n` answers, each to the request at its place: the
/// failures.
pub open spec fn messages_of(
    requests: Seq<RequestView>,
    answers: Seq<Result<(), Seq<char>>>,
    n: nat,
) -> Seq<Seq<char>>
    decreases n,
{
    if n == 0 {
        Seq::empty()
    } else {
        let before = messages_of(requests, answers, (n - 1) as nat);
        match answers[n - 1] {
            Ok(_) => before,
            Err(error) => before.push(
                nvim::failure_text(requests[n - 1].operation(), error),
            ),
        }
    }
}

impl Delivery {
    /// After one thing more happened.
    pub open spec fn after(self, happening: Happening) -> Delivery {
        match happening {
            Happening::Asked(request) => Delivery {
                asked: self.asked.push(request),
                client: self.client.push(request),
                ..self
            },
            Happening::Sent => Delivery {
                client: Seq::empty(),
                line: self.line.sent(self.client),
                beside: self.beside + chosen(self.client, false),
                ..self
            },
            Happening::Called => if self.line.is_ready() {
                Delivery {
                    line: self.line.called(),
                    calls: self.calls.push(self.line.waiting[0].call()),
                    ..self
                }
            } else {
                self
            },
            Happening::Answered(outcome) => if self.line.underway is Some {
                Delivery {
                    line: self.line.answered(),
                    answers: self.answers.push(outcome),
                    messages: match self.line.message(outcome) {
                        Some(message) => self.messages.push(message),
                        None => self.messages,
                    },
                    ..self
                }
            } else {
                self
            },
        }
    }

    /// After the first `n` of some happenings.
    pub open spec fn after_all(self, happenings: Seq<Happening>, n: nat) -> Delivery
        decreases n,
    {
        if n == 0 {
            self
        } else {
            self.after_all(happenings, (n - 1) as nat).after(happenings[n - 1])
        }
    }

    /// After the first `n` of some outcomes: each of the next request in line.
    pub open spec fn worked_off(self, outcomes: Seq<Result<(), Seq<char>>>, n: nat) -> Delivery
        decreases n,
    {
        if n == 0 {
            self
        } else {
            self.worked_off(outcomes, (n - 1) as nat).after(Happening::Called).after(
                Happening::Answered(outcomes[n - 1]),
            )
        }
    }

    /// Those of the requests that wait in line, in the order in which they were made.
    pub open spec fn in_line(self) -> Seq<RequestView> {
        chosen(self.asked, true)
    }

    /// Whether Neovim received the requests that wait in line once each and in the
    /// order in which they were made, and those that it did not receive are still to
    /// come, in that order.
    pub open spec fn in_order(self) -> bool {
        &&& self.calls.len() <= self.in_line().len()
        &&& self.calls == calls_of(self.in_line().take(self.calls.len() as int))
        &&& self.in_line().skip(self.calls.len() as int) == self.line.waiting + chosen(
            self.client,
            true,
        )
    }

    /// Whether every request but the last that Neovim received is answered, and the
    /// last unless it is underway.
    pub open spec fn one_at_a_time(self) -> bool {
        match self.line.underway {
            None => self.answers.len() == self.calls.len(),
            Some(operation) => {
                &&& self.answers.len() + 1 == self.calls.len()
                &&& operation == self.in_line()[self.calls.len() - 1].operation()
            },
        }
    }

    /// Whether each failure was reported, and nothing else.
    pub open spec fn failures_reported(self) -> bool {
        self.messages == messages_of(self.in_line(), self.answers, self.answers.len())
    }

    /// Whether the requests that do not wait were made as soon as they were sent, once
    /// each and in order.
    pub open spec fn others_made(self) -> bool {
        chosen(self.asked, false) == self.beside + chosen(self.client, false)
    }

    /// All of these.
    pub open spec fn wf(self) -> bool {
        self.in_order() && self.one_at_a_time() && self.failures_reported() && self.others_made()
    }
}

proof fn lemma_chosen_push(requests: Seq<RequestView>, request: RequestView, waiting: bool)
    ensures
        chosen(requests.push(request), waiting) == if request.waits_in_line() == waiting {
            chosen(requests, waiting).push(request)
        } else {
            chosen(requests, waiting)
        },
{
    assert(requests.push(request).drop_last() =~= requests);
}

/// What is reported depends on the requests that were answered alone.
proof fn lemma_messages_of_front(
    requests: Seq<RequestView>,
    more: Seq<RequestView>,
    answers: Seq<Result<(), Seq<char>>>,
    later: Seq<Result<(), Seq<char>>>,
    n: nat,
)
    requires
        n <= requests.len() <= more.len(),
        n <= answers.len() <= later.len(),
        forall|i: int| 0 <= i < n ==> #[trigger] more[i] == requests[i],
        forall|i: int| 0 <= i < n ==> #[trigger] later[i] == answers[i],
    ensures
        messages_of(more, later, n) == messages_of(requests, answers, n),
    decreases n,
{
    if n > 0 {
        lemma_messages_of_front(requests, more, answers, later, (n - 1) as nat);
    }
}

proof fn lemma_asked(before: Delivery, request: RequestView)
    requires
        before.wf(),
    ensures
        before.after(Happening::Asked(request)).wf(),
{
    let now = before.after(Happening::Asked(request));
    let n = before.calls.len() as int;
    lemma_chosen_push(before.asked, request, true);
    lemma_chosen_push(before.asked, request, false);
    lemma_chosen_push(before.client, request, true);
    lemma_chosen_push(before.client, request, false);
    assert(now.in_line().take(n) =~= before.in_line().take(n));
    if request.waits_in_line() {
        assert(now.in_line().skip(n) =~= before.in_line().skip(n).push(request));
        assert(now.in_line().skip(n) =~= now.line.waiting + chosen(now.client, true));
    }
    lemma_messages_of_front(
        before.in_line(),
        now.in_line(),
        before.answers,
        now.answers,
        before.answers.len(),
    );
    assert(chosen(now.asked, false) =~= now.beside + chosen(now.client, false));
}

proof fn lemma_sent(before: Delivery)
    requires
        before.wf(),
    ensures
        before.after(Happening::Sent).wf(),
{
    let now = before.after(Happening::Sent);
    let n = before.calls.len() as int;
    assert(chosen(now.client, true) =~= Seq::empty());
    assert(chosen(now.client, false) =~= Seq::empty());
    assert(now.in_line().skip(n) =~= now.line.waiting + chosen(now.client, true));
    assert(chosen(now.asked, false) =~= now.beside + chosen(now.client, false));
}

proof fn lemma_called(before: Delivery)
    requires
        before.wf(),
    ensures
        before.after(Happening::Called).wf(),
{
    if before.line.is_ready() {
        let now = before.after(Happening::Called);
        let n = before.calls.len() as int;
        let all = before.in_line();
        let to_come = before.line.waiting + chosen(before.client, true);
        assert(all.skip(n).len() == to_come.len());
        assert(all.skip(n)[0] == all[n]);
        assert(all[n] == before.line.waiting[0]);
        assert(now.calls =~= calls_of(all.take(n + 1)));
        assert(all.skip(n + 1) =~= all.skip(n).drop_first());
        assert(all.skip(n + 1) =~= now.line.waiting + chosen(now.client, true));
    }
}

proof fn lemma_answered(before: Delivery, outcome: Result<(), Seq<char>>)
    requires
        before.wf(),
    ensures
        before.after(Happening::Answered(outcome)).wf(),
{
    if before.line.underway is Some {
        let now = before.after(Happening::Answered(outcome));
        lemma_messages_of_front(
            before.in_line(),
            before.in_line(),
            before.answers,
            now.answers,
            before.answers.len(),
        );
        assert(now.answers[now.answers.len() - 1] == outcome);
    }
}

proof fn lemma_after(before: Delivery, happening: Happening)
    requires
        before.wf(),
    ensures
        before.after(happening).wf(),
{
    match happening {
        Happening::Asked(request) => lemma_asked(before, request),
        Happening::Sent => lemma_sent(before),
        Happening::Called => lemma_called(before),
        Happening::Answered(outcome) => lemma_answered(before, outcome),
    }
}

proof fn lemma_after_all(happenings: Seq<Happening>, n: nat)
    requires
        n <= happenings.len(),
    ensures
        no_delivery().after_all(happenings, n).wf(),
    decreases n,
{
    if n > 0 {
        lemma_after_all(happenings, (n - 1) as nat);
        lemma_after(
            no_delivery().after_all(happenings, (n - 1) as nat),
            happenings[n - 1],
        );
    } else {
        let none = no_delivery();
        assert(none.calls =~= calls_of(none.in_line().take(0)));
        assert(none.in_line().skip(0) =~= none.line.waiting + chosen(none.client, true));
        assert(chosen(none.asked, false) =~= none.beside + chosen(none.client, false));
    }
}

/// Whenever requests are made, sent, called and answered, Neovim receives those that wait
/// in line once each and in the order in which they were made, each only once the one
/// before it is answered. Each failure is reported. The others are made as soon as they
/// are sent.
pub proof fn law_requests_arrive_in_order(happenings: Seq<Happening>)
    ensures
        no_delivery().after_all(happenings, happenings.len()).in_order(),
        no_delivery().after_all(happenings, happenings.len()).one_at_a_time(),
        no_delivery().after_all(happenings, happenings.len()).failures_reported(),
        no_delivery().after_all(happenings, happenings.len()).others_made(),
{
    lemma_after_all(happenings, happenings.len());
}

proof fn lemma_worked_off(
    before: Delivery,
    outcomes: Seq<Result<(), Seq<char>>>,
    n: nat,
)
    requires
        before.wf(),
        before.line.underway is None,
        n <= outcomes.len(),
        n <= before.line.waiting.len(),
    ensures
        ({
            let now = before.worked_off(outcomes, n);
            &&& now.wf()
            &&& now.asked == before.asked
            &&& now.client == before.client
            &&& now.line.underway is None
            &&& now.line.waiting.len() == before.line.waiting.len() - n
        }),
    decreases n,
{
    if n > 0 {
        lemma_worked_off(before, outcomes, (n - 1) as nat);
        let earlier = before.worked_off(outcomes, (n - 1) as nat);
        lemma_called(earlier);
        lemma_answered(earlier.after(Happening::Called), outcomes[n - 1]);
    }
}

/// No request is lost: once as many answers have come as requests were waiting, Neovim
/// has received all that wait in line and were sent, also those after one that failed.
pub proof fn law_failures_hold_nothing_up(
    delivery: Delivery,
    outcomes: Seq<Result<(), Seq<char>>>,
)
    requires
        delivery.wf(),
        delivery.client.len() == 0,
        delivery.line.underway is None,
        outcomes.len() == delivery.line.waiting.len(),
    ensures
        ({
            let done = delivery.worked_off(outcomes, outcomes.len());
            &&& done.line == empty_line()
            &&& done.calls == calls_of(delivery.in_line())
        }),
{
    lemma_worked_off(delivery, outcomes, outcomes.len());
    let done = delivery.worked_off(outcomes, outcomes.len());
    let n = done.calls.len() as int;
    assert(done.line.waiting =~= Seq::empty());
    assert(done.in_line().skip(n).len() == 0);
    assert(done.in_line().take(n) =~= done.in_line());
}

/// To ask Neovim to quit holds no other request up, and waits for none: whatever is
/// waiting or underway, the line stays as it is and the request is made at once.
pub proof fn law_quitting_waits_for_nothing(delivery: Delivery)
    requires
        delivery.client.len() == 0,
    ensures
        ({
            let quitting = delivery.after(Happening::Asked(RequestView::ConfirmQuit)).after(
                Happening::Sent,
            );
            &&& quitting.line == delivery.line
            &&& quitting.beside == delivery.beside.push(RequestView::ConfirmQuit)
        }),
{
    lemma_chosen_push(delivery.client, RequestView::ConfirmQuit, true);
    lemma_chosen_push(delivery.client, RequestView::ConfirmQuit, false);
    let quitting = delivery.after(Happening::Asked(RequestView::ConfirmQuit)).after(
        Happening::Sent,
    );
    assert(chosen(delivery.client, true) =~= Seq::empty());
    assert(chosen(delivery.client, false) =~= Seq::empty());
    assert(quitting.line.waiting =~= delivery.line.waiting);
    assert(quitting.beside =~= delivery.beside.push(RequestView::ConfirmQuit));
}

proof fn lemma_chosen_parts(a: Seq<RequestView>, b: Seq<RequestView>, waiting: bool)
    ensures
        chosen(a + b, waiting) == chosen(a, waiting) + chosen(b, waiting),
    decreases b.len(),
{
    if b.len() == 0 {
        assert(a + b =~= a);
        assert(chosen(a, waiting) + chosen(b, waiting) =~= chosen(a, waiting));
    } else {
        lemma_chosen_parts(a, b.drop_last(), waiting);
        assert((a + b).drop_last() =~= a + b.drop_last());
        assert(chosen(a + b, waiting) =~= chosen(a, waiting) + chosen(b, waiting));
    }
}

/// Of the requests that are sent all wait in line but those to quit, in the order in which
/// they were made.
pub proof fn law_only_quitting_passes_the_line(
    a: Seq<RequestView>,
    b: Seq<RequestView>,
    request: RequestView,
    waiting: bool,
)
    ensures
        chosen(a + b, waiting) == chosen(a, waiting) + chosen(b, waiting),
        request != RequestView::ConfirmQuit ==> chosen(seq![request], true) == seq![request]
            && chosen(seq![request], false) == Seq::<RequestView>::empty(),
        chosen(seq![RequestView::ConfirmQuit], true) == Seq::<RequestView>::empty(),
        chosen(seq![RequestView::ConfirmQuit], false) == seq![RequestView::ConfirmQuit],
{
    lemma_chosen_parts(a, b, waiting);
    let none = Seq::<RequestView>::empty();
    let quit = RequestView::ConfirmQuit;
    lemma_chosen_push(none, request, true);
    lemma_chosen_push(none, request, false);
    lemma_chosen_push(none, quit, true);
    lemma_chosen_push(none, quit, false);
    assert(none.push(request) =~= seq![request]);
    assert(none.push(quit) =~= seq![quit]);
    assert(chosen(none, true) =~= none);
    assert(chosen(none, false) =~= none);
}

} // verus!
