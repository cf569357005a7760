//! The decisions of a dispatcher that keeps a bounded number of requests in
//! flight.
//!
//! The dispatcher does no work itself. Its caller asks it what to do next,
//! pulls a URL or waits for a request to finish as it is told, and reports
//! back. The dispatcher keeps count: which requests are in flight, and the
//! outcomes of those that are finished.

use vstd::multiset::{lemma_multiset_empty_len, Multiset};
use vstd::prelude::*;
use vstd::seq_lib::{to_multiset_build, to_multiset_remove};
use crate::outcome::{urls_of, Outcome};

verus! {

/// A request that was started and has not finished.
pub struct Flight {
    pub ticket: u64,
    pub url: String,
}

/// What the caller is to do next.
#[derive(Debug, PartialEq, Eq, Clone, Copy)]
pub enum Action {
    /// Take the next URL from the input and submit it, or close the input
    /// if there is none.
    Pull,
    /// Wait until one of the requests in flight has finished, and report it.
    Wait,
    /// Nothing is left to do: every submitted URL has its outcome.
    Done,
}

/// Why the dispatcher refused a call. A refused call changes nothing.
#[derive(Debug, PartialEq, Eq, Clone, Copy)]
pub enum DispatchError {
    /// The limit on requests in flight must be positive.
    ZeroLimit,
    /// A URL was submitted after the input was closed.
    InputClosed,
    /// A URL was submitted while as many requests as the limit allows were
    /// in flight.
    NoFreeSlot,
    /// No request in flight has the ticket that was reported.
    UnknownTicket,
    /// The outcome reported for a ticket is that of another URL.
    WrongUrl,
}

/// What the caller reports to the dispatcher.
pub enum Event {
    /// The input gave this URL.
    Url(String),
    /// The input has no more URLs.
    EndOfInput,
    /// The request with this ticket has finished with this outcome.
    Finished { ticket: u64, outcome: Outcome },
}

/// The answer to an event.
pub struct Step {
    /// The ticket of the URL that was taken into flight, where the event
    /// was a URL: the caller starts the request.
    pub launch: Option<u64>,
    /// What to do after that.
    pub next: Action,
}

/// The URLs of `flights`, in their order.
pub open spec fn flight_urls(flights: Seq<Flight>) -> Seq<Seq<char>> {
    flights.map_values(|f: Flight| f.url@)
}

/// Whether one of `flights` has `ticket`.
pub open spec fn holds_ticket(flights: Seq<Flight>, ticket: u64) -> bool {
    exists|k: int| 0 <= k < flights.len() && (#[trigger] flights[k]).ticket == ticket
}

/// The place among `flights` of the one that has `ticket`.
pub open spec fn place_of(flights: Seq<Flight>, ticket: u64) -> int
    recommends
        holds_ticket(flights, ticket),
{
    choose|k: int| 0 <= k < flights.len() && (#[trigger] flights[k]).ticket == ticket
}

proof fn empty_has_no_items()
    ensures
        Seq::<Seq<char>>::empty().to_multiset() == Multiset::<Seq<char>>::empty(),
{
    let none = Seq::<Seq<char>>::empty();
    none.to_multiset_ensures();
    lemma_multiset_empty_len(none.to_multiset());
}

/// Keeps track of the requests in flight and collects their outcomes.
pub struct Dispatcher {
    limit: usize,
    url_limit: Option<u64>,
    in_flight: Vec<Flight>,
    input_closed: bool,
    outcomes: Vec<Outcome>,
    next_ticket: u64,
    submitted: Ghost<Seq<Seq<char>>>,
}

impl Dispatcher {
    /// The most requests that may be in flight at once.
    pub closed spec fn cap(&self) -> nat {
        self.limit as nat
    }

    /// The most URLs that may be submitted in all, where that is bounded.
    pub closed spec fn quota(&self) -> Option<u64> {
        self.url_limit
    }

    /// The requests in flight, in the order in which they were submitted.
    pub closed spec fn flights(&self) -> Seq<Flight> {
        self.in_flight@
    }

    /// The outcomes collected so far, in the order in which they came in.
    pub closed spec fn collected(&self) -> Seq<Outcome> {
        self.outcomes@
    }

    /// Every URL submitted so far, in the order of submission. The ticket of
    /// a URL is its place here.
    pub closed spec fn submitted(&self) -> Seq<Seq<char>> {
        self.submitted@
    }

    /// Whether the input is closed: by the caller, or because as many URLs
    /// were submitted as the quota allows.
    pub closed spec fn closed(&self) -> bool {
        self.input_closed
    }

    /// The ticket that the next URL gets.
    pub closed spec fn issued(&self) -> u64 {
        self.next_ticket
    }

    /// What holds of a dispatcher at all times: no more requests are in
    /// flight than the limit allows, and every submitted URL is either in
    /// flight, once, or has its outcome, once.
    pub open spec fn wf(&self) -> bool {
        &&& 0 < self.cap()
        &&& self.flights().len() <= self.cap()
        &&& self.submitted().len() == self.issued()
        &&& self.issued() == u64::MAX ==> self.closed()
        &&& self.quota() matches Some(most) ==> self.submitted().len() <= most && (
        self.submitted().len() == most ==> self.closed())
        &&& self.collected().len() + self.flights().len() == self.submitted().len()
        &&& forall|i: int, j: int|
            0 <= i < j < self.flights().len() ==> (#[trigger] self.flights()[i]).ticket != (
            #[trigger] self.flights()[j]).ticket
        &&& forall|i: int|
            0 <= i < self.flights().len() ==> (#[trigger] self.flights()[i]).ticket < self.issued()
                && self.submitted()[self.flights()[i].ticket as int] == self.flights()[i].url@
        &&& urls_of(self.collected()).to_multiset().add(flight_urls(self.flights()).to_multiset())
            == self.submitted().to_multiset()
    }

    /// What the caller is to do in this state: stop once the input is
    /// closed and nothing is in flight; pull while the input is open and a
    /// slot is free; wait otherwise.
    pub open spec fn decision(&self) -> Action {
        if self.closed() && self.flights().len() == 0 {
            Action::Done
        } else if !self.closed() && self.flights().len() < self.cap() {
            Action::Pull
        } else {
            Action::Wait
        }
    }

    /// A dispatcher that lets at most `limit` requests be in flight and,
    /// where `url_limit` is set, takes no more URLs than that in all.
    pub fn new(limit: usize, url_limit: Option<u64>) -> (made: Result<Dispatcher, DispatchError>)
        ensures
            limit == 0 <==> made is Err,
            made matches Err(e) ==> e == DispatchError::ZeroLimit,
            made matches Ok(d) ==> {
                &&& d.wf()
                &&& d.cap() == limit
                &&& d.quota() == url_limit
                &&& d.flights().len() == 0
                &&& d.collected().len() == 0
                &&& d.submitted().len() == 0
                &&& d.closed() == (url_limit == Some(0u64))
            },
    {
        if limit == 0 {
            return Err(DispatchError::ZeroLimit);
        }
        let input_closed = match url_limit {
            Some(most) => most == 0,
            None => false,
        };
        let d = Dispatcher {
            limit,
            url_limit,
            in_flight: Vec::new(),
            input_closed,
            outcomes: Vec::new(),
            next_ticket: 0,
            submitted: Ghost(Seq::empty()),
        };
        proof {
            assert(urls_of(d.collected()) =~= Seq::<Seq<char>>::empty());
            assert(flight_urls(d.flights()) =~= Seq::<Seq<char>>::empty());
            assert(d.submitted() =~= Seq::<Seq<char>>::empty());
            empty_has_no_items();
            assert(urls_of(d.collected()).to_multiset().add(
                flight_urls(d.flights()).to_multiset(),
            ) =~= d.submitted().to_multiset());
        }
        Ok(d)
    }

    /// What to do next.
    pub fn next_action(&self) -> (action: Action)
        requires
            self.wf(),
        ensures
            action == self.decision(),
    {
        if self.input_closed && self.in_flight.len() == 0 {
            Action::Done
        } else if !self.input_closed && self.in_flight.len() < self.limit {
            Action::Pull
        } else {
            Action::Wait
        }
    }

    /// What `submit` makes of this state: `next`, with the ticket or the
    /// refusal that it returns. A URL is taken where the input is open and
    /// a slot is free; it gets the next ticket and goes to the end of the
    /// flight. Taking the last URL that the quota allows, or the one with
    /// the last ticket there is, closes the input.
    pub open spec fn after_submit(
        &self,
        next: Dispatcher,
        url: String,
        ticket: Result<u64, DispatchError>,
    ) -> bool {
        &&& next.cap() == self.cap()
        &&& next.quota() == self.quota()
        &&& next.collected() == self.collected()
        &&& ticket is Ok <==> !self.closed() && self.flights().len() < self.cap()
        &&& ticket matches Ok(t) ==> {
            &&& t == self.submitted().len()
            &&& next.submitted() == self.submitted().push(url@)
            &&& next.flights() == self.flights().push(Flight { ticket: t, url })
            &&& next.closed() == (self.quota() == Some((t + 1) as u64) || t + 1 == u64::MAX)
        }
        &&& ticket matches Err(e) ==> {
            &&& next.submitted() == self.submitted()
            &&& next.flights() == self.flights()
            &&& next.closed() == self.closed()
            &&& e == if self.closed() {
                DispatchError::InputClosed
            } else {
                DispatchError::NoFreeSlot
            }
        }
    }

    /// What `close_input` makes of this state: the same, with the input
    /// closed.
    pub open spec fn after_close(&self, next: Dispatcher) -> bool {
        &&& next.closed()
        &&& next.cap() == self.cap()
        &&& next.quota() == self.quota()
        &&& next.flights() == self.flights()
        &&& next.collected() == self.collected()
        &&& next.submitted() == self.submitted()
    }

    /// What `complete` makes of this state: `next`, with the refusal where
    /// there is one. The outcome is taken where a request in flight has the
    /// ticket and the URL of the outcome; that request leaves the flight
    /// and the outcome goes to the end of those collected.
    pub open spec fn after_complete(
        &self,
        next: Dispatcher,
        ticket: u64,
        outcome: Outcome,
        done: Result<(), DispatchError>,
    ) -> bool {
        &&& next.cap() == self.cap()
        &&& next.quota() == self.quota()
        &&& next.closed() == self.closed()
        &&& next.submitted() == self.submitted()
        &&& done is Ok <==> holds_ticket(self.flights(), ticket) && self.flights()[place_of(
            self.flights(),
            ticket,
        )].url@ == outcome.url@
        &&& done is Ok ==> {
            &&& next.collected() == self.collected().push(outcome)
            &&& next.flights() == self.flights().remove(place_of(self.flights(), ticket))
        }
        &&& done matches Err(e) ==> {
            &&& next.collected() == self.collected()
            &&& next.flights() == self.flights()
            &&& e == if holds_ticket(self.flights(), ticket) {
                DispatchError::WrongUrl
            } else {
                DispatchError::UnknownTicket
            }
        }
    }

    /// Takes `url` into flight and gives out its ticket. The caller starts
    /// the request.
    pub fn submit(&mut self, url: String) -> (ticket: Result<u64, DispatchError>)
        requires
            old(self).wf(),
        ensures
            final(self).wf(),
            old(self).after_submit(*final(self), url, ticket),
    {
        if self.input_closed {
            return Err(DispatchError::InputClosed);
        }
        if self.in_flight.len() >= self.limit {
            return Err(DispatchError::NoFreeSlot);
        }
        let ticket = self.next_ticket;
        let ghost before = *self;
        proof {
            to_multiset_build(flight_urls(before.flights()), url@);
            to_multiset_build(before.submitted(), url@);
            assert(flight_urls(before.flights().push(Flight { ticket, url })) =~= flight_urls(
                before.flights(),
            ).push(url@));
            assert(urls_of(before.collected()).to_multiset().add(
                flight_urls(before.flights()).to_multiset().insert(url@),
            ) =~= before.submitted().to_multiset().insert(url@));
        }
        self.submitted = Ghost(self.submitted@.push(url@));
        self.in_flight.push(Flight { ticket, url });
        self.next_ticket = ticket + 1;
        if self.next_ticket == u64::MAX {
            self.input_closed = true;
        }
        match self.url_limit {
            Some(most) => {
                if self.next_ticket == most {
                    self.input_closed = true;
                }
            },
            None => {},
        }
        Ok(ticket)
    }

    /// Notes that the input has no more URLs.
    pub fn close_input(&mut self)
        requires
            old(self).wf(),
        ensures
            final(self).wf(),
            old(self).after_close(*final(self)),
    {
        self.input_closed = true;
    }

    /// Takes the outcome of the request with `ticket`, which leaves the
    /// flight. The outcome must be that of the URL that got the ticket.
    pub fn complete(&mut self, ticket: u64, outcome: Outcome) -> (done: Result<(), DispatchError>)
        requires
            old(self).wf(),
        ensures
            final(self).wf(),
            old(self).after_complete(*final(self), ticket, outcome, done),
    {
        let mut k: usize = 0;
        while k < self.in_flight.len() && self.in_flight[k].ticket != ticket
            invariant
                k <= self.in_flight.len(),
                *self == *old(self),
                forall|m: int| 0 <= m < k ==> (#[trigger] self.in_flight@[m]).ticket != ticket,
            decreases self.in_flight.len() - k,
        {
            k = k + 1;
        }
        if k == self.in_flight.len() {
            return Err(DispatchError::UnknownTicket);
        }
        let ghost before = *self;
        proof {
            assert(before.flights()[k as int].ticket == ticket);
            assert(place_of(before.flights(), ticket) == k);
        }
        if self.in_flight[k].url != outcome.url {
            return Err(DispatchError::WrongUrl);
        }
        proof {
            let in_flight = flight_urls(before.flights());
            let gone = in_flight[k as int];
            assert(gone == outcome.url@);
            to_multiset_remove(in_flight, k as int);
            to_multiset_build(urls_of(before.collected()), gone);
            in_flight.to_multiset_ensures();
            assert(in_flight.contains(gone));
            assert(flight_urls(before.flights().remove(k as int)) =~= in_flight.remove(k as int));
            assert(urls_of(before.collected().push(outcome)) =~= urls_of(before.collected()).push(
                gone,
            ));
            assert(urls_of(before.collected()).to_multiset().insert(gone).add(
                in_flight.to_multiset().remove(gone),
            ) =~= before.submitted().to_multiset());
        }
        self.in_flight.remove(k);
        self.outcomes.push(outcome);
        Ok(())
    }

    /// Takes one event and says what to do after it: the ticket to start
    /// a request with, where the event was a URL, and the next action.
    pub fn step(&mut self, event: Event) -> (answer: Result<Step, DispatchError>)
        requires
            old(self).wf(),
        ensures
            final(self).wf(),
            answer matches Ok(s) ==> s.next == final(self).decision(),
            match event {
                Event::Url(url) => match answer {
                    Ok(s) => s.launch matches Some(t) && old(self).after_submit(
                        *final(self),
                        url,
                        Ok(t),
                    ),
                    Err(e) => old(self).after_submit(*final(self), url, Err(e)),
                },
                Event::EndOfInput => answer matches Ok(s) && s.launch is None && old(
                    self,
                ).after_close(*final(self)),
                Event::Finished { ticket, outcome } => match answer {
                    Ok(s) => s.launch is None && old(self).after_complete(
                        *final(self),
                        ticket,
                        outcome,
                        Ok(()),
                    ),
                    Err(e) => old(self).after_complete(*final(self), ticket, outcome, Err(e)),
                },
            },
    {
        let launch = match event {
            Event::Url(url) => match self.submit(url) {
                Ok(ticket) => Some(ticket),
                Err(e) => {
                    return Err(e);
                },
            },
            Event::EndOfInput => {
                self.close_input();
                None
            },
            Event::Finished { ticket, outcome } => match self.complete(ticket, outcome) {
                Ok(()) => None,
                Err(e) => {
                    return Err(e);
                },
            },
        };
        Ok(Step { launch, next: self.next_action() })
    }

    /// The most requests that may be in flight at once.
    pub fn limit(&self) -> (limit: usize)
        ensures
            limit == self.cap(),
    {
        self.limit
    }

    /// The most URLs that may be submitted in all, where that is bounded.
    pub fn url_limit(&self) -> (most: Option<u64>)
        ensures
            most == self.quota(),
    {
        self.url_limit
    }

    /// The requests in flight.
    pub fn in_flight(&self) -> (flights: &Vec<Flight>)
        ensures
            flights@ == self.flights(),
    {
        &self.in_flight
    }

    /// Whether the input was closed.
    pub fn is_input_closed(&self) -> (closed: bool)
        ensures
            closed == self.closed(),
    {
        self.input_closed
    }

    /// The number of URLs submitted so far.
    pub fn submitted_count(&self) -> (count: u64)
        requires
            self.wf(),
        ensures
            count == self.submitted().len(),
    {
        self.next_ticket
    }

    /// The outcomes collected so far, in the order in which they came in.
    pub fn outcomes(&self) -> (outcomes: &Vec<Outcome>)
        ensures
            outcomes@ == self.collected(),
    {
        &self.outcomes
    }

    /// Hands out the collected outcomes.
    pub fn into_outcomes(self) -> (outcomes: Vec<Outcome>)
        ensures
            outcomes@ == self.collected(),
    {
        self.outcomes
    }
}

/// At no time are more requests in flight than the limit allows.
pub proof fn in_flight_within_limit(d: Dispatcher)
    requires
        d.wf(),
    ensures
        d.flights().len() <= d.cap(),
{
}

/// The dispatcher asks to wait only while a request is in flight, so there
/// is always something to wait for.
pub proof fn wait_has_something_in_flight(d: Dispatcher)
    requires
        d.wf(),
        d.decision() == Action::Wait,
    ensures
        d.flights().len() > 0,
{
}

/// The dispatcher asks for a URL exactly while the input is open and a slot
/// is free: a freed slot is filled before anything is waited for.
pub proof fn pull_fills_free_slots(d: Dispatcher)
    requires
        d.wf(),
    ensures
        d.decision() == Action::Pull <==> !d.closed() && d.flights().len() < d.cap(),
{
}

/// Where the number of URLs is bounded, no more than that are ever taken,
/// and the input is closed once that many are.
pub proof fn quota_is_kept(d: Dispatcher)
    requires
        d.wf(),
    ensures
        d.quota() matches Some(most) ==> d.submitted().len() <= most && (d.submitted().len()
            == most ==> d.decision() != Action::Pull),
{
}

/// At all times every submitted URL is accounted for once: by a request in
/// flight or by an outcome.
pub proof fn every_url_accounted_for(d: Dispatcher)
    requires
        d.wf(),
    ensures
        d.collected().len() + d.flights().len() == d.submitted().len(),
        urls_of(d.collected()).to_multiset().add(flight_urls(d.flights()).to_multiset())
            == d.submitted().to_multiset(),
{
}

/// When the dispatcher says that it is done, there are as many outcomes as
/// URLs were submitted, and each submitted URL has its outcome: none is
/// dropped and none has two.
pub proof fn done_with_one_outcome_per_url(d: Dispatcher)
    requires
        d.wf(),
        d.decision() == Action::Done,
    ensures
        d.collected().len() == d.submitted().len(),
        urls_of(d.collected()).to_multiset() == d.submitted().to_multiset(),
{
    assert(flight_urls(d.flights()) =~= Seq::<Seq<char>>::empty());
    empty_has_no_items();
    assert(urls_of(d.collected()).to_multiset().add(flight_urls(d.flights()).to_multiset())
        =~= urls_of(d.collected()).to_multiset());
}

/// The URLs among `events`, in their order.
pub open spec fn urls_in(events: Seq<Event>) -> Seq<Seq<char>>
    decreases events.len(),
{
    if events.len() == 0 {
        Seq::empty()
    } else {
        match events.last() {
            Event::Url(url) => urls_in(events.drop_last()).push(url@),
            _ => urls_in(events.drop_last()),
        }
    }
}

/// `after` is what the dispatcher `before` becomes by taking `event`, which
/// it does not refuse.
pub open spec fn follows(before: Dispatcher, event: Event, after: Dispatcher) -> bool {
    &&& after.wf()
    &&& match event {
        Event::Url(url) => exists|t: u64| before.after_submit(after, url, Ok(t)),
        Event::EndOfInput => before.after_close(after),
        Event::Finished { ticket, outcome } => before.after_complete(after, ticket, outcome, Ok(())),
    }
}

/// `states` are the states that a dispatcher goes through, from a new one,
/// as it takes `events` one after the other.
pub open spec fn is_run(states: Seq<Dispatcher>, events: Seq<Event>) -> bool {
    &&& states.len() == events.len() + 1
    &&& states[0].wf()
    &&& states[0].submitted().len() == 0
    &&& forall|i: int|
        0 <= i < events.len() ==> follows(#[trigger] states[i], events[i], states[i + 1])
}

proof fn run_submits_its_urls(states: Seq<Dispatcher>, events: Seq<Event>, n: int)
    requires
        is_run(states, events),
        0 <= n <= events.len(),
    ensures
        states[n].wf(),
        states[n].cap() == states[0].cap(),
        states[n].submitted() == urls_in(events.subrange(0, n)),
    decreases n,
{
    if n == 0 {
        assert(states[0].submitted() =~= urls_in(events.subrange(0, 0)));
    } else {
        run_submits_its_urls(states, events, n - 1);
        assert(follows(states[n - 1], events[n - 1], states[n]));
        assert(events.subrange(0, n).drop_last() =~= events.subrange(0, n - 1));
        assert(events.subrange(0, n).last() == events[n - 1]);
    }
}

/// Whatever the limit, and in whatever order and with whatever outcomes the
/// requests finish: at no point of a run are more requests in flight than
/// the limit allows.
pub proof fn run_stays_within_limit(states: Seq<Dispatcher>, events: Seq<Event>, at: int)
    requires
        is_run(states, events),
        0 <= at <= events.len(),
    ensures
        states[at].flights().len() <= states[0].cap(),
{
    run_submits_its_urls(states, events, at);
}

/// Whatever the limit, and in whatever order and with whatever outcomes the
/// requests finish: a run that ends with the dispatcher done has collected
/// as many outcomes as URLs came in, one for each of them.
pub proof fn run_ends_with_one_outcome_per_url(states: Seq<Dispatcher>, events: Seq<Event>)
    requires
        is_run(states, events),
        states.last().decision() == Action::Done,
    ensures
        states.last().collected().len() == urls_in(events).len(),
        urls_of(states.last().collected()).to_multiset() == urls_in(events).to_multiset(),
{
    run_submits_its_urls(states, events, events.len() as int);
    assert(events.subrange(0, events.len() as int) =~= events);
    done_with_one_outcome_per_url(states.last());
}

} // verus!
