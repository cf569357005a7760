use crawl_stats::dispatch::{Action, DispatchError, Dispatcher, Event};
use crawl_stats::outcome::Outcome;

fn outcome_for(url: &str, code: &str, elapsed_millis: u64) -> Outcome {
    Outcome { url: url.to_string(), code: code.to_string(), elapsed_millis, body_length: None }
}

/// Runs every URL through a dispatcher, finishing the request that was
/// started `pick(in flight)`-th whenever the dispatcher waits, and returns
/// the outcomes with the largest number of requests seen in flight.
fn run(urls: &[String], limit: usize, pick: fn(usize, usize) -> usize) -> (Vec<Outcome>, usize) {
    let mut dispatcher = Dispatcher::new(limit, None).unwrap();
    let mut input = urls.iter();
    let mut most = 0;
    let mut round = 0;
    loop {
        most = most.max(dispatcher.in_flight().len());
        assert!(dispatcher.in_flight().len() <= limit);
        match dispatcher.next_action() {
            Action::Pull => match input.next() {
                Some(url) => {
                    dispatcher.submit(url.clone()).unwrap();
                }
                None => dispatcher.close_input(),
            },
            Action::Wait => {
                let flights = dispatcher.in_flight();
                let chosen = &flights[pick(round, flights.len())];
                let code = if chosen.ticket % 3 == 0 { "timed out" } else { "200" };
                let done = outcome_for(&chosen.url, code, chosen.ticket);
                let ticket = chosen.ticket;
                dispatcher.complete(ticket, done).unwrap();
                round += 1;
            }
            Action::Done => break,
        }
    }
    (dispatcher.into_outcomes(), most)
}

fn synthetic_urls(count: usize) -> Vec<String> {
    (0..count).map(|i| format!("http://host.test/{}", i)).collect()
}

fn newest_first(_round: usize, in_flight: usize) -> usize {
    in_flight - 1
}

fn oldest_first(_round: usize, _in_flight: usize) -> usize {
    0
}

fn scattered(round: usize, in_flight: usize) -> usize {
    (round * 7 + 3) % in_flight
}

#[test]
fn every_url_gets_exactly_one_outcome() {
    for limit in [1, 2, 5, 100, 1000] {
        for pick in [newest_first, oldest_first, scattered] {
            let urls = synthetic_urls(200);
            let (outcomes, _) = run(&urls, limit, pick);
            assert_eq!(outcomes.len(), 200);
            let mut seen: Vec<String> = outcomes.iter().map(|o| o.url.clone()).collect();
            seen.sort();
            let mut expected = urls.clone();
            expected.sort();
            assert_eq!(seen, expected);
        }
    }
}

#[test]
fn in_flight_count_stays_within_the_limit() {
    for limit in [1, 5, 100] {
        let urls = synthetic_urls(200);
        let (outcomes, most) = run(&urls, limit, scattered);
        assert_eq!(outcomes.len(), 200);
        assert_eq!(most, limit);
    }
}

#[test]
fn limit_above_the_number_of_urls_takes_them_all_at_once() {
    let urls = synthetic_urls(3);
    let (outcomes, most) = run(&urls, 10, oldest_first);
    assert_eq!(outcomes.len(), 3);
    assert_eq!(most, 3);
}

#[test]
fn outcomes_come_in_completion_order() {
    let urls = synthetic_urls(4);
    let (outcomes, _) = run(&urls, 4, newest_first);
    let order: Vec<&str> = outcomes.iter().map(|o| o.url.as_str()).collect();
    assert_eq!(
        order,
        vec!["http://host.test/3", "http://host.test/2", "http://host.test/1", "http://host.test/0"]
    );
}

#[test]
fn no_input_is_done_at_once() {
    let (outcomes, most) = run(&[], 5, oldest_first);
    assert!(outcomes.is_empty());
    assert_eq!(most, 0);
}

#[test]
fn zero_limit_is_refused() {
    assert!(matches!(Dispatcher::new(0, None), Err(DispatchError::ZeroLimit)));
    assert!(matches!(Dispatcher::new(0, Some(3)), Err(DispatchError::ZeroLimit)));
}

#[test]
fn full_dispatcher_refuses_a_url() {
    let mut dispatcher = Dispatcher::new(2, None).unwrap();
    assert_eq!(dispatcher.submit("a".to_string()), Ok(0));
    assert_eq!(dispatcher.next_action(), Action::Pull);
    assert_eq!(dispatcher.submit("b".to_string()), Ok(1));
    assert_eq!(dispatcher.next_action(), Action::Wait);
    assert_eq!(dispatcher.submit("c".to_string()), Err(DispatchError::NoFreeSlot));
    assert_eq!(dispatcher.in_flight().len(), 2);
    assert_eq!(dispatcher.submitted_count(), 2);
    dispatcher.complete(0, outcome_for("a", "200", 1)).unwrap();
    assert_eq!(dispatcher.next_action(), Action::Pull);
    assert_eq!(dispatcher.submit("c".to_string()), Ok(2));
}

#[test]
fn closed_input_refuses_a_url() {
    let mut dispatcher = Dispatcher::new(2, None).unwrap();
    dispatcher.submit("a".to_string()).unwrap();
    dispatcher.close_input();
    assert!(dispatcher.is_input_closed());
    assert_eq!(dispatcher.submit("b".to_string()), Err(DispatchError::InputClosed));
    assert_eq!(dispatcher.next_action(), Action::Wait);
    dispatcher.complete(0, outcome_for("a", "200", 1)).unwrap();
    assert_eq!(dispatcher.next_action(), Action::Done);
    assert_eq!(dispatcher.outcomes().len(), 1);
}

#[test]
fn unknown_ticket_is_refused() {
    let mut dispatcher = Dispatcher::new(2, None).unwrap();
    dispatcher.submit("a".to_string()).unwrap();
    assert_eq!(
        dispatcher.complete(7, outcome_for("a", "200", 1)),
        Err(DispatchError::UnknownTicket)
    );
    dispatcher.complete(0, outcome_for("a", "200", 1)).unwrap();
    assert_eq!(
        dispatcher.complete(0, outcome_for("a", "200", 1)),
        Err(DispatchError::UnknownTicket)
    );
    assert_eq!(dispatcher.outcomes().len(), 1);
}

#[test]
fn outcome_of_another_url_is_refused() {
    let mut dispatcher = Dispatcher::new(2, None).unwrap();
    dispatcher.submit("a".to_string()).unwrap();
    dispatcher.submit("b".to_string()).unwrap();
    assert_eq!(dispatcher.complete(0, outcome_for("b", "200", 1)), Err(DispatchError::WrongUrl));
    assert_eq!(dispatcher.in_flight().len(), 2);
    assert!(dispatcher.outcomes().is_empty());
}

#[test]
fn url_limit_closes_the_input() {
    let mut dispatcher = Dispatcher::new(5, Some(2)).unwrap();
    assert_eq!(dispatcher.url_limit(), Some(2));
    assert_eq!(dispatcher.limit(), 5);
    assert_eq!(dispatcher.next_action(), Action::Pull);
    dispatcher.submit("a".to_string()).unwrap();
    assert!(!dispatcher.is_input_closed());
    dispatcher.submit("b".to_string()).unwrap();
    assert!(dispatcher.is_input_closed());
    assert_eq!(dispatcher.next_action(), Action::Wait);
    assert_eq!(dispatcher.submit("c".to_string()), Err(DispatchError::InputClosed));
    let none = Dispatcher::new(5, Some(0)).unwrap();
    assert_eq!(none.next_action(), Action::Done);
}

#[test]
fn same_url_twice_gets_two_outcomes() {
    let mut dispatcher = Dispatcher::new(3, None).unwrap();
    let first = dispatcher.submit("a".to_string()).unwrap();
    let second = dispatcher.submit("a".to_string()).unwrap();
    assert_ne!(first, second);
    dispatcher.complete(second, outcome_for("a", "200", 2)).unwrap();
    dispatcher.complete(first, outcome_for("a", "500", 1)).unwrap();
    dispatcher.close_input();
    assert_eq!(dispatcher.next_action(), Action::Done);
    let codes: Vec<String> = dispatcher.into_outcomes().into_iter().map(|o| o.code).collect();
    assert_eq!(codes, vec!["200".to_string(), "500".to_string()]);
}

#[test]
fn events_drive_the_dispatcher() {
    let mut dispatcher = Dispatcher::new(1, None).unwrap();
    let step = dispatcher.step(Event::Url("a".to_string())).unwrap();
    assert_eq!(step.launch, Some(0));
    assert_eq!(step.next, Action::Wait);
    assert!(matches!(
        dispatcher.step(Event::Url("b".to_string())),
        Err(DispatchError::NoFreeSlot)
    ));
    let step = dispatcher
        .step(Event::Finished { ticket: 0, outcome: outcome_for("a", "200", 3) })
        .unwrap();
    assert_eq!(step.launch, None);
    assert_eq!(step.next, Action::Pull);
    let step = dispatcher.step(Event::EndOfInput).unwrap();
    assert_eq!(step.launch, None);
    assert_eq!(step.next, Action::Done);
    assert!(matches!(
        dispatcher.step(Event::Finished { ticket: 0, outcome: outcome_for("a", "200", 3) }),
        Err(DispatchError::UnknownTicket)
    ));
}
