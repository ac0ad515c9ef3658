use parallel::receive::{Delivery, Receiver, State};

fn s(v: &str) -> String {
    v.to_string()
}

#[test]
fn in_order_identity_five_inputs() {
    // echo {} over a b c d e: everything completes and is delivered in input
    // order, and the processed log would list a..e in that order.
    let names = ["a", "b", "c", "d", "e"];
    let mut rx = Receiver::new(5);
    let mut processed: Vec<String> = Vec::new();
    for (id, name) in names.iter().enumerate() {
        match rx.handle(State::Completed(id, s(name))) {
            Delivery::Deliver(got_id, input) => {
                assert_eq!(got_id, id);
                processed.push(input);
            },
            other => panic!("expected immediate delivery, got {:?}", other),
        }
        let extra = rx.drain();
        assert!(extra.is_empty());
    }
    assert!(rx.is_done());
    assert_eq!(processed, vec![s("a"), s("b"), s("c"), s("d"), s("e")]);
}

#[test]
fn out_of_order_finish_is_reserialised() {
    // Four jobs finish in reverse order; delivery still runs 0,1,2,3.
    let mut rx = Receiver::new(4);
    let mut deliveries: Vec<Delivery> = Vec::new();
    for id in [3usize, 2, 1].iter() {
        let d = rx.handle(State::Completed(*id, s(&id.to_string())));
        assert_eq!(d, Delivery::Buffered(true));
        deliveries.extend(rx.drain());
        assert!(deliveries.is_empty());
    }
    let d = rx.handle(State::Completed(0, s("0")));
    assert_eq!(d, Delivery::Deliver(0, s("0")));
    deliveries.push(d);
    deliveries.extend(rx.drain());
    assert!(rx.is_done());
    assert_eq!(
        deliveries,
        vec![
            Delivery::Deliver(0, s("0")),
            Delivery::Deliver(1, s("1")),
            Delivery::Deliver(2, s("2")),
            Delivery::Deliver(3, s("3")),
        ]
    );
}

#[test]
fn mixed_success_and_failure_all_processed() {
    // test "$1" != bad over a bad c: a non-zero exit is still Completed, so
    // the processed log holds all three inputs and the error log none.
    let mut rx = Receiver::new(3);
    let mut processed: Vec<String> = Vec::new();
    let mut errors: Vec<String> = Vec::new();
    for (id, name) in ["a", "bad", "c"].iter().enumerate() {
        match rx.handle(State::Completed(id, s(name))) {
            Delivery::Deliver(_, input) => processed.push(input),
            Delivery::Fail(_, message) => errors.push(message),
            Delivery::Buffered(_) => panic!("arrived in order"),
        }
        rx.drain();
    }
    assert!(rx.is_done());
    assert_eq!(processed, vec![s("a"), s("bad"), s("c")]);
    assert!(errors.is_empty());
}

#[test]
fn spawn_errors_logged_in_order() {
    // /nonexistent/binary over x y: both spawns fail; the error log gets the
    // two diagnostics in input order and nothing is delivered to stdout.
    let mut rx = Receiver::new(2);
    let mut errors: Vec<String> = Vec::new();
    let mut delivered = 0;
    // the second worker reports first
    match rx.handle(State::Error(1, s("unable to spawn for y"))) {
        Delivery::Buffered(tail) => assert!(!tail),
        other => panic!("expected buffering, got {:?}", other),
    }
    match rx.handle(State::Error(0, s("unable to spawn for x"))) {
        Delivery::Fail(id, message) => {
            assert_eq!(id, 0);
            errors.push(message);
        },
        other => panic!("expected failure delivery, got {:?}", other),
    }
    for d in rx.drain() {
        match d {
            Delivery::Fail(id, message) => {
                assert_eq!(id, 1);
                errors.push(message);
            },
            Delivery::Deliver(..) => delivered += 1,
            Delivery::Buffered(_) => panic!("drain never buffers"),
        }
    }
    assert!(rx.is_done());
    assert_eq!(delivered, 0);
    assert_eq!(errors, vec![s("unable to spawn for x"), s("unable to spawn for y")]);
}

#[test]
fn buffered_completion_requests_tailing() {
    let mut rx = Receiver::new(2);
    // a completion ahead of the cursor asks the caller to tail job 0
    assert_eq!(rx.handle(State::Completed(1, s("b"))), Delivery::Buffered(true));
    assert!(!rx.is_done());
    assert_eq!(rx.handle(State::Completed(0, s("a"))), Delivery::Deliver(0, s("a")));
    let rest = rx.drain();
    assert_eq!(rest, vec![Delivery::Deliver(1, s("b"))]);
    assert!(rx.is_done());
}

#[test]
fn drain_cascades_over_gaps() {
    let mut rx = Receiver::new(5);
    for id in [2usize, 4, 1, 3].iter() {
        rx.handle(State::Completed(*id, s(&id.to_string())));
    }
    assert!(rx.drain().is_empty());
    assert_eq!(rx.handle(State::Completed(0, s("0"))), Delivery::Deliver(0, s("0")));
    let rest = rx.drain();
    assert_eq!(
        rest,
        vec![
            Delivery::Deliver(1, s("1")),
            Delivery::Deliver(2, s("2")),
            Delivery::Deliver(3, s("3")),
            Delivery::Deliver(4, s("4")),
        ]
    );
    assert!(rx.is_done());
}

#[test]
fn zero_inputs_is_done_at_once() {
    let rx = Receiver::new(0);
    assert!(rx.is_done());
}
