use redis_aio::pipeline::{
    received_multiple, received_one, send, send_recv_multiple, PipelineSink, Reply, SinkAction,
};
use redis_aio::response::ResponseReceiver;
use redis_aio::types::Polled;
use tokio::sync::oneshot;

type Sink = PipelineSink<u32, &'static str>;
type Response = oneshot::Receiver<Result<Vec<u32>, &'static str>>;

/// Brings a message whose input the connection takes.
fn bring(sink: &mut Sink, input: &'static str, count: usize) -> Response {
    let (message, receiver) = send_recv_multiple(input, count);
    let forward = match sink.start_send(message) {
        Ok(forward) => forward,
        Err(()) => panic!("refused"),
    };
    assert_eq!(forward.input, input);
    assert_eq!(forward.pending.response_count, count);
    assert_eq!(sink.start_sent(forward.pending, Ok(())), Ok(()));
    receiver.into_inner()
}

#[test]
fn nothing_waits_at_first() {
    let sink = Sink::new();
    assert_eq!(sink.poll_close(), SinkAction::PollClose);
}

#[test]
fn a_single_reply_answers_a_single_request() {
    let mut sink = Sink::new();
    let mut response = bring(&mut sink, "a", 1);
    assert!(response.try_recv().is_err());
    sink.send_result(Ok(7));
    assert_eq!(response.try_recv(), Ok(Ok(vec![7])));
    assert_eq!(sink.poll_close(), SinkAction::PollClose);
}

#[test]
fn replies_are_gathered() {
    let mut sink = Sink::new();
    let mut response = bring(&mut sink, "a", 3);
    sink.send_result(Ok(1));
    sink.send_result(Ok(2));
    assert_eq!(
        response.try_recv(),
        Err(oneshot::error::TryRecvError::Empty)
    );
    sink.send_result(Ok(3));
    assert_eq!(response.try_recv(), Ok(Ok(vec![1, 2, 3])));
}

#[test]
fn replies_reach_their_requests_in_order() {
    let mut sink = Sink::new();
    let mut a = bring(&mut sink, "a", 2);
    let mut b = bring(&mut sink, "b", 1);
    let mut c = bring(&mut sink, "c", 2);
    for reply in 1..6 {
        sink.send_result(Ok(reply));
    }
    assert_eq!(a.try_recv(), Ok(Ok(vec![1, 2])));
    assert_eq!(b.try_recv(), Ok(Ok(vec![3])));
    assert_eq!(c.try_recv(), Ok(Ok(vec![4, 5])));
}

/// Lets all that was written go out, and has the connection give `results`.
fn run(sink: &mut Sink, results: Vec<Result<u32, &'static str>>) {
    let mut action = sink.poll_flush(false, Polled::Ready(Ok(())));
    for result in results {
        assert_eq!(action, SinkAction::PollNext { closing: false });
        action = sink.poll_read(false, Polled::Ready(Some(result)));
    }
    assert_eq!(action, SinkAction::PollNext { closing: false });
    assert_eq!(
        sink.poll_read(false, Polled::Pending),
        SinkAction::Return(Polled::Pending)
    );
}

#[test]
fn a_request_for_no_reply_takes_none() {
    let mut sink = Sink::new();
    let mut a = bring(&mut sink, "a", 0);
    assert_eq!(a.try_recv(), Err(oneshot::error::TryRecvError::Empty));
    assert_eq!(sink.poll_close(), SinkAction::PollFlush { closing: true });
    run(&mut sink, vec![]);
    assert_eq!(a.try_recv(), Ok(Ok(vec![])));
    assert_eq!(sink.poll_close(), SinkAction::PollClose);

    let mut b = bring(&mut sink, "b", 2);
    run(&mut sink, vec![Ok(1)]);
    let mut c = bring(&mut sink, "c", 0);
    let mut d = bring(&mut sink, "d", 0);
    let mut e = bring(&mut sink, "e", 1);
    run(&mut sink, vec![]);
    assert!(b.try_recv().is_err());
    assert!(c.try_recv().is_err());
    run(&mut sink, vec![Ok(2)]);
    assert_eq!(b.try_recv(), Ok(Ok(vec![1, 2])));
    assert_eq!(c.try_recv(), Ok(Ok(vec![])));
    assert_eq!(d.try_recv(), Ok(Ok(vec![])));
    assert!(e.try_recv().is_err());
    run(&mut sink, vec![Ok(3)]);
    assert_eq!(e.try_recv(), Ok(Ok(vec![3])));
}

#[test]
fn a_request_for_no_reply_is_not_touched_by_a_failure_to_read() {
    let mut sink = Sink::new();
    let mut a = bring(&mut sink, "a", 0);
    let mut b = bring(&mut sink, "b", 2);
    let mut c = bring(&mut sink, "c", 0);
    let mut d = bring(&mut sink, "d", 1);
    run(&mut sink, vec![Ok(1), Err("broken"), Ok(2)]);
    assert_eq!(a.try_recv(), Ok(Ok(vec![])));
    assert_eq!(b.try_recv(), Ok(Err("broken")));
    assert_eq!(c.try_recv(), Ok(Ok(vec![])));
    assert_eq!(d.try_recv(), Ok(Ok(vec![2])));
}

#[test]
fn a_request_for_no_reply_fails_if_it_cannot_go_out() {
    let mut sink = Sink::new();
    let mut a = bring(&mut sink, "a", 0);
    let mut b = bring(&mut sink, "b", 0);
    assert_eq!(
        sink.poll_flush(false, Polled::Pending),
        SinkAction::Return(Polled::Pending)
    );
    assert!(a.try_recv().is_err());
    assert_eq!(
        sink.poll_flush(false, Polled::Ready(Err("broken"))),
        SinkAction::Return(Polled::Ready(Err(())))
    );
    assert_eq!(a.try_recv(), Ok(Err("broken")));
    assert_eq!(b.try_recv(), Err(oneshot::error::TryRecvError::Empty));
    std::mem::drop(sink);
    assert_eq!(b.try_recv(), Err(oneshot::error::TryRecvError::Closed));
}

#[test]
fn a_request_for_no_reply_can_be_refused() {
    let mut sink = Sink::new();
    let (message, receiver) = send_recv_multiple("a", 0);
    let forward = match sink.start_send(message) {
        Ok(forward) => forward,
        Err(()) => panic!("refused"),
    };
    assert_eq!(sink.start_sent(forward.pending, Err("full")), Err(()));
    assert_eq!(receiver.into_inner().try_recv(), Ok(Err("full")));
}

#[test]
fn failures_do_not_mix_replies() {
    let mut sink = Sink::new();
    let mut a = bring(&mut sink, "a", 2);
    let mut b = bring(&mut sink, "b", 3);
    let mut c = bring(&mut sink, "c", 1);
    let mut d = bring(&mut sink, "d", 2);
    sink.send_result(Ok(1));
    sink.send_result(Ok(2));
    sink.send_result(Ok(3));
    sink.send_result(Err("broken"));
    sink.send_result(Err("again"));
    sink.send_result(Ok(4));
    sink.send_result(Ok(5));
    sink.send_result(Ok(6));
    assert_eq!(a.try_recv(), Ok(Ok(vec![1, 2])));
    assert_eq!(b.try_recv(), Ok(Err("broken")));
    assert_eq!(c.try_recv(), Ok(Err("again")));
    assert_eq!(d.try_recv(), Ok(Ok(vec![4, 5])));
}

#[test]
fn a_failure_answers_the_oldest_request_at_once() {
    let mut sink = Sink::new();
    let mut a = bring(&mut sink, "a", 3);
    let mut b = bring(&mut sink, "b", 1);
    sink.send_result(Ok(1));
    sink.send_result(Err("broken"));
    assert_eq!(a.try_recv(), Ok(Err("broken")));
    sink.send_result(Ok(2));
    assert_eq!(b.try_recv(), Ok(Ok(vec![2])));
}

#[test]
fn unasked_replies_are_dropped() {
    let mut sink = Sink::new();
    sink.send_result(Ok(1));
    sink.send_result(Err("broken"));
    let mut a = bring(&mut sink, "a", 1);
    sink.send_result(Ok(2));
    assert_eq!(a.try_recv(), Ok(Ok(vec![2])));
}

#[test]
fn a_dropped_receiver_does_not_hold_up_the_others() {
    let mut sink = Sink::new();
    let a = bring(&mut sink, "a", 1);
    let mut b = bring(&mut sink, "b", 1);
    std::mem::drop(a);
    sink.send_result(Ok(1));
    sink.send_result(Ok(2));
    assert_eq!(b.try_recv(), Ok(Ok(vec![2])));
}

#[test]
fn a_failure_to_get_ready_refuses_the_next_message_only() {
    let mut sink = Sink::new();
    let mut a = bring(&mut sink, "a", 1);
    assert_eq!(
        sink.poll_ready(Polled::Ready(Err("gone"))),
        Polled::Ready(Ok(()))
    );
    let (message, receiver) = send_recv_multiple("b", 1);
    assert!(sink.start_send(message).is_err());
    assert_eq!(receiver.into_inner().try_recv(), Ok(Err("gone")));
    let mut c = bring(&mut sink, "c", 1);
    sink.send_result(Ok(1));
    sink.send_result(Ok(2));
    assert_eq!(a.try_recv(), Ok(Ok(vec![1])));
    assert_eq!(c.try_recv(), Ok(Ok(vec![2])));
}

#[test]
fn readiness_is_passed_on() {
    let mut sink = Sink::new();
    assert_eq!(sink.poll_ready(Polled::Pending), Polled::Pending);
    assert_eq!(
        sink.poll_ready(Polled::Ready(Ok(()))),
        Polled::Ready(Ok(()))
    );
}

#[test]
fn a_message_that_the_connection_does_not_take_is_answered() {
    let mut sink = Sink::new();
    let (message, receiver) = send_recv_multiple("a", 1);
    let forward = match sink.start_send(message) {
        Ok(forward) => forward,
        Err(()) => panic!("refused"),
    };
    assert_eq!(sink.start_sent(forward.pending, Err("full")), Err(()));
    assert_eq!(receiver.into_inner().try_recv(), Ok(Err("full")));
    assert_eq!(sink.poll_close(), SinkAction::PollClose);
}

#[test]
fn a_flush_reads_until_nothing_is_there() {
    let mut sink = Sink::new();
    let mut a = bring(&mut sink, "a", 1);
    let flushed = sink.poll_flush(false, Polled::Ready(Ok(())));
    assert_eq!(flushed, SinkAction::PollNext { closing: false });
    let read = sink.poll_read(false, Polled::Ready(Some(Ok(1))));
    assert_eq!(read, SinkAction::PollNext { closing: false });
    assert_eq!(a.try_recv(), Ok(Ok(vec![1])));
    assert_eq!(
        sink.poll_read(false, Polled::Pending),
        SinkAction::Return(Polled::Pending)
    );
}

#[test]
fn a_flush_fails_at_the_end_of_the_replies() {
    let mut sink = Sink::new();
    let mut a = bring(&mut sink, "a", 1);
    let mut b = bring(&mut sink, "b", 2);
    assert_eq!(
        sink.poll_flush(false, Polled::Ready(Ok(()))),
        SinkAction::PollNext { closing: false }
    );
    assert_eq!(
        sink.poll_read(false, Polled::Ready(Some(Ok(1)))),
        SinkAction::PollNext { closing: false }
    );
    assert_eq!(
        sink.poll_read(false, Polled::Ready(None)),
        SinkAction::Return(Polled::Ready(Err(())))
    );
    assert_eq!(a.try_recv(), Ok(Ok(vec![1])));
    assert_eq!(b.try_recv(), Err(oneshot::error::TryRecvError::Empty));
    std::mem::drop(sink);
    assert_eq!(b.try_recv(), Err(oneshot::error::TryRecvError::Closed));
}

#[test]
fn a_flush_that_fails_answers_the_oldest_request() {
    let mut sink = Sink::new();
    let mut a = bring(&mut sink, "a", 1);
    assert_eq!(
        sink.poll_flush(false, Polled::Pending),
        SinkAction::Return(Polled::Pending)
    );
    assert_eq!(
        sink.poll_flush(false, Polled::Ready(Err("broken"))),
        SinkAction::Return(Polled::Ready(Err(())))
    );
    assert_eq!(a.try_recv(), Ok(Err("broken")));
}

#[test]
fn a_close_completes_requests_first() {
    let mut sink = Sink::new();
    let mut a = bring(&mut sink, "a", 1);
    assert_eq!(sink.poll_close(), SinkAction::PollFlush { closing: true });
    assert_eq!(
        sink.poll_flush(true, Polled::Ready(Ok(()))),
        SinkAction::PollNext { closing: true }
    );
    assert_eq!(
        sink.poll_read(true, Polled::Ready(Some(Ok(9)))),
        SinkAction::PollNext { closing: true }
    );
    assert_eq!(
        sink.poll_read(true, Polled::Ready(None)),
        SinkAction::PollClose
    );
    assert_eq!(
        sink.closed(Polled::Ready(Ok(()))),
        SinkAction::Return(Polled::Ready(Ok(())))
    );
    assert_eq!(a.try_recv(), Ok(Ok(vec![9])));
}

#[test]
fn a_close_that_fails_answers_the_oldest_request() {
    let mut sink = Sink::new();
    let mut a = bring(&mut sink, "a", 1);
    assert_eq!(
        sink.closed(Polled::Pending),
        SinkAction::Return(Polled::Pending)
    );
    assert_eq!(
        sink.closed(Polled::Ready(Err("broken"))),
        SinkAction::Return(Polled::Ready(Err(())))
    );
    assert_eq!(a.try_recv(), Ok(Err("broken")));
}

#[test]
fn outcomes_of_messages() {
    let answered: Reply<u32, &str> = Reply::Received(Ok(Ok(vec![1, 2])));
    assert_eq!(received_multiple(answered), Ok(vec![1, 2]));
    let failed: Reply<u32, &str> = Reply::Received(Ok(Err("broken")));
    assert_eq!(received_multiple(failed), Err(Some("broken")));
    let unsent: Reply<u32, &str> = Reply::Unsent;
    assert_eq!(received_multiple(unsent), Err(None));
}

#[test]
fn a_pipeline_that_is_dropped_gives_no_response() {
    let mut sink = Sink::new();
    assert_eq!(
        sink.poll_read(false, Polled::Ready(None)),
        SinkAction::Return(Polled::Ready(Err(())))
    );
    let response = bring(&mut sink, "a", 1);
    std::mem::drop(sink);
    let mut pool = Box::pin(response);
    let waker = futures_util::task::noop_waker();
    let mut cx = std::task::Context::from_waker(&waker);
    let polled = std::future::Future::poll(pool.as_mut(), &mut cx);
    match polled {
        std::task::Poll::Ready(received) => {
            let outcome = received_multiple(Reply::Received(received));
            assert_eq!(outcome, Err(None));
            assert_eq!(received_one(outcome), Err(None));
        }
        std::task::Poll::Pending => panic!("pending"),
    }
}

#[test]
fn the_one_reply_is_taken_out() {
    let one: Result<Vec<u32>, Option<&str>> = Ok(vec![5]);
    assert_eq!(received_one(one), Ok(5));
    let none: Result<Vec<u32>, Option<&str>> = Err(None);
    assert_eq!(received_one(none), Err(None));
    let failed: Result<Vec<u32>, Option<&str>> = Err(Some("broken"));
    assert_eq!(received_one(failed), Err(Some("broken")));
}

#[test]
fn a_message_for_one_reply_gets_the_list_of_one() {
    let mut sink = Sink::new();
    let (message, receiver) = send("a");
    assert_eq!(message.input, "a");
    assert_eq!(message.response_count, 1);
    let forward = match sink.start_send(message) {
        Ok(forward) => forward,
        Err(()) => panic!("refused"),
    };
    assert_eq!(sink.start_sent(forward.pending, Ok(())), Ok(()));
    sink.send_result(Ok(8));
    sink.send_result(Ok(9));
    let response = receiver.into_inner().try_recv().unwrap();
    let list = received_multiple(Reply::Received(Ok(response)));
    assert_eq!(list, Ok(vec![8]));
    assert_eq!(received_one(list), Ok(8));
}

#[test]
fn a_message_carries_its_input_and_count() {
    let (message, receiver) = send_recv_multiple::<&str, u32, &str>("input", 4);
    let receiver: ResponseReceiver<u32, &str> = receiver;
    assert_eq!(message.input, "input");
    assert_eq!(message.response_count, 4);
    std::mem::drop(message);
    assert_eq!(
        receiver.into_inner().try_recv(),
        Err(oneshot::error::TryRecvError::Closed)
    );
}

#[test]
fn messages_and_replies_may_follow_each_other_in_any_way() {
    let mut sink = Sink::new();
    let mut a = bring(&mut sink, "a", 2);
    sink.send_result(Ok(1));
    let mut b = bring(&mut sink, "b", 2);
    sink.send_result(Ok(2));
    sink.send_result(Ok(3));
    let mut c = bring(&mut sink, "c", 1);
    sink.send_result(Ok(4));
    sink.send_result(Ok(5));
    sink.send_result(Ok(6));
    assert_eq!(a.try_recv(), Ok(Ok(vec![1, 2])));
    assert_eq!(b.try_recv(), Ok(Ok(vec![3, 4])));
    assert_eq!(c.try_recv(), Ok(Ok(vec![5])));
}

#[test]
fn each_message_is_answered_once() {
    let mut sink = Sink::new();
    let mut responses = Vec::new();
    for n in 0..6 {
        let (message, receiver) = send_recv_multiple("x", 1);
        if n % 3 == 1 {
            sink.poll_ready(Polled::Ready(Err("not ready")));
        }
        if let Ok(forward) = sink.start_send(message) {
            let taken = if n % 3 == 2 { Err("full") } else { Ok(()) };
            let _ = sink.start_sent(forward.pending, taken);
        }
        responses.push(receiver.into_inner());
    }
    sink.send_result(Ok(10));
    sink.send_result(Ok(20));
    sink.send_result(Ok(30));
    let received: Vec<_> = responses
        .iter_mut()
        .map(|response| response.try_recv())
        .collect();
    assert_eq!(
        received,
        vec![
            Ok(Ok(vec![10])),
            Ok(Err("not ready")),
            Ok(Err("full")),
            Ok(Ok(vec![20])),
            Ok(Err("not ready")),
            Ok(Err("full")),
        ]
    );
}
