use winston_transport::threaded::{threaded_step, ThreadedAction, ThreadedEvent};
use winston_transport::LogRecord;

fn rec(msg: &str) -> LogRecord {
    LogRecord::new("INFO", msg)
}

struct MockSink {
    messages: Vec<String>,
    flushes: usize,
}

impl MockSink {
    fn new() -> MockSink {
        MockSink { messages: Vec::new(), flushes: 0 }
    }

    fn act(&mut self, a: ThreadedAction) -> bool {
        match a {
            ThreadedAction::SinkLog(r) => {
                self.messages.push(r.message);
                true
            }
            ThreadedAction::SinkFlushReply => {
                self.flushes += 1;
                true
            }
            ThreadedAction::SinkQueryReply => true,
            ThreadedAction::FlushAndExit => {
                self.flushes += 1;
                false
            }
        }
    }
}

#[test]
fn test_threaded_transport_basic_logging() {
    let mut sink = MockSink::new();

    for e in [
        ThreadedEvent::Log(rec("Message 1")),
        ThreadedEvent::Log(rec("Message 2")),
        ThreadedEvent::Log(rec("Message 3")),
        ThreadedEvent::Flush,
    ] {
        sink.act(threaded_step(e));
    }

    assert_eq!(sink.messages.len(), 3);
    assert_eq!(sink.messages[0], "Message 1");
    assert_eq!(sink.messages[1], "Message 2");
    assert_eq!(sink.messages[2], "Message 3");
    // The flush reply comes after every earlier record was written.
    assert_eq!(sink.flushes, 1);
}

#[test]
fn test_threaded_transport_graceful_shutdown() {
    let mut sink = MockSink::new();

    assert!(sink.act(threaded_step(ThreadedEvent::Log(rec("Before shutdown")))));
    assert!(!sink.act(threaded_step(ThreadedEvent::Shutdown)));

    assert_eq!(sink.messages.len(), 1);
    assert_eq!(sink.messages[0], "Before shutdown");
}

#[test]
fn test_threaded_query_serializes_after_logs() {
    let mut sink = MockSink::new();
    assert!(sink.act(threaded_step(ThreadedEvent::Log(rec("a")))));
    assert!(matches!(
        threaded_step(ThreadedEvent::Query),
        ThreadedAction::SinkQueryReply
    ));
    assert_eq!(sink.messages, vec!["a"]);
}
