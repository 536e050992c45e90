use winston_transport::batch::{BatchConfig, BatchWorker};
use winston_transport::LogRecord;

fn rec(msg: &str) -> LogRecord {
    LogRecord::new("INFO", msg)
}

fn messages(batch: &[LogRecord]) -> Vec<String> {
    batch.iter().map(|r| r.message.clone()).collect()
}

#[test]
fn test_batch_size_trigger() {
    let config = BatchConfig {
        max_batch_size: 3,
        max_batch_time: 10_000,
        flush_on_drop: true,
    };
    let mut worker = BatchWorker::new(0);
    let mut sink: Vec<String> = Vec::new();
    let mut batch_calls: usize = 0;

    for msg in ["Message 1", "Message 2", "Message 3"] {
        if let Some(batch) = worker.on_log(rec(msg), 1, &config) {
            batch_calls += 1;
            sink.extend(messages(&batch));
        }
    }

    assert_eq!(sink.len(), 3);
    assert_eq!(sink, vec!["Message 1", "Message 2", "Message 3"]);
    // The three records arrive in one delivery, at the moment the batch
    // fills.
    assert_eq!(batch_calls, 1);
}

#[test]
fn test_time_trigger() {
    let config = BatchConfig {
        max_batch_size: 100,
        max_batch_time: 50,
        flush_on_drop: true,
    };
    let mut worker = BatchWorker::new(0);
    let mut sink: Vec<String> = Vec::new();

    assert!(worker.on_log(rec("Message 1"), 0, &config).is_none());
    assert!(worker.on_log(rec("Message 2"), 1, &config).is_none());

    // After 100 ms the wait has expired, so the host's receive times out
    // and the timer flush drains both records.
    assert_eq!(worker.next_wait(100, &config), Some(0));
    if let Some(batch) = worker.on_trigger(100) {
        sink.extend(messages(&batch));
    }

    assert_eq!(sink.len(), 2);
    assert_eq!(sink[0], "Message 1");
    assert_eq!(sink[1], "Message 2");
}

#[test]
fn test_manual_flush() {
    let config = BatchConfig {
        max_batch_size: 100,
        max_batch_time: 10_000,
        flush_on_drop: true,
    };
    let mut worker = BatchWorker::new(0);
    let mut sink: Vec<String> = Vec::new();

    assert!(worker.on_log(rec("Message 1"), 0, &config).is_none());
    if let Some(batch) = worker.on_trigger(1) {
        sink.extend(messages(&batch));
    }

    assert_eq!(sink.len(), 1);
    assert_eq!(sink[0], "Message 1");
    // Nothing further is pending: the worker would block indefinitely.
    assert_eq!(worker.next_wait(2, &config), None);
}

#[test]
fn test_query_functionality() {
    // A query is served after a forced flush, so it sees the records sent
    // before it.
    let config = BatchConfig::default();
    let mut worker = BatchWorker::new(0);
    let mut sink: Vec<String> = Vec::new();

    assert!(worker.on_log(rec("Test query 1"), 0, &config).is_none());
    if let Some(batch) = worker.on_trigger(1) {
        sink.extend(messages(&batch));
    }

    let result: Vec<LogRecord> = sink.iter().map(|m| rec(m)).collect();
    assert_eq!(result.len(), 1);
    assert_eq!(result[0].message, "Test query 1");
}

#[test]
fn test_concurrent_access() {
    // Five producers' streams, interleaved round-robin as a channel would
    // deliver them; every record arrives exactly once.
    let config = BatchConfig {
        max_batch_size: 10,
        max_batch_time: 1_000,
        flush_on_drop: true,
    };
    let mut worker = BatchWorker::new(0);
    let mut sink: Vec<String> = Vec::new();
    let mut sent: usize = 0;

    for j in 0..20 {
        for i in 0..5 {
            let msg = format!("Thread {} - Message {}", i, j);
            sent += 1;
            if let Some(batch) = worker.on_log(rec(&msg), 1, &config) {
                sink.extend(messages(&batch));
            }
        }
    }
    if let Some(batch) = worker.on_trigger(2) {
        sink.extend(messages(&batch));
    }

    assert_eq!(sink.len(), sent);
    // Each producer's records appear in its own order.
    for i in 0..5 {
        let of_producer: Vec<&String> = sink
            .iter()
            .filter(|m| m.starts_with(&format!("Thread {} ", i)))
            .collect();
        assert_eq!(of_producer.len(), 20);
        for (j, m) in of_producer.iter().enumerate() {
            assert_eq!(**m, format!("Thread {} - Message {}", i, j));
        }
    }
}

#[test]
fn test_shutdown_behavior_with_pending_messages() {
    let config = BatchConfig {
        max_batch_size: 100,
        max_batch_time: 10_000,
        flush_on_drop: true,
    };
    let mut worker = BatchWorker::new(0);
    let mut sink: Vec<String> = Vec::new();

    assert!(worker.on_log(rec("Pending message 1"), 0, &config).is_none());
    assert!(worker.on_log(rec("Pending message 2"), 0, &config).is_none());

    // Dropping the transport with flush_on_drop sends a shutdown, which
    // drains the buffer before the worker exits.
    if config.flush_on_drop {
        if let Some(batch) = worker.on_trigger(1) {
            sink.extend(messages(&batch));
        }
    }

    assert_eq!(sink.len(), 2);
    assert!(sink.contains(&"Pending message 1".to_string()));
    assert!(sink.contains(&"Pending message 2".to_string()));
}

#[test]
fn test_next_wait_bounds() {
    let config = BatchConfig {
        max_batch_size: 10,
        max_batch_time: 500,
        flush_on_drop: true,
    };
    let mut worker = BatchWorker::new(1_000);
    assert_eq!(worker.next_wait(1_000, &config), None);
    assert!(worker.on_log(rec("x"), 1_000, &config).is_none());
    assert_eq!(worker.next_wait(1_200, &config), Some(300));
    assert_eq!(worker.next_wait(1_500, &config), Some(0));
    assert_eq!(worker.next_wait(2_000, &config), Some(0));
}

#[test]
fn test_batch_count_bound() {
    // Five records at batch size two cause two size-triggered deliveries;
    // one final flush makes three, the most the bound allows.
    let config = BatchConfig {
        max_batch_size: 2,
        max_batch_time: 10_000,
        flush_on_drop: true,
    };
    let mut worker = BatchWorker::new(0);
    let mut deliveries: usize = 0;
    for i in 0..5 {
        if worker.on_log(rec(&format!("r{}", i)), 0, &config).is_some() {
            deliveries += 1;
        }
    }
    if worker.on_trigger(1).is_some() {
        deliveries += 1;
    }
    assert_eq!(deliveries, 3);
    assert!(deliveries <= 5 / config.max_batch_size + 1);
}

#[test]
fn test_default_config() {
    let d = BatchConfig::default();
    assert_eq!(d.max_batch_size, 100);
    assert_eq!(d.max_batch_time, 500);
    assert!(d.flush_on_drop);
}
