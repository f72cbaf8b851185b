use hostparser::normalize::Normalizer;
use hostparser::pipeline::{
    producer_step, worker_step, Job, LineEvent, PoolState, ProducerAction, WorkerAction,
    WorkerEvent,
};

#[test]
fn producer_enqueues_each_nonempty_line() {
    match producer_step(LineEvent::Line(String::from("sub.example.com"))) {
        ProducerAction::Enqueue(j) => assert_eq!(j.host, Some(String::from("sub.example.com"))),
        _ => panic!("a non-empty line must become a job"),
    }
}

#[test]
fn producer_skips_empty_lines_and_read_errors() {
    assert!(matches!(
        producer_step(LineEvent::Line(String::new())),
        ProducerAction::Skip
    ));
    assert!(matches!(producer_step(LineEvent::ReadError), ProducerAction::Skip));
}

#[test]
fn producer_closes_on_end_of_input() {
    assert!(matches!(producer_step(LineEvent::End), ProducerAction::Close));
}

#[test]
fn worker_emits_the_normalized_line() {
    let n = Normalizer::new();
    let ev = WorkerEvent::Received(Job { host: Some(String::from("sub.example.com")) });
    match worker_step(&n, ev) {
        WorkerAction::Emit(line) => assert_eq!(line, "example.com"),
        _ => panic!("a resolvable host must be emitted"),
    }
}

#[test]
fn worker_skips_unresolvable_hosts_and_exits_on_close() {
    let n = Normalizer::new();
    let ev = WorkerEvent::Received(Job { host: Some(String::from("bad..not-a-real-suffix")) });
    assert!(matches!(worker_step(&n, ev), WorkerAction::Skip));
    assert!(matches!(worker_step(&n, WorkerEvent::Closed), WorkerAction::Exit));
}

#[test]
fn batch_emits_one_line_per_resolvable_host() {
    let n = Normalizer::new();
    let hosts = vec![
        String::from("http://www.example.co.uk"),
        String::from("bad..not-a-real-suffix"),
        String::from("sub.example.com"),
    ];
    let out = n_batch(&n, hosts);
    assert_eq!(out, vec![String::from("example.co.uk"), String::from("example.com")]);
}

fn n_batch(n: &Normalizer, hosts: Vec<String>) -> Vec<String> {
    hostparser::pipeline::process_batch(n, &hosts)
}

#[test]
fn empty_input_yields_no_output() {
    let n = Normalizer::new();
    let out = hostparser::pipeline::process_batch(&n, &Vec::new());
    assert!(out.is_empty());
}

#[test]
fn output_never_outnumbers_input() {
    let n = Normalizer::new();
    let hosts = vec![
        String::from("a.example.com"),
        String::from(""),
        String::from("b.example.org"),
        String::from("..."),
    ];
    let out = hostparser::pipeline::process_batch(&n, &hosts);
    assert!(out.len() <= hosts.len());
}

#[test]
fn pool_occupancy_never_exceeds_concurrency() {
    let mut p = PoolState::spawn(2);
    assert!(p.start_job());
    assert!(p.start_job());
    assert!(!p.start_job());
    assert_eq!(p.busy, 2);
    p.finish_job();
    assert!(p.start_job());
    assert_eq!(p.busy, 2);
    p.finish_job();
    p.finish_job();
    assert_eq!(p.busy, 0);
}
