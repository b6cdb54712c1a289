use voice_gender::batch::{queue_capacity, replies, Action, BatchRequest, BatchWorker};
use voice_gender::classifier::ClassifierError;
use voice_gender::scores::GenderResponse;

fn request(number: u32) -> BatchRequest<u32> {
    BatchRequest { samples: vec![number], response: number }
}

fn handles(batch: &[BatchRequest<u32>]) -> Vec<u32> {
    batch.iter().map(|request| request.response).collect()
}

fn response(label: &str) -> GenderResponse {
    GenderResponse { label: label.to_string(), scores: Vec::new() }
}

/// The batches that come of requests that wait in a queue, so many at a time.
fn run(max_batch_size: usize, mut queues: Vec<Vec<u32>>) -> Vec<Vec<u32>> {
    let mut worker: BatchWorker<u32> = BatchWorker::new(max_batch_size);
    let mut queue: Vec<u32> = Vec::new();
    let mut batches = Vec::new();
    loop {
        match worker.action() {
            Action::Receive => {
                if queue.is_empty() && !queues.is_empty() {
                    queue = queues.remove(0);
                }
                if queue.is_empty() {
                    worker.close();
                } else {
                    worker.receive(request(queue.remove(0)));
                }
            }
            Action::Sleep => worker.wake(),
            Action::Poll => {
                if queue.is_empty() {
                    worker.settle();
                } else {
                    worker.receive(request(queue.remove(0)));
                }
            }
            Action::Run => batches.push(handles(&worker.take())),
            Action::Stop => return batches,
        }
    }
}

#[test]
fn waiting_requests_are_gathered() {
    assert_eq!(run(32, vec![vec![1, 2, 3]]), vec![vec![1, 2, 3]]);
    assert_eq!(run(32, vec![vec![1, 2], vec![3]]), vec![vec![1, 2], vec![3]]);
}

#[test]
fn full_batches_are_run() {
    assert_eq!(run(2, vec![vec![1, 2, 3, 4, 5]]), vec![vec![1, 2], vec![3, 4], vec![5]]);
    assert_eq!(run(1, vec![vec![1, 2]]), vec![vec![1], vec![2]]);
}

#[test]
fn first_request_is_always_run() {
    assert_eq!(run(0, vec![vec![1, 2]]), vec![vec![1], vec![2]]);
}

#[test]
fn closed_queue_ends_the_worker() {
    assert_eq!(run(4, vec![]), Vec::<Vec<u32>>::new());
}

#[test]
fn worker_waits_after_the_first_request() {
    let mut worker: BatchWorker<u32> = BatchWorker::new(3);
    assert_eq!(worker.action(), Action::Receive);
    worker.receive(request(1));
    assert_eq!(worker.action(), Action::Sleep);
    worker.wake();
    assert_eq!(worker.action(), Action::Poll);
    worker.receive(request(2));
    assert_eq!(worker.action(), Action::Poll);
    worker.settle();
    assert_eq!(worker.action(), Action::Run);
    assert_eq!(handles(&worker.take()), vec![1, 2]);
    assert_eq!(worker.action(), Action::Receive);
    worker.close();
    assert_eq!(worker.action(), Action::Stop);
}

#[test]
fn answers_are_told_one_by_one() {
    let told = replies(2, Ok(vec![response("a"), response("b")]));
    let labels: Vec<String> = told
        .into_iter()
        .map(|reply| match reply {
            Ok(response) => response.label,
            Err(message) => panic!("{message}"),
        })
        .collect();
    assert_eq!(labels, vec!["a", "b"]);
    assert_eq!(replies(1, Ok(vec![response("a"), response("b")])).len(), 1);
    assert_eq!(replies(3, Ok(vec![response("a")])).len(), 1);
}

#[test]
fn errors_are_told_to_all() {
    let told = replies(3, Err(ClassifierError::TooShort));
    assert_eq!(told.len(), 3);
    for reply in told {
        match reply {
            Ok(_) => panic!("answered"),
            Err(message) => {
                assert_eq!(message, "audio is too short for Wav2Vec2 feature extraction");
            }
        }
    }
}

#[test]
fn queue_holds_sixteen_batches() {
    assert_eq!(queue_capacity(32), 512);
    assert_eq!(queue_capacity(1), 16);
}

#[test]
fn what_candle_says_is_told_to_all() {
    let err = candle_core::Error::Msg("no such tensor".to_string());
    let told = replies(2, Err(ClassifierError::Model(err)));
    assert_eq!(told.len(), 2);
    for reply in told {
        match reply {
            Ok(_) => panic!("answered"),
            Err(message) => assert_eq!(message, "no such tensor"),
        }
    }
}
