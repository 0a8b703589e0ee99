use dtln_stream::accumulator::BlockAccumulator;
use dtln_stream::config::{ProcessorConfig, BLOCK_SIZE, EXPECTED_SAMPLE_RATE, STARVATION_THRESHOLD};
use dtln_stream::deferred::{DeferredCore, ProcessorError, ProcessorState};

/// A stand-in for the model that carries state from block to block: each
/// output sample is the input sample plus the number of blocks seen before.
struct CountingEngine {
    blocks_seen: i32,
}

impl CountingEngine {
    fn new() -> Self {
        CountingEngine { blocks_seen: 0 }
    }

    fn process(&mut self, block: &[i32]) -> Vec<i32> {
        assert_eq!(block.len(), BLOCK_SIZE);
        let out = block.iter().map(|s| s + self.blocks_seen).collect();
        self.blocks_seen += 1;
        out
    }
}

fn ramp(n: usize) -> Vec<i32> {
    (0..n as i32).collect()
}

#[test]
fn standard_config_values() {
    let c = ProcessorConfig::standard();
    assert_eq!(c.block_size, 1024);
    assert_eq!(c.sample_rate, 16000);
    assert_eq!(c.block_size, BLOCK_SIZE);
    assert_eq!(c.sample_rate, EXPECTED_SAMPLE_RATE);
    assert_eq!(c.starvation_threshold, STARVATION_THRESHOLD);
}

#[test]
fn silence_comes_back_on_next_call() {
    let mut core = DeferredCore::new(ProcessorConfig::standard());
    let mut engine = CountingEngine::new();
    let blocks = core.accept_span(&vec![0; 1024]).unwrap();
    assert_eq!(blocks.len(), 1);
    let first = core.collect_result();
    assert!(first.samples.is_empty());
    assert!(!first.processor_starved);
    let out = engine.process(&blocks[0]);
    core.receive_block(&out);
    assert!(core.accept_span(&[]).unwrap().is_empty());
    let second = core.collect_result();
    assert_eq!(second.samples, vec![0; 1024]);
    assert!(!second.processor_starved);
}

#[test]
fn blocked_worker_reports_starvation_then_catches_up() {
    let input = ramp(2048);
    let mut core = DeferredCore::new(ProcessorConfig::standard());
    let mut engine = CountingEngine::new();
    let mut queue = Vec::new();
    queue.extend(core.accept_span(&input[..1024]).unwrap());
    let first = core.collect_result();
    assert!(!first.processor_starved);
    queue.extend(core.accept_span(&input[1024..]).unwrap());
    let second = core.collect_result();
    assert!(second.processor_starved);
    assert!(second.samples.is_empty());
    for block in &queue {
        let out = engine.process(block);
        core.receive_block(&out);
    }
    core.accept_span(&[]).unwrap();
    let third = core.collect_result();
    assert!(!third.processor_starved);
    let mut expected_engine = CountingEngine::new();
    let mut expected = expected_engine.process(&input[..1024]);
    expected.extend(expected_engine.process(&input[1024..]));
    let mut total = first.samples;
    total.extend(second.samples);
    total.extend(third.samples);
    assert_eq!(total, expected);
}

#[test]
fn ragged_spans_give_full_blocks_in_order() {
    let input = ramp(5000);
    let sizes = [1usize, 1000, 50, 3000, 7, 942];
    let mut core = DeferredCore::new(ProcessorConfig::standard());
    let mut sent = Vec::new();
    let mut at = 0;
    for n in sizes {
        let blocks = core.accept_span(&input[at..at + n]).unwrap();
        for b in &blocks {
            assert_eq!(b.len(), 1024);
        }
        sent.extend(blocks);
        at += n;
    }
    assert_eq!(sent.len(), 4);
    assert_eq!(sent.concat(), input[..4096].to_vec());
    assert_eq!(core.in_flight(), 4);
}

#[test]
fn output_matches_engine_on_whole_stream() {
    let input = ramp(3000);
    let sizes = [700usize, 700, 700, 700, 200];
    let mut core = DeferredCore::new(ProcessorConfig::standard());
    let mut engine = CountingEngine::new();
    let mut output = Vec::new();
    let mut at = 0;
    for n in sizes {
        for b in core.accept_span(&input[at..at + n]).unwrap() {
            let out = engine.process(&b);
            core.receive_block(&out);
        }
        output.extend(core.collect_result().samples);
        at += n;
    }
    if let Some(b) = core.begin_stop() {
        let out = engine.process(&b);
        core.receive_block(&out);
    }
    output.extend(core.finish_stop());
    let mut reference = CountingEngine::new();
    let mut padded = input.clone();
    padded.resize(3072, 0);
    let mut expected = Vec::new();
    for chunk in padded.chunks(1024) {
        expected.extend(reference.process(chunk));
    }
    expected.truncate(3000);
    assert_eq!(output, expected);
}

#[test]
fn stop_twice_flushes_once() {
    let mut core = DeferredCore::new(ProcessorConfig::standard());
    let mut engine = CountingEngine::new();
    assert!(core.accept_span(&ramp(100)).unwrap().is_empty());
    let tail = core.begin_stop().unwrap();
    assert!(core.begin_stop().is_none());
    core.receive_block(&engine.process(&tail));
    let flushed = core.finish_stop();
    assert_eq!(flushed, ramp(100));
    assert!(core.begin_stop().is_none());
    assert!(core.finish_stop().is_empty());
    assert_eq!(core.state(), ProcessorState::Stopped);
}

#[test]
fn denoise_after_stop_is_refused() {
    let mut core = DeferredCore::new(ProcessorConfig::standard());
    assert!(core.begin_stop().is_none());
    assert!(core.finish_stop().is_empty());
    assert_eq!(core.accept_span(&[1, 2, 3]), Err(ProcessorError::ProcessorStoppedError));
}

#[test]
fn final_partial_span_yields_exactly_its_length() {
    let mut core = DeferredCore::new(ProcessorConfig::standard());
    let mut engine = CountingEngine::new();
    for b in core.accept_span(&ramp(1324)).unwrap() {
        core.receive_block(&engine.process(&b));
    }
    let first = core.collect_result();
    assert_eq!(first.samples.len(), 1024);
    let tail = core.begin_stop().unwrap();
    assert_eq!(tail.len(), 1024);
    assert_eq!(&tail[..300], &ramp(1324)[1024..]);
    assert!(tail[300..].iter().all(|s| *s == 0));
    core.receive_block(&engine.process(&tail));
    let flushed = core.finish_stop();
    assert_eq!(flushed.len(), 300);
    let expected: Vec<i32> = (1024..1324).map(|s| s + 1).collect();
    assert_eq!(flushed, expected);
}

#[test]
fn stop_with_no_pending_input_sends_nothing() {
    let mut core = DeferredCore::new(ProcessorConfig::standard());
    let mut engine = CountingEngine::new();
    for b in core.accept_span(&ramp(1024)).unwrap() {
        core.receive_block(&engine.process(&b));
    }
    assert!(core.begin_stop().is_none());
    assert_eq!(core.state(), ProcessorState::Stopping);
    assert_eq!(core.finish_stop(), ramp(1024));
}

#[test]
fn starvation_persists_until_backlog_drains() {
    let mut core = DeferredCore::new(ProcessorConfig::standard());
    let mut engine = CountingEngine::new();
    let mut queue = Vec::new();
    queue.extend(core.accept_span(&ramp(3072)).unwrap());
    assert!(core.collect_result().processor_starved);
    queue.extend(core.accept_span(&ramp(10)).unwrap());
    assert!(core.collect_result().processor_starved);
    core.receive_block(&engine.process(&queue[0]));
    assert!(core.collect_result().processor_starved);
    core.receive_block(&engine.process(&queue[1]));
    let r = core.collect_result();
    assert!(!r.processor_starved);
    assert_eq!(r.samples.len(), 1024);
}

#[test]
fn custom_threshold_is_respected() {
    let config = ProcessorConfig { block_size: 4, sample_rate: 8000, starvation_threshold: 2 };
    let mut core = DeferredCore::new(config);
    assert_eq!(core.accept_span(&[1, 2, 3, 4, 5, 6, 7, 8, 9]).unwrap().len(), 2);
    assert!(!core.collect_result().processor_starved);
    assert_eq!(core.accept_span(&[10, 11, 12]).unwrap(), vec![vec![9, 10, 11, 12]]);
    assert!(core.collect_result().processor_starved);
    assert_eq!(core.config(), config);
}

#[test]
fn accumulator_reshapes_and_pads() {
    let mut acc = BlockAccumulator::new(3);
    assert_eq!(acc.block_size(), 3);
    assert!(acc.push_input(&[1, 2]).is_empty());
    assert_eq!(acc.pending_input_len(), 2);
    assert_eq!(acc.push_input(&[3, 4, 5, 6, 7]), vec![vec![1, 2, 3], vec![4, 5, 6]]);
    assert_eq!(acc.pending_input_len(), 1);
    assert_eq!(acc.take_padded_tail(), Some((vec![7, 0, 0], 1)));
    assert_eq!(acc.pending_input_len(), 0);
    assert_eq!(acc.take_padded_tail(), None);
}

#[test]
fn accumulator_output_keeps_prefix() {
    let mut acc = BlockAccumulator::new(4);
    acc.push_output(&[1, 2, 3, 4], 4);
    acc.push_output(&[5, 6, 7, 8], 2);
    assert_eq!(acc.pending_output_len(), 6);
    assert_eq!(acc.take_output(), vec![1, 2, 3, 4, 5, 6]);
    assert!(acc.take_output().is_empty());
}

#[test]
fn input_of_whole_blocks_needs_no_padding() {
    let config = ProcessorConfig { block_size: 2, sample_rate: 16000, starvation_threshold: 1 };
    let mut core = DeferredCore::new(config);
    let blocks = core.accept_span(&[5, 6, 7, 8]).unwrap();
    assert_eq!(blocks, vec![vec![5, 6], vec![7, 8]]);
    assert_eq!(core.pending_input_len(), 0);
    assert!(core.collect_result().processor_starved);
    for b in &blocks {
        let out: Vec<i32> = b.iter().map(|s| -s).collect();
        core.receive_block(&out);
    }
    assert!(core.begin_stop().is_none());
    assert_eq!(core.in_flight(), 0);
    assert_eq!(core.finish_stop(), vec![-5, -6, -7, -8]);
}

#[test]
fn empty_stream_stops_cleanly() {
    let mut core = DeferredCore::new(ProcessorConfig::standard());
    let r = core.collect_result();
    assert!(r.samples.is_empty());
    assert!(!r.processor_starved);
    assert!(core.begin_stop().is_none());
    assert!(core.finish_stop().is_empty());
    assert_eq!(core.state(), ProcessorState::Stopped);
}
