use vstd::arithmetic::div_mod::{
    lemma_fundamental_div_mod_converse, lemma_mod_self_0, lemma_small_mod,
};
use vstd::prelude::*;
use vstd::seq_lib::lemma_flatten_concat;

use crate::accumulator::{
    all_of_size, blocks_view, chunks, lemma_chunks_flatten, lemma_flatten_len, padded, zeros,
    BlockAccumulator,
};
use crate::config::ProcessorConfig;

verus! {

/// Life cycle of a deferred processor. There is no way back from `Stopped`.
#[derive(Clone, Copy, Debug, PartialEq, Eq, Structural)]
pub enum ProcessorState {
    /// Accepting spans.
    Running,
    /// No more spans; the worker is finishing the blocks it was given.
    Stopping,
    /// The worker is gone and the remaining output has been flushed.
    Stopped,
}

/// Errors of the processors.
#[derive(Clone, Copy, Debug, PartialEq, Eq, Structural)]
pub enum ProcessorError {
    /// The inference engine could not be constructed.
    EngineInitError,
    /// The worker could not be started.
    WorkerStartError,
    /// A span was submitted after `stop`.
    ProcessorStoppedError,
}

/// What one call of `denoise` hands back.
#[derive(Debug)]
pub struct ProcessingResult {
    /// Denoised samples that became ready since the previous call, in order.
    pub samples: Vec<i32>,
    /// The worker has fallen behind: more blocks wait for it than the
    /// configured threshold allows.
    pub processor_starved: bool,
}

/// The state of a `DeferredCore`, together with the history of the stream.
pub struct CoreView {
    pub config: ProcessorConfig,
    pub state: ProcessorState,
    /// Input not yet forming a full block.
    pub pending_input: Seq<i32>,
    /// Processed samples not yet handed to the caller.
    pub pending_output: Seq<i32>,
    /// Every sample accepted so far, in order.
    pub input: Seq<i32>,
    /// Every block handed to the worker, in order.
    pub sent: Seq<Seq<i32>>,
    /// Every block the worker handed back, in order.
    pub received: Seq<Seq<i32>>,
    /// Every sample handed to the caller, in order.
    pub returned: Seq<i32>,
    /// Number of real samples in the final, padded block, if one was sent.
    pub tail: Option<nat>,
}

impl CoreView {
    /// Blocks handed to the worker and not yet handed back.
    pub open spec fn in_flight(self) -> int {
        self.sent.len() - self.received.len()
    }

    /// More blocks wait for the worker than the threshold allows.
    pub open spec fn starved(self) -> bool {
        self.in_flight() > self.config.starvation_threshold
    }

    /// The silence that was appended to the final block.
    pub open spec fn padding(self) -> Seq<i32> {
        match self.tail {
            Some(n) => zeros((self.config.block_size - n) as nat),
            None => Seq::empty(),
        }
    }

    /// The processed samples received so far, without the part of the final
    /// block that stands for padding.
    pub open spec fn processed(self) -> Seq<i32> {
        let all = self.received.flatten();
        if self.tail is Some && self.received.len() == self.sent.len() {
            all.take(all.len() - self.padding().len())
        } else {
            all
        }
    }
}

/// The decisions of a deferred processor: reshaping spans into blocks for
/// the worker, ordering the worker's results, starvation and shutdown. The
/// worker itself and the hand-off to it are run by the caller of this type.
pub struct DeferredCore {
    config: ProcessorConfig,
    state: ProcessorState,
    acc: BlockAccumulator,
    in_flight: usize,
    tail: Option<usize>,
    input: Ghost<Seq<i32>>,
    sent: Ghost<Seq<Seq<i32>>>,
    received: Ghost<Seq<Seq<i32>>>,
    returned: Ghost<Seq<i32>>,
}

impl View for DeferredCore {
    type V = CoreView;

    closed spec fn view(&self) -> CoreView {
        CoreView {
            config: self.config,
            state: self.state,
            pending_input: self.acc@.input,
            pending_output: self.acc@.output,
            input: self.input@,
            sent: self.sent@,
            received: self.received@,
            returned: self.returned@,
            tail: match self.tail {
                Some(n) => Some(n as nat),
                None => None,
            },
        }
    }
}

impl DeferredCore {
    /// Blocks are full, the counts agree with the history, the history is
    /// consistent with what is pending, and padding only happens at the end.
    pub closed spec fn wf(&self) -> bool {
        let v = self@;
        let bs = self.config.block_size as nat;
        &&& self.config.valid()
        &&& self.acc.wf()
        &&& self.acc@.block_size == bs
        &&& v.received.len() <= v.sent.len()
        &&& self.in_flight == v.in_flight()
        &&& v.in_flight() + v.pending_input.len() <= usize::MAX
        &&& all_of_size(v.sent, bs)
        &&& all_of_size(v.received, bs)
        &&& v.sent.flatten() + v.pending_input == v.input + v.padding()
        &&& v.returned + v.pending_output == v.processed()
        &&& (v.tail matches Some(n) ==> 0 < n < bs && v.state != ProcessorState::Running)
        &&& (v.state != ProcessorState::Running ==> v.pending_input.len() == 0)
        &&& (v.state == ProcessorState::Stopped ==> v.in_flight() == 0)
    }

    /// A running processor that has seen nothing yet.
    pub fn new(config: ProcessorConfig) -> (r: DeferredCore)
        requires
            config.valid(),
        ensures
            r.wf(),
            r@.config == config,
            r@.state == ProcessorState::Running,
            r@.pending_input == Seq::<i32>::empty(),
            r@.pending_output == Seq::<i32>::empty(),
            r@.input == Seq::<i32>::empty(),
            r@.sent == Seq::<Seq<i32>>::empty(),
            r@.received == Seq::<Seq<i32>>::empty(),
            r@.returned == Seq::<i32>::empty(),
            r@.tail is None,
    {
        let r = DeferredCore {
            config,
            state: ProcessorState::Running,
            acc: BlockAccumulator::new(config.block_size),
            in_flight: 0,
            tail: None,
            input: Ghost(Seq::empty()),
            sent: Ghost(Seq::empty()),
            received: Ghost(Seq::empty()),
            returned: Ghost(Seq::empty()),
        };
        assert(r@.sent.flatten() == Seq::<i32>::empty());
        assert(r@.received.flatten() == Seq::<i32>::empty());
        r
    }

    /// Takes a span from the caller. While running, the span joins the
    /// pending input and every block that is now full is returned, oldest
    /// first, to be handed to the worker in that order. After `stop` the
    /// span is refused and nothing changes.
    pub fn accept_span(&mut self, span: &[i32]) -> (r: Result<Vec<Vec<i32>>, ProcessorError>)
        requires
            old(self).wf(),
            old(self)@.in_flight() + old(self)@.pending_input.len() + span@.len() <= usize::MAX,
        ensures
            final(self).wf(),
            old(self)@.state != ProcessorState::Running ==> r == Err::<Vec<Vec<i32>>, ProcessorError>(
                ProcessorError::ProcessorStoppedError,
            ) && final(self)@ == old(self)@,
            old(self)@.state == ProcessorState::Running ==> (r matches Ok(blocks) && {
                let new_blocks = blocks_view(blocks@);
                &&& all_of_size(new_blocks, old(self)@.config.block_size as nat)
                &&& blocks@.len() == (old(self)@.pending_input.len() + span@.len())
                    / old(self)@.config.block_size as nat
                &&& new_blocks.flatten() + final(self)@.pending_input == old(self)@.pending_input
                    + span@
                &&& final(self)@.pending_input.len() < old(self)@.config.block_size
                &&& final(self)@.sent == old(self)@.sent + new_blocks
                &&& final(self)@.input == old(self)@.input + span@
                &&& final(self)@.config == old(self)@.config
                &&& final(self)@.state == old(self)@.state
                &&& final(self)@.pending_output == old(self)@.pending_output
                &&& final(self)@.received == old(self)@.received
                &&& final(self)@.returned == old(self)@.returned
                &&& final(self)@.tail == old(self)@.tail
            }),
    {
        if self.state != ProcessorState::Running {
            return Err(ProcessorError::ProcessorStoppedError);
        }
        let ghost old_pending = self.acc@.input;
        let blocks = self.acc.push_input(span);
        let ghost new_blocks = blocks_view(blocks@);
        proof {
            self.acc.lemma_wf();
            lemma_flatten_concat(self.sent@, new_blocks);
            let a = self.sent@.flatten();
            let b = new_blocks.flatten();
            assert(self.input@ + self@.padding() =~= self.input@);
            assert(a + old_pending == self.input@);
            assert((a + b) + self.acc@.input =~= a + (b + self.acc@.input));
            assert(a + (old_pending + span@) =~= (a + old_pending) + span@);
            assert(all_of_size(self.sent@ + new_blocks, self.config.block_size as nat)) by {
                let all = self.sent@ + new_blocks;
                assert forall|k: int| 0 <= k < all.len() implies (#[trigger] all[k]).len()
                    == self.config.block_size by {
                    if k >= self.sent@.len() {
                        assert(all[k] == new_blocks[k - self.sent@.len()]);
                    }
                }
            }
            assert((self.sent@ + new_blocks).flatten() + self.acc@.input == self.input@ + span@);
        }
        self.in_flight = self.in_flight + blocks.len();
        self.sent = Ghost(self.sent@ + new_blocks);
        self.input = Ghost(self.input@ + span@);
        Ok(blocks)
    }

    /// Takes the next block that the worker handed back. When it is the
    /// final, padded block, only its real samples join the output.
    pub fn receive_block(&mut self, block: &[i32])
        requires
            old(self).wf(),
            old(self)@.state != ProcessorState::Stopped,
            old(self)@.in_flight() > 0,
            block@.len() == old(self)@.config.block_size,
        ensures
            final(self).wf(),
            final(self)@.received == old(self)@.received.push(block@),
            final(self)@.pending_output == old(self)@.pending_output + (match old(self)@.tail {
                Some(n) => if old(self)@.in_flight() == 1 {
                    block@.take(n as int)
                } else {
                    block@
                },
                None => block@,
            }),
            final(self)@.config == old(self)@.config,
            final(self)@.state == old(self)@.state,
            final(self)@.pending_input == old(self)@.pending_input,
            final(self)@.input == old(self)@.input,
            final(self)@.sent == old(self)@.sent,
            final(self)@.returned == old(self)@.returned,
            final(self)@.tail == old(self)@.tail,
    {
        let keep: usize = match self.tail {
            Some(n) => if self.in_flight == 1 {
                n
            } else {
                block.len()
            },
            None => block.len(),
        };
        let ghost old_received = self.received@;
        let ghost old_output = self.acc@.output;
        self.acc.push_output(block, keep);
        self.in_flight = self.in_flight - 1;
        self.received = Ghost(self.received@.push(block@));
        proof {
            old_received.lemma_flatten_push(block@);
            let all = self.received@.flatten();
            assert(all == old_received.flatten() + block@);
            assert(old_received.len() < self.sent@.len());
            if keep < block.len() {
                assert(all.take(all.len() - self@.padding().len()) =~= old_received.flatten()
                    + block@.take(keep as int));
            } else {
                assert(block@.take(keep as int) =~= block@);
            }
            assert(self.returned@ + (old_output + block@.take(keep as int)) =~= (self.returned@
                + old_output) + block@.take(keep as int));
            assert(all_of_size(self.received@, self.config.block_size as nat)) by {
                assert forall|k: int| 0 <= k < self.received@.len() implies (
                #[trigger] self.received@[k]).len() == self.config.block_size by {
                    if k < old_received.len() {
                        assert(self.received@[k] == old_received[k]);
                    }
                }
            }
        }
    }

    /// Hands the caller every processed sample that is ready, and says
    /// whether the worker has fallen behind.
    pub fn collect_result(&mut self) -> (r: ProcessingResult)
        requires
            old(self).wf(),
        ensures
            final(self).wf(),
            r.samples@ == old(self)@.pending_output,
            r.processor_starved == old(self)@.starved(),
            final(self)@.pending_output == Seq::<i32>::empty(),
            final(self)@.returned == old(self)@.returned + old(self)@.pending_output,
            final(self)@.config == old(self)@.config,
            final(self)@.state == old(self)@.state,
            final(self)@.pending_input == old(self)@.pending_input,
            final(self)@.input == old(self)@.input,
            final(self)@.sent == old(self)@.sent,
            final(self)@.received == old(self)@.received,
            final(self)@.tail == old(self)@.tail,
    {
        let samples = self.acc.take_output();
        self.returned = Ghost(self.returned@ + samples@);
        assert(self.returned@ + Seq::<i32>::empty() =~= self.returned@);
        ProcessingResult {
            samples,
            processor_starved: self.in_flight > self.config.starvation_threshold,
        }
    }

    /// First half of `stop`: no further span is accepted. A pending partial
    /// block is padded with silence to full length and returned, to be
    /// handed to the worker after every block before it. Once stopping has
    /// begun this does nothing and returns `None`.
    pub fn begin_stop(&mut self) -> (r: Option<Vec<i32>>)
        requires
            old(self).wf(),
        ensures
            final(self).wf(),
            old(self)@.state != ProcessorState::Running ==> r is None && final(self)@ == old(self)@,
            old(self)@.state == ProcessorState::Running ==> ({
                &&& final(self)@.state == ProcessorState::Stopping
                &&& final(self)@.pending_input == Seq::<i32>::empty()
                &&& (old(self)@.pending_input.len() == 0 <==> r is None)
                &&& (r is None ==> final(self)@.sent == old(self)@.sent && final(self)@.tail is None)
                &&& (r matches Some(block) ==> {
                    &&& block@ == old(self)@.pending_input + zeros(
                        (old(self)@.config.block_size - old(self)@.pending_input.len()) as nat,
                    )
                    &&& final(self)@.sent == old(self)@.sent.push(block@)
                    &&& final(self)@.tail == Some(old(self)@.pending_input.len())
                })
                &&& final(self)@.config == old(self)@.config
                &&& final(self)@.pending_output == old(self)@.pending_output
                &&& final(self)@.input == old(self)@.input
                &&& final(self)@.received == old(self)@.received
                &&& final(self)@.returned == old(self)@.returned
            }),
    {
        if self.state != ProcessorState::Running {
            return None;
        }
        self.state = ProcessorState::Stopping;
        let ghost old_pending = self.acc@.input;
        let ghost old_sent = self.sent@;
        proof {
            self.acc.lemma_wf();
        }
        match self.acc.take_padded_tail() {
            None => {
                assert(self.sent@.flatten() + self.acc@.input =~= self.sent@.flatten()
                    + old_pending);
                None
            },
            Some((block, n)) => {
                self.tail = Some(n);
                self.in_flight = self.in_flight + 1;
                self.sent = Ghost(self.sent@.push(block@));
                proof {
                    old_sent.lemma_flatten_push(block@);
                    assert(self.sent@.flatten() + self.acc@.input =~= (old_sent.flatten()
                        + old_pending) + self@.padding());
                    assert(all_of_size(self.sent@, self.config.block_size as nat)) by {
                        assert forall|k: int| 0 <= k < self.sent@.len() implies (
                        #[trigger] self.sent@[k]).len() == self.config.block_size by {
                            if k < old_sent.len() {
                                assert(self.sent@[k] == old_sent[k]);
                            }
                        }
                    }
                }
                Some(block)
            },
        }
    }

    /// Second half of `stop`, once the worker has handed back every block:
    /// the processor is stopped and the remaining output is returned. Once
    /// stopped this does nothing and returns no samples.
    pub fn finish_stop(&mut self) -> (r: Vec<i32>)
        requires
            old(self).wf(),
            old(self)@.state != ProcessorState::Running,
            old(self)@.state == ProcessorState::Stopping ==> old(self)@.in_flight() == 0,
        ensures
            final(self).wf(),
            final(self)@.state == ProcessorState::Stopped,
            old(self)@.state == ProcessorState::Stopped ==> r@ == Seq::<i32>::empty()
                && final(self)@ == old(self)@,
            old(self)@.state == ProcessorState::Stopping ==> ({
                &&& r@ == old(self)@.pending_output
                &&& final(self)@.pending_output == Seq::<i32>::empty()
                &&& final(self)@.returned == old(self)@.returned + old(self)@.pending_output
                &&& final(self)@.config == old(self)@.config
                &&& final(self)@.pending_input == old(self)@.pending_input
                &&& final(self)@.input == old(self)@.input
                &&& final(self)@.sent == old(self)@.sent
                &&& final(self)@.received == old(self)@.received
                &&& final(self)@.tail == old(self)@.tail
            }),
    {
        if self.state == ProcessorState::Stopped {
            return Vec::new();
        }
        self.state = ProcessorState::Stopped;
        let samples = self.acc.take_output();
        self.returned = Ghost(self.returned@ + samples@);
        assert(self.returned@ + Seq::<i32>::empty() =~= self.returned@);
        samples
    }

    /// At every point of the stream nothing is reordered, lost or
    /// duplicated. The blocks handed to the worker, followed
    /// by the pending input, are exactly the accepted input followed by the
    /// end-of-stream padding; and the samples handed to the caller, followed
    /// by those still queued, are exactly the worker's blocks in the order
    /// they came back, with the padding of the final block cut away.
    pub proof fn lemma_order_preserved(&self)
        requires
            self.wf(),
        ensures
            self@.sent.flatten() + self@.pending_input == self@.input + self@.padding(),
            self@.returned + self@.pending_output == self@.processed(),
            self@.received.len() <= self@.sent.len(),
    {
    }

    /// Every block ever handed to the worker holds exactly one block of
    /// samples, whatever the sizes of the spans were.
    pub proof fn lemma_block_size(&self)
        requires
            self.wf(),
        ensures
            all_of_size(self@.sent, self@.config.block_size as nat),
            all_of_size(self@.received, self@.config.block_size as nat),
    {
    }

    /// Once stopped, the caller has been handed, or can still collect,
    /// exactly as many samples as it submitted: the worker's output in
    /// order, cut to the input's length, so no padding leaks out.
    pub proof fn lemma_flush_exact(&self)
        requires
            self.wf(),
            self@.state == ProcessorState::Stopped,
        ensures
            self@.returned + self@.pending_output == self@.received.flatten().take(
                self@.input.len() as int,
            ),
            (self@.returned + self@.pending_output).len() == self@.input.len(),
    {
        let v = self@;
        let bs = v.config.block_size as nat;
        lemma_flatten_len(v.sent, bs);
        lemma_flatten_len(v.received, bs);
        assert(v.sent.flatten() + v.pending_input =~= v.sent.flatten());
        let all = v.received.flatten();
        if v.tail is None {
            assert(v.input + v.padding() =~= v.input);
            assert(all.take(v.input.len() as int) =~= all);
        }
    }

    /// Order is kept end to end. Suppose the worker hands back, for each
    /// block, what a stateful engine makes of that block and every block
    /// before it. Once stopped, the blocks handed to the worker are the whole
    /// input, padded with silence and cut into blocks; and the output is the
    /// engine's output on those blocks in order, cut back to the input's
    /// length.
    pub proof fn lemma_output_is_engine_run(&self, engine: spec_fn(Seq<Seq<i32>>) -> Seq<i32>)
        requires
            self.wf(),
            self@.state == ProcessorState::Stopped,
            forall|k: int|
                0 <= k < self@.received.len() ==> #[trigger] self@.received[k] == engine(
                    self@.sent.take(k + 1),
                ),
        ensures
            self@.sent == chunks(
                padded(self@.input, self@.config.block_size as nat),
                self@.config.block_size as nat,
            ),
            self@.returned + self@.pending_output == engine_output(
                chunks(
                    padded(self@.input, self@.config.block_size as nat),
                    self@.config.block_size as nat,
                ),
                engine,
            ).take(self@.input.len() as int),
    {
        let v = self@;
        let bs = v.config.block_size as nat;
        self.lemma_flush_exact();
        lemma_flatten_len(v.sent, bs);
        let k = v.sent.len() as int;
        let p = v.padding().len() as int;
        let x = v.input.len() as int;
        assert(v.sent.flatten() + v.pending_input =~= v.sent.flatten());
        assert(x + p == k * bs);
        if p == 0 {
            lemma_fundamental_div_mod_converse(x, bs as int, k, 0);
            lemma_mod_self_0(bs as int);
        } else {
            assert(k >= 1) by (nonlinear_arith)
                requires
                    x + p == k * bs,
                    p > 0,
                    x >= 0,
                    bs > 0,
            ;
            assert(x == (k - 1) * bs + (bs - p)) by (nonlinear_arith)
                requires
                    x + p == k * bs,
            ;
            lemma_fundamental_div_mod_converse(x, bs as int, k - 1, bs - p);
            lemma_small_mod(p as nat, bs);
        }
        assert(v.input + v.padding() =~= padded(v.input, bs));
        lemma_chunks_flatten(v.sent, bs);
        assert(v.received =~= Seq::new(v.sent.len(), |j: int| engine(v.sent.take(j + 1))));
    }
}

/// What the worker hands back over the blocks `sent`, in order, when for
/// each block it returns what `engine` makes of that block and all before it.
pub open spec fn engine_output(
    sent: Seq<Seq<i32>>,
    engine: spec_fn(Seq<Seq<i32>>) -> Seq<i32>,
) -> Seq<i32> {
    Seq::new(sent.len(), |k: int| engine(sent.take(k + 1))).flatten()
}

/// A starved processor stays starved across any calls in which the worker
/// hands back no block: submitting spans only adds blocks, and collecting
/// the output changes neither count. It clears only once enough blocks have
/// come back to bring the backlog within the threshold.
pub proof fn lemma_starvation_persists(before: CoreView, after: CoreView)
    requires
        before.starved(),
        after.config == before.config,
        after.received == before.received,
        before.sent.len() <= after.sent.len(),
    ensures
        after.starved(),
{
}

impl DeferredCore {

    /// The configuration this processor was made with.
    pub fn config(&self) -> (r: ProcessorConfig)
        ensures
            r == self@.config,
    {
        self.config
    }

    /// Where the processor stands in its life cycle.
    pub fn state(&self) -> (r: ProcessorState)
        ensures
            r == self@.state,
    {
        self.state
    }

    /// Blocks handed to the worker and not yet handed back.
    pub fn in_flight(&self) -> (r: usize)
        requires
            self.wf(),
        ensures
            r == self@.in_flight(),
    {
        self.in_flight
    }

    /// Input samples waiting for a block to fill.
    pub fn pending_input_len(&self) -> (r: usize)
        requires
            self.wf(),
        ensures
            r == self@.pending_input.len(),
    {
        self.acc.pending_input_len()
    }
}

} // verus!
