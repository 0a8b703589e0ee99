use vstd::arithmetic::div_mod::lemma_fundamental_div_mod_converse;
use vstd::prelude::*;

verus! {

/// The samples of each block, in order.
pub open spec fn blocks_view(blocks: Seq<Vec<i32>>) -> Seq<Seq<i32>> {
    blocks.map_values(|b: Vec<i32>| b@)
}

/// `n` samples of silence.
pub open spec fn zeros(n: nat) -> Seq<i32> {
    Seq::new(n, |i: int| 0i32)
}

/// Every sequence in `blocks` holds exactly `size` samples.
pub open spec fn all_of_size(blocks: Seq<Seq<i32>>, size: nat) -> bool {
    forall|k: int| 0 <= k < blocks.len() ==> (#[trigger] blocks[k]).len() == size
}

/// Blocks that all hold `size` samples flatten to `size` samples per block.
pub proof fn lemma_flatten_len(blocks: Seq<Seq<i32>>, size: nat)
    requires
        all_of_size(blocks, size),
    ensures
        blocks.flatten().len() == blocks.len() * size,
    decreases blocks.len(),
{
    if blocks.len() > 0 {
        let rest = blocks.drop_first();
        assert(all_of_size(rest, size)) by {
            assert forall|k: int| 0 <= k < rest.len() implies (#[trigger] rest[k]).len() == size by {
                assert(rest[k] == blocks[k + 1]);
            }
        }
        lemma_flatten_len(rest, size);
        assert(blocks.flatten() == blocks.first() + rest.flatten());
        assert(blocks.len() * size == size + rest.len() * size) by (nonlinear_arith)
            requires
                rest.len() == blocks.len() - 1,
        ;
    }
}

/// `s` followed by just enough silence to fill its last block.
pub open spec fn padded(s: Seq<i32>, size: nat) -> Seq<i32> {
    s + zeros(((size - s.len() % size) as int % (size as int)) as nat)
}

/// `s` cut into consecutive blocks of `size` samples; a shorter remainder
/// is left out.
pub open spec fn chunks(s: Seq<i32>, size: nat) -> Seq<Seq<i32>>
    decreases s.len(),
{
    if size == 0 || s.len() < size {
        Seq::empty()
    } else {
        seq![s.take(size as int)] + chunks(s.skip(size as int), size)
    }
}

/// Cutting the concatenation of full blocks gives the blocks back.
pub proof fn lemma_chunks_flatten(blocks: Seq<Seq<i32>>, size: nat)
    requires
        size > 0,
        all_of_size(blocks, size),
    ensures
        chunks(blocks.flatten(), size) == blocks,
    decreases blocks.len(),
{
    if blocks.len() == 0 {
        assert(chunks(blocks.flatten(), size) =~= blocks);
    } else {
        let rest = blocks.drop_first();
        assert(all_of_size(rest, size)) by {
            assert forall|k: int| 0 <= k < rest.len() implies (#[trigger] rest[k]).len() == size by {
                assert(rest[k] == blocks[k + 1]);
            }
        }
        lemma_chunks_flatten(rest, size);
        let flat = blocks.flatten();
        assert(flat == blocks[0] + rest.flatten());
        assert(flat.take(size as int) =~= blocks[0]);
        assert(flat.skip(size as int) =~= rest.flatten());
        assert(chunks(flat, size) =~= blocks);
    }
}

/// What a `BlockAccumulator` holds.
pub struct AccumulatorView {
    /// Samples per block.
    pub block_size: nat,
    /// Input not yet forming a full block, oldest first.
    pub input: Seq<i32>,
    /// Processed samples not yet handed back, oldest first.
    pub output: Seq<i32>,
}

/// Reshapes spans of any length into fixed-size blocks, and queues the
/// processed samples until they are collected.
pub struct BlockAccumulator {
    block_size: usize,
    pending_input: Vec<i32>,
    pending_output: Vec<i32>,
}

impl View for BlockAccumulator {
    type V = AccumulatorView;

    closed spec fn view(&self) -> AccumulatorView {
        AccumulatorView {
            block_size: self.block_size as nat,
            input: self.pending_input@,
            output: self.pending_output@,
        }
    }
}

impl BlockAccumulator {
    /// Blocks are non-empty and the pending input never holds a full block.
    pub closed spec fn wf(&self) -> bool {
        self.block_size > 0 && self.pending_input@.len() < self.block_size
    }

    /// The facts that `wf` gives about the view.
    pub proof fn lemma_wf(&self)
        requires
            self.wf(),
        ensures
            self@.block_size > 0,
            self@.input.len() < self@.block_size,
    {
    }

    /// An empty accumulator for blocks of `block_size` samples.
    pub fn new(block_size: usize) -> (r: BlockAccumulator)
        requires
            block_size > 0,
        ensures
            r.wf(),
            r@.block_size == block_size,
            r@.input == Seq::<i32>::empty(),
            r@.output == Seq::<i32>::empty(),
    {
        BlockAccumulator { block_size, pending_input: Vec::new(), pending_output: Vec::new() }
    }

    /// Samples per block.
    pub fn block_size(&self) -> (r: usize)
        ensures
            r == self@.block_size,
    {
        self.block_size
    }

    /// Appends `span` to the pending input and removes from its head every
    /// full block, in order. What stays is shorter than one block.
    pub fn push_input(&mut self, span: &[i32]) -> (blocks: Vec<Vec<i32>>)
        requires
            old(self).wf(),
        ensures
            final(self).wf(),
            final(self)@.block_size == old(self)@.block_size,
            final(self)@.output == old(self)@.output,
            all_of_size(blocks_view(blocks@), old(self)@.block_size),
            blocks_view(blocks@).flatten() + final(self)@.input == old(self)@.input + span@,
            blocks@.len() + final(self)@.input.len() <= old(self)@.input.len() + span@.len(),
            blocks@.len() == (old(self)@.input.len() + span@.len()) / old(self)@.block_size,
            final(self)@.input.len() == (old(self)@.input.len() + span@.len()) % old(self)@.block_size,
    {
        let ghost start = self.pending_input@;
        let mut blocks: Vec<Vec<i32>> = Vec::new();
        let mut i: usize = 0;
        assert(blocks@.len() * self.block_size == 0) by (nonlinear_arith)
            requires
                blocks@.len() == 0,
        ;
        while i < span.len()
            invariant
                self.wf(),
                self.block_size == old(self).block_size,
                self.pending_output == old(self).pending_output,
                start == old(self)@.input,
                0 <= i <= span@.len(),
                all_of_size(blocks_view(blocks@), self.block_size as nat),
                blocks_view(blocks@).flatten() + self.pending_input@ == start + span@.take(i as int),
                blocks@.len() * self.block_size + self.pending_input@.len() == start.len() + i,
            decreases span@.len() - i,
        {
            let ghost before = blocks_view(blocks@).flatten() + self.pending_input@;
            self.pending_input.push(span[i]);
            assert(span@.take(i + 1) == span@.take(i as int).push(span@[i as int]));
            assert(blocks_view(blocks@).flatten() + self.pending_input@ == before.push(span@[i as int]));
            if self.pending_input.len() == self.block_size {
                let mut full: Vec<i32> = Vec::new();
                std::mem::swap(&mut full, &mut self.pending_input);
                let ghost old_view = blocks_view(blocks@);
                let ghost k = blocks@.len();
                blocks.push(full);
                assert((k + 1) * self.block_size == k * self.block_size + self.block_size)
                    by (nonlinear_arith);
                assert(blocks_view(blocks@) == old_view.push(full@));
                proof {
                    old_view.lemma_flatten_push(full@);
                }
                assert(self.pending_input@ == Seq::<i32>::empty());
                assert(blocks_view(blocks@).flatten() + self.pending_input@ == old_view.flatten() + full@);
            }
            i = i + 1;
        }
        assert(span@.take(span@.len() as int) == span@);
        proof {
            lemma_fundamental_div_mod_converse(
                (start.len() + span@.len()) as int,
                self.block_size as int,
                blocks@.len() as int,
                self.pending_input@.len() as int,
            );
        }
        assert(blocks@.len() <= blocks@.len() * self.block_size) by (nonlinear_arith)
            requires
                self.block_size >= 1,
        ;
        blocks
    }

    /// Appends the first `keep` samples of a processed block to the output.
    pub fn push_output(&mut self, block: &[i32], keep: usize)
        requires
            old(self).wf(),
            keep <= block@.len(),
        ensures
            final(self).wf(),
            final(self)@.block_size == old(self)@.block_size,
            final(self)@.input == old(self)@.input,
            final(self)@.output == old(self)@.output + block@.take(keep as int),
    {
        let mut i: usize = 0;
        while i < keep
            invariant
                self.wf(),
                self.block_size == old(self).block_size,
                self.pending_input == old(self).pending_input,
                0 <= i <= keep <= block@.len(),
                self.pending_output@ == old(self)@.output + block@.take(i as int),
            decreases keep - i,
        {
            self.pending_output.push(block[i]);
            assert(block@.take(i + 1) == block@.take(i as int).push(block@[i as int]));
            i = i + 1;
        }
    }

    /// Removes and returns every queued output sample, oldest first.
    pub fn take_output(&mut self) -> (r: Vec<i32>)
        requires
            old(self).wf(),
        ensures
            final(self).wf(),
            final(self)@.block_size == old(self)@.block_size,
            final(self)@.input == old(self)@.input,
            final(self)@.output == Seq::<i32>::empty(),
            r@ == old(self)@.output,
    {
        let mut r: Vec<i32> = Vec::new();
        std::mem::swap(&mut r, &mut self.pending_output);
        r
    }

    /// At end of stream: removes the pending input and, when there was any,
    /// returns it padded with silence to one full block, together with the
    /// number of real samples at its head.
    pub fn take_padded_tail(&mut self) -> (r: Option<(Vec<i32>, usize)>)
        requires
            old(self).wf(),
        ensures
            final(self).wf(),
            final(self)@.block_size == old(self)@.block_size,
            final(self)@.output == old(self)@.output,
            final(self)@.input == Seq::<i32>::empty(),
            old(self)@.input.len() == 0 <==> r is None,
            r matches Some((block, n)) ==> n == old(self)@.input.len() && block@ == old(self)@.input
                + zeros((old(self)@.block_size - n) as nat),
    {
        let n = self.pending_input.len();
        if n == 0 {
            return None;
        }
        let mut block: Vec<i32> = Vec::new();
        std::mem::swap(&mut block, &mut self.pending_input);
        let mut i: usize = n;
        while i < self.block_size
            invariant
                self.wf(),
                n == old(self)@.input.len(),
                self.block_size == old(self).block_size,
                self.pending_output == old(self).pending_output,
                self.pending_input@ == Seq::<i32>::empty(),
                n <= i <= self.block_size,
                block@ == old(self)@.input + zeros((i - n) as nat),
            decreases self.block_size - i,
        {
            block.push(0);
            assert(zeros((i + 1 - n) as nat) == zeros((i - n) as nat).push(0i32));
            i = i + 1;
        }
        Some((block, n))
    }

    /// Number of input samples waiting for a block to fill.
    pub fn pending_input_len(&self) -> (r: usize)
        ensures
            r == self@.input.len(),
    {
        self.pending_input.len()
    }

    /// Number of processed samples waiting to be collected.
    pub fn pending_output_len(&self) -> (r: usize)
        ensures
            r == self@.output.len(),
    {
        self.pending_output.len()
    }
}

} // verus!
