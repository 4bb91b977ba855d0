//! Bookkeeping for executing one input file's conversions.
//!
//! A [`FileRun`] groups the planned outputs of one input file into sample-rate
//! branches and, inside them, bit-depth branches, so that resampling and
//! requantization work is shared: one resampler per distinct target rate, one
//! bit-depth conversion per distinct (rate, depth) pair.  Each output owns a
//! writer slot that is resolved exactly once — with a success, a failure, or
//! by the cleanup pass — and a ghost log witnesses that every planned output
//! receives exactly one terminal result.

use vstd::prelude::*;
use crate::types::{BitDepth, Format, SampleRate};
use crate::plan::{InfilePlan, OutFile};
use crate::pathutil::{spec_has_extension, spec_tmp_name, tmp_name_for};
use crate::outside::random_u16;

verus! {

/// Why one planned output did not complete.
#[derive(Debug, Clone)]
pub enum ConvertError {
    /// The run was cancelled before this output resolved.
    Cancelled,
    /// Reading the input file failed, with the reader's message.
    Read(String),
    /// Writing samples to this output failed.
    Write(String),
    /// Closing this output's container failed.
    Finalize(String),
    /// Moving the finished temporary file onto its final path failed.
    Rename(String),
}

/// The terminal outcome of one planned output.
#[derive(Debug, Clone)]
pub struct ConvertResult {
    pub in_path: String,
    pub out_path: String,
    pub format: Format,
    /// `None` on success.
    pub error: Option<ConvertError>,
}

/// A request to a running execution.
pub enum Request {
    Cancel,
}

/// What an execution run reports back to its caller.
#[derive(Debug)]
pub enum Response {
    NextResult(ConvertResult),
    Done,
    Cancelled,
}

/// The terminal response of a whole run: `Cancelled` exactly when the
/// cancellation flag was observed set, `Done` otherwise.
pub fn terminal_response(cancelled: bool) -> (r: Response)
    ensures
        cancelled ==> r is Cancelled,
        !cancelled ==> r is Done,
{
    if cancelled {
        Response::Cancelled
    } else {
        Response::Done
    }
}

/// Where one rate branch stands in the streaming loop: still receiving
/// chunks, or past the drain of its resampler's latency.
#[derive(Clone, Copy, Debug, PartialEq, Eq, Structural)]
pub enum BranchPhase {
    Streaming,
    Finished,
}

/// What the streaming loop does with one rate branch for one decoded chunk.
#[derive(Clone, Copy, Debug, PartialEq, Eq, Structural)]
pub enum BranchAction {
    /// Resampled samples flow on to the branch's bit-depth stages and
    /// writers.
    Deliver,
    /// End of input: drain the resampler's latency, hand the empty buffer on
    /// so the writers finalize, and finish the branch.
    Drain,
    /// Nothing flows this round — the branch is already finished, or the
    /// resampler transiently produced zero frames, which does not end the
    /// branch.
    Skip,
}

/// Decides one streaming step for one rate branch (spec §4.2, steps 3–5):
/// samples are delivered only while the branch still streams, the drain
/// happens exactly once — on the first empty chunk, moving the branch to
/// `Finished` — and a zero-frame resample skips the round without ending the
/// branch.
pub fn branch_step(phase: BranchPhase, chunk_empty: bool, resampled_empty: bool) -> (r: (
    BranchAction,
    BranchPhase,
))
    ensures
        phase is Finished ==> r == (BranchAction::Skip, BranchPhase::Finished),
        phase is Streaming && chunk_empty ==> r == (BranchAction::Drain, BranchPhase::Finished),
        phase is Streaming && !chunk_empty && resampled_empty ==> r == (
            BranchAction::Skip,
            BranchPhase::Streaming,
        ),
        phase is Streaming && !chunk_empty && !resampled_empty ==> r == (
            BranchAction::Deliver,
            BranchPhase::Streaming,
        ),
{
    match phase {
        BranchPhase::Finished => (BranchAction::Skip, BranchPhase::Finished),
        BranchPhase::Streaming => {
            if chunk_empty {
                (BranchAction::Drain, BranchPhase::Finished)
            } else if resampled_empty {
                (BranchAction::Skip, BranchPhase::Streaming)
            } else {
                (BranchAction::Deliver, BranchPhase::Streaming)
            }
        },
    }
}

/// One planned output's writer slot.  `resolved` is the tombstone: it is set
/// exactly when the output has received its terminal result, and nothing
/// touches the slot afterwards.
#[derive(Debug)]
pub struct WriterSlot {
    pub outfile_index: usize,
    pub out_path: String,
    pub tmp_path: String,
    pub format: Format,
    pub resolved: bool,
}

/// The outputs of one (sample rate, bit depth) combination.
#[derive(Debug)]
pub struct DepthBranch {
    pub bit_depth: BitDepth,
    pub slots: Vec<WriterSlot>,
}

/// The outputs of one target sample rate, split by bit depth.
#[derive(Debug)]
pub struct RateBranch {
    pub sample_rate: SampleRate,
    pub depths: Vec<DepthBranch>,
}

/// The conversion state of one input file.
pub struct FileRun {
    pub infile: String,
    pub outfiles: Vec<OutFile>,
    pub branches: Vec<RateBranch>,
    /// Ghost log of the outfile indices whose slots have been resolved, in
    /// resolution order.
    pub resolved_order: Ghost<Seq<int>>,
}

/// 1 if this slot belongs to outfile `i`.
pub open spec fn slot_here(s: WriterSlot, i: int) -> nat {
    if s.outfile_index == i {
        1
    } else {
        0
    }
}

/// 1 if this slot belongs to outfile `i` and is still unresolved.
pub open spec fn slot_live(s: WriterSlot, i: int) -> nat {
    if s.outfile_index == i && !s.resolved {
        1
    } else {
        0
    }
}

/// How many slots of this sequence belong to outfile `i`.
pub open spec fn count_slots(ss: Seq<WriterSlot>, i: int) -> nat
    decreases ss.len(),
{
    if ss.len() == 0 {
        0
    } else {
        count_slots(ss.drop_last(), i) + slot_here(ss.last(), i)
    }
}

/// How many unresolved slots of this sequence belong to outfile `i`.
pub open spec fn live_slots(ss: Seq<WriterSlot>, i: int) -> nat
    decreases ss.len(),
{
    if ss.len() == 0 {
        0
    } else {
        live_slots(ss.drop_last(), i) + slot_live(ss.last(), i)
    }
}

/// How many slots under these depth branches belong to outfile `i`.
pub open spec fn count_depths(ds: Seq<DepthBranch>, i: int) -> nat
    decreases ds.len(),
{
    if ds.len() == 0 {
        0
    } else {
        count_depths(ds.drop_last(), i) + count_slots(ds.last().slots@, i)
    }
}

/// How many unresolved slots under these depth branches belong to `i`.
pub open spec fn live_depths(ds: Seq<DepthBranch>, i: int) -> nat
    decreases ds.len(),
{
    if ds.len() == 0 {
        0
    } else {
        live_depths(ds.drop_last(), i) + live_slots(ds.last().slots@, i)
    }
}

/// How many slots under these rate branches belong to outfile `i`.
pub open spec fn count_rates(bs: Seq<RateBranch>, i: int) -> nat
    decreases bs.len(),
{
    if bs.len() == 0 {
        0
    } else {
        count_rates(bs.drop_last(), i) + count_depths(bs.last().depths@, i)
    }
}

/// How many unresolved slots under these rate branches belong to `i`.
pub open spec fn live_rates(bs: Seq<RateBranch>, i: int) -> nat
    decreases bs.len(),
{
    if bs.len() == 0 {
        0
    } else {
        live_rates(bs.drop_last(), i) + live_depths(bs.last().depths@, i)
    }
}

/// How many entries of the resolution log equal `i`.
pub open spec fn count_order(o: Seq<int>, i: int) -> nat
    decreases o.len(),
{
    if o.len() == 0 {
        0
    } else {
        count_order(o.drop_last(), i) + if o.last() == i {
            1nat
        } else {
            0nat
        }
    }
}

proof fn lemma_order_push(o: Seq<int>, x: int, i: int)
    ensures
        count_order(o.push(x), i) == count_order(o, i) + if x == i {
            1nat
        } else {
            0nat
        },
{
    assert(o.push(x).drop_last() =~= o);
}

proof fn lemma_slots_push(ss: Seq<WriterSlot>, x: WriterSlot, i: int)
    ensures
        count_slots(ss.push(x), i) == count_slots(ss, i) + slot_here(x, i),
        live_slots(ss.push(x), i) == live_slots(ss, i) + slot_live(x, i),
{
    assert(ss.push(x).drop_last() =~= ss);
}

proof fn lemma_depths_push(ds: Seq<DepthBranch>, x: DepthBranch, i: int)
    ensures
        count_depths(ds.push(x), i) == count_depths(ds, i) + count_slots(x.slots@, i),
        live_depths(ds.push(x), i) == live_depths(ds, i) + live_slots(x.slots@, i),
{
    assert(ds.push(x).drop_last() =~= ds);
}

proof fn lemma_rates_push(bs: Seq<RateBranch>, x: RateBranch, i: int)
    ensures
        count_rates(bs.push(x), i) == count_rates(bs, i) + count_depths(x.depths@, i),
        live_rates(bs.push(x), i) == live_rates(bs, i) + live_depths(x.depths@, i),
{
    assert(bs.push(x).drop_last() =~= bs);
}

proof fn lemma_slots_update(ss: Seq<WriterSlot>, k: int, x: WriterSlot, i: int)
    requires
        0 <= k < ss.len(),
    ensures
        count_slots(ss.update(k, x), i) as int == count_slots(ss, i) as int - slot_here(ss[k], i)
            + slot_here(x, i),
        live_slots(ss.update(k, x), i) as int == live_slots(ss, i) as int - slot_live(ss[k], i)
            + slot_live(x, i),
    decreases ss.len(),
{
    let t = ss.update(k, x);
    if k == ss.len() - 1 {
        assert(t.drop_last() =~= ss.drop_last());
        assert(t.last() == x);
    } else {
        assert(t.drop_last() =~= ss.drop_last().update(k, x));
        assert(t.last() == ss.last());
        assert(ss.drop_last()[k] == ss[k]);
        lemma_slots_update(ss.drop_last(), k, x, i);
    }
}

proof fn lemma_depths_update(ds: Seq<DepthBranch>, k: int, x: DepthBranch, i: int)
    requires
        0 <= k < ds.len(),
    ensures
        count_depths(ds.update(k, x), i) as int == count_depths(ds, i) as int - count_slots(
            ds[k].slots@,
            i,
        ) + count_slots(x.slots@, i),
        live_depths(ds.update(k, x), i) as int == live_depths(ds, i) as int - live_slots(
            ds[k].slots@,
            i,
        ) + live_slots(x.slots@, i),
    decreases ds.len(),
{
    let t = ds.update(k, x);
    if k == ds.len() - 1 {
        assert(t.drop_last() =~= ds.drop_last());
        assert(t.last() == x);
    } else {
        assert(t.drop_last() =~= ds.drop_last().update(k, x));
        assert(t.last() == ds.last());
        assert(ds.drop_last()[k] == ds[k]);
        lemma_depths_update(ds.drop_last(), k, x, i);
    }
}

proof fn lemma_rates_update(bs: Seq<RateBranch>, k: int, x: RateBranch, i: int)
    requires
        0 <= k < bs.len(),
    ensures
        count_rates(bs.update(k, x), i) as int == count_rates(bs, i) as int - count_depths(
            bs[k].depths@,
            i,
        ) + count_depths(x.depths@, i),
        live_rates(bs.update(k, x), i) as int == live_rates(bs, i) as int - live_depths(
            bs[k].depths@,
            i,
        ) + live_depths(x.depths@, i),
    decreases bs.len(),
{
    let t = bs.update(k, x);
    if k == bs.len() - 1 {
        assert(t.drop_last() =~= bs.drop_last());
        assert(t.last() == x);
    } else {
        assert(t.drop_last() =~= bs.drop_last().update(k, x));
        assert(t.last() == bs.last());
        assert(bs.drop_last()[k] == bs[k]);
        lemma_rates_update(bs.drop_last(), k, x, i);
    }
}

proof fn lemma_slots_lower(ss: Seq<WriterSlot>, k: int, i: int)
    requires
        0 <= k < ss.len(),
    ensures
        count_slots(ss, i) >= slot_here(ss[k], i),
        live_slots(ss, i) >= slot_live(ss[k], i),
    decreases ss.len(),
{
    if k < ss.len() - 1 {
        assert(ss.drop_last()[k] == ss[k]);
        lemma_slots_lower(ss.drop_last(), k, i);
    }
}

proof fn lemma_depths_lower(ds: Seq<DepthBranch>, k: int, i: int)
    requires
        0 <= k < ds.len(),
    ensures
        count_depths(ds, i) >= count_slots(ds[k].slots@, i),
        live_depths(ds, i) >= live_slots(ds[k].slots@, i),
    decreases ds.len(),
{
    if k < ds.len() - 1 {
        assert(ds.drop_last()[k] == ds[k]);
        lemma_depths_lower(ds.drop_last(), k, i);
    }
}

proof fn lemma_rates_lower(bs: Seq<RateBranch>, k: int, i: int)
    requires
        0 <= k < bs.len(),
    ensures
        count_rates(bs, i) >= count_depths(bs[k].depths@, i),
        live_rates(bs, i) >= live_depths(bs[k].depths@, i),
    decreases bs.len(),
{
    if k < bs.len() - 1 {
        assert(bs.drop_last()[k] == bs[k]);
        lemma_rates_lower(bs.drop_last(), k, i);
    }
}

proof fn lemma_all_resolved_slots(ss: Seq<WriterSlot>, i: int)
    requires
        forall|s: int| 0 <= s < ss.len() ==> (#[trigger] ss[s]).resolved,
    ensures
        live_slots(ss, i) == 0,
    decreases ss.len(),
{
    if ss.len() > 0 {
        assert(forall|s: int| 0 <= s < ss.len() - 1 ==> #[trigger] ss.drop_last()[s] == ss[s]);
        lemma_all_resolved_slots(ss.drop_last(), i);
    }
}

proof fn lemma_all_resolved_depths(ds: Seq<DepthBranch>, i: int)
    requires
        forall|d: int, s: int|
            0 <= d < ds.len() && 0 <= s < ds[d].slots@.len() ==> (#[trigger] ds[d].slots@[s]).resolved,
    ensures
        live_depths(ds, i) == 0,
    decreases ds.len(),
{
    if ds.len() > 0 {
        assert(forall|d: int| 0 <= d < ds.len() - 1 ==> #[trigger] ds.drop_last()[d] == ds[d]);
        lemma_all_resolved_depths(ds.drop_last(), i);
        lemma_all_resolved_slots(ds.last().slots@, i);
    }
}

proof fn lemma_all_resolved_rates(bs: Seq<RateBranch>, i: int)
    requires
        forall|b: int, d: int, s: int|
            0 <= b < bs.len() && 0 <= d < bs[b].depths@.len() && 0 <= s
                < bs[b].depths@[d].slots@.len() ==> (#[trigger] bs[b].depths@[d].slots@[s]).resolved,
    ensures
        live_rates(bs, i) == 0,
    decreases bs.len(),
{
    if bs.len() > 0 {
        assert(forall|b: int| 0 <= b < bs.len() - 1 ==> #[trigger] bs.drop_last()[b] == bs[b]);
        lemma_all_resolved_rates(bs.drop_last(), i);
        lemma_all_resolved_depths(bs.last().depths@, i);
    }
}

/// A slot correctly describes the planned outfile it stands for, sits under
/// the right (rate, depth) branch, and its temporary path is the outfile's
/// path with some random suffix.
pub open spec fn slot_ok(
    outfiles: Seq<OutFile>,
    s: WriterSlot,
    rate: SampleRate,
    depth: BitDepth,
) -> bool {
    &&& s.outfile_index < outfiles.len()
    &&& outfiles[s.outfile_index as int].format.sample_rate == rate
    &&& outfiles[s.outfile_index as int].format.bit_depth == depth
    &&& s.out_path@ == outfiles[s.outfile_index as int].path@
    &&& s.format == outfiles[s.outfile_index as int].format
    &&& exists|x: int| 0 <= x < 0x10000 && s.tmp_path@ == spec_tmp_name(s.out_path@, x)
}

/// A nonempty depth branch whose slots all belong to it.
pub open spec fn depth_wf(outfiles: Seq<OutFile>, rate: SampleRate, db: DepthBranch) -> bool {
    &&& db.slots@.len() >= 1
    &&& forall|s: int|
        0 <= s < db.slots@.len() ==> slot_ok(outfiles, #[trigger] db.slots@[s], rate, db.bit_depth)
}

/// A nonempty rate branch with one depth branch per distinct bit depth.
pub open spec fn rate_wf(outfiles: Seq<OutFile>, rb: RateBranch) -> bool {
    &&& rb.depths@.len() >= 1
    &&& forall|d: int|
        0 <= d < rb.depths@.len() ==> depth_wf(outfiles, rb.sample_rate, #[trigger] rb.depths@[d])
    &&& forall|d1: int, d2: int|
        0 <= d1 < d2 < rb.depths@.len() ==> (#[trigger] rb.depths@[d1]).bit_depth != (
        #[trigger] rb.depths@[d2]).bit_depth
}

/// One rate branch per distinct target sample rate, each well formed: the
/// sharing invariant — resampling and requantization work exists once per
/// distinct rate and per distinct (rate, depth) pair.
pub open spec fn branches_wf(outfiles: Seq<OutFile>, bs: Seq<RateBranch>) -> bool {
    &&& forall|b: int| 0 <= b < bs.len() ==> rate_wf(outfiles, #[trigger] bs[b])
    &&& forall|b1: int, b2: int|
        0 <= b1 < b2 < bs.len() ==> (#[trigger] bs[b1]).sample_rate != (
        #[trigger] bs[b2]).sample_rate
}

impl FileRun {
    /// Number of planned outputs.
    pub open spec fn n(self) -> int {
        self.outfiles@.len() as int
    }

    /// The run's invariant: branches are well formed and deduplicated, every
    /// planned output has exactly one slot, and each output is either still
    /// live in its slot or appears exactly once in the resolution log —
    /// never both, never neither.
    pub open spec fn wf(self) -> bool {
        &&& branches_wf(self.outfiles@, self.branches@)
        &&& forall|i: int| 0 <= i < self.n() ==> count_rates(self.branches@, i) == 1
        &&& forall|i: int|
            0 <= i < self.n() ==> live_rates(self.branches@, i) + count_order(
                self.resolved_order@,
                i,
            ) == 1
        &&& forall|k: int|
            0 <= k < self.resolved_order@.len() ==> 0 <= #[trigger] self.resolved_order@[k]
                < self.n()
    }

    /// Builds the run for one input file's plan: groups the planned outputs
    /// by target sample rate, then by target bit depth, opening one writer
    /// slot per output with a fresh temporary path beside the final one.
    pub fn new(plan: &InfilePlan) -> (r: FileRun)
        requires
            forall|i: int|
                0 <= i < plan.outfiles@.len() ==> spec_has_extension(
                    (#[trigger] plan.outfiles@[i]).path@,
                ),
        ensures
            r.wf(),
            r.infile@ == plan.infile@,
            r.outfiles@ == plan.outfiles@,
            r.resolved_order@ == Seq::<int>::empty(),
            forall|i: int| 0 <= i < r.n() ==> live_rates(r.branches@, i) == 1,
    {
        let n = plan.outfiles.len();
        let mut outfiles: Vec<OutFile> = Vec::new();
        let mut i: usize = 0;
        while i < n
            invariant
                i <= n,
                n == plan.outfiles@.len(),
                outfiles@.len() == i,
                forall|j: int| 0 <= j < i ==> outfiles@[j] == plan.outfiles@[j],
            decreases n - i,
        {
            let p = plan.outfiles[i].path.clone();
            let f = plan.outfiles[i].format;
            outfiles.push(OutFile { path: p, format: f });
            i = i + 1;
        }
        proof {
            assert(outfiles@ =~= plan.outfiles@);
        }
        let mut branches: Vec<RateBranch> = Vec::new();
        let mut idx: usize = 0;
        while idx < n
            invariant
                idx <= n,
                n == plan.outfiles@.len(),
                branches_wf(plan.outfiles@, branches@),
                forall|i2: int|
                    0 <= i2 < idx ==> count_rates(branches@, i2) == 1 && live_rates(branches@, i2)
                        == 1,
                forall|i2: int|
                    idx <= i2 < n ==> count_rates(branches@, i2) == 0 && live_rates(branches@, i2)
                        == 0,
                forall|i2: int|
                    0 <= i2 < plan.outfiles@.len() ==> spec_has_extension(
                        (#[trigger] plan.outfiles@[i2]).path@,
                    ),
            decreases n - idx,
        {
            let rate = plan.outfiles[idx].format.sample_rate;
            let depth = plan.outfiles[idx].format.bit_depth;
            let suffix = random_u16();
            let tmp = tmp_name_for(plan.outfiles[idx].path.as_str(), suffix);
            let slot = WriterSlot {
                outfile_index: idx,
                out_path: plan.outfiles[idx].path.clone(),
                tmp_path: tmp,
                format: plan.outfiles[idx].format,
                resolved: false,
            };
            let ghost slotg = slot;
            proof {
                assert(slot_ok(plan.outfiles@, slotg, rate, depth));
            }
            let mut b: usize = 0;
            let nb = branches.len();
            while b < nb && branches[b].sample_rate != rate
                invariant
                    b <= nb,
                    nb == branches@.len(),
                    forall|b2: int| 0 <= b2 < b ==> (#[trigger] branches@[b2]).sample_rate != rate,
                decreases nb - b,
            {
                b = b + 1;
            }
            let ghost bs0 = branches@;
            if b == nb {
                let db = DepthBranch { bit_depth: depth, slots: vec![slot] };
                let ghost dbg = db;
                let rb = RateBranch { sample_rate: rate, depths: vec![db] };
                let ghost rbg = rb;
                branches.push(rb);
                proof {
                    assert(dbg.slots@ =~= Seq::<WriterSlot>::empty().push(slotg));
                    assert(rbg.depths@ =~= Seq::<DepthBranch>::empty().push(dbg));
                    assert forall|i2: int| 0 <= i2 < n implies {
                        &&& count_rates(branches@, i2) as int == count_rates(bs0, i2) as int + (
                        if i2 == idx {
                            1int
                        } else {
                            0int
                        })
                        &&& live_rates(branches@, i2) as int == live_rates(bs0, i2) as int + (
                        if i2 == idx {
                            1int
                        } else {
                            0int
                        })
                    } by {
                        lemma_rates_push(bs0, rbg, i2);
                        lemma_depths_push(Seq::<DepthBranch>::empty(), dbg, i2);
                        lemma_slots_push(Seq::<WriterSlot>::empty(), slotg, i2);
                    }
                    assert forall|b2: int| 0 <= b2 < branches@.len() implies rate_wf(
                        plan.outfiles@,
                        #[trigger] branches@[b2],
                    ) by {
                        if b2 < bs0.len() {
                            assert(branches@[b2] == bs0[b2]);
                        } else {
                            assert(branches@[b2] == rbg);
                            assert forall|d2: int| 0 <= d2 < rbg.depths@.len() implies depth_wf(
                                plan.outfiles@,
                                rbg.sample_rate,
                                #[trigger] rbg.depths@[d2],
                            ) by {
                                assert(rbg.depths@[d2] == dbg);
                                assert forall|s2: int| 0 <= s2 < dbg.slots@.len() implies slot_ok(
                                    plan.outfiles@,
                                    #[trigger] dbg.slots@[s2],
                                    rate,
                                    dbg.bit_depth,
                                ) by {
                                    assert(dbg.slots@[s2] == slotg);
                                }
                            }
                        }
                    }
                }
            } else {
                let nd = branches[b].depths.len();
                let mut d: usize = 0;
                while d < nd && branches[b].depths[d].bit_depth != depth
                    invariant
                        d <= nd,
                        b < branches@.len(),
                        nd == branches@[b as int].depths@.len(),
                        forall|d2: int|
                            0 <= d2 < d ==> (#[trigger] branches@[b as int].depths@[d2]).bit_depth
                                != depth,
                    decreases nd - d,
                {
                    d = d + 1;
                }
                if d == nd {
                    let db = DepthBranch { bit_depth: depth, slots: vec![slot] };
                    let ghost dbg = db;
                    branches[b].depths.push(db);
                    proof {
                        assert(dbg.slots@ =~= Seq::<WriterSlot>::empty().push(slotg));
                        assert(branches@[b as int].depths@ =~= bs0[b as int].depths@.push(dbg));
                        assert forall|i2: int| 0 <= i2 < n implies {
                            &&& count_rates(branches@, i2) as int == count_rates(bs0, i2) as int + (
                            if i2 == idx {
                                1int
                            } else {
                                0int
                            })
                            &&& live_rates(branches@, i2) as int == live_rates(bs0, i2) as int + (
                            if i2 == idx {
                                1int
                            } else {
                                0int
                            })
                        } by {
                            assert(branches@ =~= bs0.update(b as int, branches@[b as int]));
                            lemma_rates_update(bs0, b as int, branches@[b as int], i2);
                            lemma_depths_push(bs0[b as int].depths@, dbg, i2);
                            lemma_slots_push(Seq::<WriterSlot>::empty(), slotg, i2);
                        }
                        assert forall|b2: int| 0 <= b2 < branches@.len() implies rate_wf(
                            plan.outfiles@,
                            #[trigger] branches@[b2],
                        ) by {
                            if b2 != b as int {
                                assert(branches@[b2] == bs0[b2]);
                            } else {
                                let rb2 = branches@[b2];
                                assert(rb2.sample_rate == rate);
                                assert forall|d2: int| 0 <= d2 < rb2.depths@.len() implies depth_wf(
                                    plan.outfiles@,
                                    rb2.sample_rate,
                                    #[trigger] rb2.depths@[d2],
                                ) by {
                                    if d2 < bs0[b2].depths@.len() {
                                        assert(rb2.depths@[d2] == bs0[b2].depths@[d2]);
                                    } else {
                                        assert(rb2.depths@[d2] == dbg);
                                        assert forall|s2: int|
                                            0 <= s2 < dbg.slots@.len() implies slot_ok(
                                            plan.outfiles@,
                                            #[trigger] dbg.slots@[s2],
                                            rate,
                                            dbg.bit_depth,
                                        ) by {
                                            assert(dbg.slots@[s2] == slotg);
                                        }
                                    }
                                }
                            }
                        }
                    }
                } else {
                    let ghost db0 = branches@[b as int].depths@[d as int];
                    branches[b].depths[d].slots.push(slot);
                    proof {
                        assert(branches@[b as int].depths@[d as int].slots@ =~= db0.slots@.push(
                            slotg,
                        ));
                        assert forall|i2: int| 0 <= i2 < n implies {
                            &&& count_rates(branches@, i2) as int == count_rates(bs0, i2) as int + (
                            if i2 == idx {
                                1int
                            } else {
                                0int
                            })
                            &&& live_rates(branches@, i2) as int == live_rates(bs0, i2) as int + (
                            if i2 == idx {
                                1int
                            } else {
                                0int
                            })
                        } by {
                            assert(branches@ =~= bs0.update(b as int, branches@[b as int]));
                            assert(branches@[b as int].depths@ =~= bs0[b as int].depths@.update(
                                d as int,
                                branches@[b as int].depths@[d as int],
                            ));
                            lemma_rates_update(bs0, b as int, branches@[b as int], i2);
                            lemma_depths_update(
                                bs0[b as int].depths@,
                                d as int,
                                branches@[b as int].depths@[d as int],
                                i2,
                            );
                            lemma_slots_push(db0.slots@, slotg, i2);
                        }
                        assert forall|b2: int| 0 <= b2 < branches@.len() implies rate_wf(
                            plan.outfiles@,
                            #[trigger] branches@[b2],
                        ) by {
                            if b2 != b as int {
                                assert(branches@[b2] == bs0[b2]);
                            } else {
                                let rb2 = branches@[b2];
                                assert(rb2.sample_rate == rate);
                                assert forall|d2: int| 0 <= d2 < rb2.depths@.len() implies depth_wf(
                                    plan.outfiles@,
                                    rb2.sample_rate,
                                    #[trigger] rb2.depths@[d2],
                                ) by {
                                    if d2 != d as int {
                                        assert(rb2.depths@[d2] == bs0[b2].depths@[d2]);
                                    } else {
                                        let db2 = rb2.depths@[d2];
                                        assert(db2.bit_depth == depth);
                                        assert forall|s2: int|
                                            0 <= s2 < db2.slots@.len() implies slot_ok(
                                            plan.outfiles@,
                                            #[trigger] db2.slots@[s2],
                                            rate,
                                            db2.bit_depth,
                                        ) by {
                                            if s2 < db0.slots@.len() {
                                                assert(db2.slots@[s2] == db0.slots@[s2]);
                                            } else {
                                                assert(db2.slots@[s2] == slotg);
                                            }
                                        }
                                    }
                                }
                            }
                        }
                    }
                }
            }
            idx = idx + 1;
        }
        let r = FileRun {
            infile: plan.infile.clone(),
            outfiles,
            branches,
            resolved_order: Ghost(Seq::<int>::empty()),
        };
        r
    }
}

/// The same slot with its tombstone set.
pub open spec fn resolved_copy(s: WriterSlot) -> WriterSlot {
    WriterSlot {
        outfile_index: s.outfile_index,
        out_path: s.out_path,
        tmp_path: s.tmp_path,
        format: s.format,
        resolved: true,
    }
}

/// Two slots that agree on everything but possibly the tombstone.
pub open spec fn slot_fields_eq(a: WriterSlot, b: WriterSlot) -> bool {
    &&& a.outfile_index == b.outfile_index
    &&& a.out_path == b.out_path
    &&& a.tmp_path == b.tmp_path
    &&& a.format == b.format
}

/// Between `pre` and `post`, exactly the slot at `(b, d, s)` — open in `pre`
/// — was resolved, and its outfile index was appended to the resolution log;
/// everything else is untouched.
pub open spec fn resolve_frame(pre: FileRun, post: FileRun, b: int, d: int, s: int) -> bool {
    &&& 0 <= b < pre.branches@.len()
    &&& 0 <= d < pre.branches@[b].depths@.len()
    &&& 0 <= s < pre.branches@[b].depths@[d].slots@.len()
    &&& !pre.branches@[b].depths@[d].slots@[s].resolved
    &&& post.infile@ == pre.infile@
    &&& post.outfiles@ == pre.outfiles@
    &&& post.branches@.len() == pre.branches@.len()
    &&& forall|b2: int|
        0 <= b2 < pre.branches@.len() && b2 != b ==> #[trigger] post.branches@[b2]
            == pre.branches@[b2]
    &&& post.branches@[b].sample_rate == pre.branches@[b].sample_rate
    &&& post.branches@[b].depths@.len() == pre.branches@[b].depths@.len()
    &&& forall|d2: int|
        0 <= d2 < pre.branches@[b].depths@.len() && d2 != d ==> #[trigger] post.branches@[b].depths@[d2]
            == pre.branches@[b].depths@[d2]
    &&& post.branches@[b].depths@[d].bit_depth == pre.branches@[b].depths@[d].bit_depth
    &&& post.branches@[b].depths@[d].slots@.len() == pre.branches@[b].depths@[d].slots@.len()
    &&& forall|s2: int|
        0 <= s2 < pre.branches@[b].depths@[d].slots@.len() && s2 != s
            ==> #[trigger] post.branches@[b].depths@[d].slots@[s2]
            == pre.branches@[b].depths@[d].slots@[s2]
    &&& post.branches@[b].depths@[d].slots@[s] == resolved_copy(
        pre.branches@[b].depths@[d].slots@[s],
    )
    &&& post.resolved_order@ == pre.resolved_order@.push(
        pre.branches@[b].depths@[d].slots@[s].outfile_index as int,
    )
}

/// `ev` is a terminal result for the slot at `(b, d, s)`, carrying `error`.
pub open spec fn event_for(
    pre: FileRun,
    b: int,
    d: int,
    s: int,
    error: Option<ConvertError>,
    ev: ConvertResult,
) -> bool {
    &&& ev.in_path@ == pre.infile@
    &&& ev.out_path@ == pre.branches@[b].depths@[d].slots@[s].out_path@
    &&& ev.format == pre.branches@[b].depths@[d].slots@[s].format
    &&& ev.error == error
}

/// The runs have the same branch structure, slot for slot, up to tombstones.
pub open spec fn shape_eq(pre: FileRun, post: FileRun) -> bool {
    &&& post.infile@ == pre.infile@
    &&& post.outfiles@ == pre.outfiles@
    &&& post.branches@.len() == pre.branches@.len()
    &&& forall|b: int|
        0 <= b < pre.branches@.len() ==> (#[trigger] post.branches@[b]).sample_rate
            == pre.branches@[b].sample_rate
    &&& forall|b: int|
        0 <= b < pre.branches@.len() ==> (#[trigger] post.branches@[b]).depths@.len()
            == pre.branches@[b].depths@.len()
    &&& forall|b: int, d: int|
        0 <= b < pre.branches@.len() && 0 <= d < pre.branches@[b].depths@.len() ==> (
        #[trigger] post.branches@[b].depths@[d]).bit_depth == pre.branches@[b].depths@[d].bit_depth
    &&& forall|b: int, d: int|
        0 <= b < pre.branches@.len() && 0 <= d < pre.branches@[b].depths@.len() ==> (
        #[trigger] post.branches@[b].depths@[d]).slots@.len()
            == pre.branches@[b].depths@[d].slots@.len()
    &&& forall|b: int, d: int, s: int|
        0 <= b < pre.branches@.len() && 0 <= d < pre.branches@[b].depths@.len() && 0 <= s
            < pre.branches@[b].depths@[d].slots@.len() ==> slot_fields_eq(
            pre.branches@[b].depths@[d].slots@[s],
            #[trigger] post.branches@[b].depths@[d].slots@[s],
        )
}

/// Tombstones only ever get set, never cleared.
pub open spec fn tombstones_monotone(pre: FileRun, post: FileRun) -> bool {
    forall|b: int, d: int, s: int|
        0 <= b < pre.branches@.len() && 0 <= d < pre.branches@[b].depths@.len() && 0 <= s
            < pre.branches@[b].depths@[d].slots@.len() && (
        #[trigger] pre.branches@[b].depths@[d].slots@[s]).resolved
            ==> post.branches@[b].depths@[d].slots@[s].resolved
}

proof fn lemma_shape_compose(pre: FileRun, mid: FileRun, post: FileRun, b: int, d: int, s: int)
    requires
        shape_eq(pre, mid),
        tombstones_monotone(pre, mid),
        resolve_frame(mid, post, b, d, s),
    ensures
        shape_eq(pre, post),
        tombstones_monotone(pre, post),
{
    assert forall|b2: int, d2: int, s2: int|
        0 <= b2 < pre.branches@.len() && 0 <= d2 < pre.branches@[b2].depths@.len() && 0 <= s2
            < pre.branches@[b2].depths@[d2].slots@.len() implies {
        &&& slot_fields_eq(
            pre.branches@[b2].depths@[d2].slots@[s2],
            post.branches@[b2].depths@[d2].slots@[s2],
        )
        &&& (pre.branches@[b2].depths@[d2].slots@[s2].resolved
            ==> post.branches@[b2].depths@[d2].slots@[s2].resolved)
    } by {
        if b2 != b || d2 != d || s2 != s {
            assert(post.branches@[b2].depths@[d2].slots@[s2]
                == mid.branches@[b2].depths@[d2].slots@[s2]);
        }
    }
}

impl FileRun {
    /// Sets the tombstone of one open slot and logs its outfile index.
    fn resolve_mark(&mut self, b: usize, d: usize, s: usize)
        requires
            old(self).wf(),
            b < old(self).branches@.len(),
            d < old(self).branches@[b as int].depths@.len(),
            s < old(self).branches@[b as int].depths@[d as int].slots@.len(),
            !old(self).branches@[b as int].depths@[d as int].slots@[s as int].resolved,
        ensures
            final(self).wf(),
            resolve_frame(*old(self), *final(self), b as int, d as int, s as int),
    {
        let ghost pre = *self;
        let ghost i0 = self.branches@[b as int].depths@[d as int].slots@[s as int].outfile_index
            as int;
        self.branches[b].depths[d].slots[s].resolved = true;
        proof {
            self.resolved_order@ = pre.resolved_order@.push(i0);
        }
        proof {
            let bs0 = pre.branches@;
            let sl0 = bs0[b as int].depths@[d as int].slots@[s as int];
            let sl1 = self.branches@[b as int].depths@[d as int].slots@[s as int];
            assert(self.branches@ =~= bs0.update(b as int, self.branches@[b as int]));
            assert(self.branches@[b as int].depths@ =~= bs0[b as int].depths@.update(
                d as int,
                self.branches@[b as int].depths@[d as int],
            ));
            assert(self.branches@[b as int].depths@[d as int].slots@ =~= bs0[b as int].depths@[d
                as int].slots@.update(s as int, sl1));
            assert(sl1 == resolved_copy(sl0));
            // The resolved slot belongs to a planned outfile.
            assert(rate_wf(pre.outfiles@, bs0[b as int]));
            assert(depth_wf(
                pre.outfiles@,
                bs0[b as int].sample_rate,
                bs0[b as int].depths@[d as int],
            ));
            assert(slot_ok(
                pre.outfiles@,
                sl0,
                bs0[b as int].sample_rate,
                bs0[b as int].depths@[d as int].bit_depth,
            ));
            assert(0 <= i0 < pre.n());
            assert forall|i2: int| 0 <= i2 < self.n() implies #[trigger] count_rates(
                self.branches@,
                i2,
            ) == 1 by {
                lemma_rates_update(bs0, b as int, self.branches@[b as int], i2);
                lemma_depths_update(
                    bs0[b as int].depths@,
                    d as int,
                    self.branches@[b as int].depths@[d as int],
                    i2,
                );
                lemma_slots_update(bs0[b as int].depths@[d as int].slots@, s as int, sl1, i2);
                assert(count_rates(bs0, i2) == 1);
            }
            assert forall|i2: int| 0 <= i2 < self.n() implies live_rates(self.branches@, i2)
                + count_order(self.resolved_order@, i2) == 1 by {
                lemma_rates_update(bs0, b as int, self.branches@[b as int], i2);
                lemma_depths_update(
                    bs0[b as int].depths@,
                    d as int,
                    self.branches@[b as int].depths@[d as int],
                    i2,
                );
                lemma_slots_update(bs0[b as int].depths@[d as int].slots@, s as int, sl1, i2);
                lemma_order_push(pre.resolved_order@, i0, i2);
                assert(live_rates(bs0, i2) + count_order(pre.resolved_order@, i2) == 1);
            }
            assert(self.branches@[b as int].sample_rate == bs0[b as int].sample_rate);
            assert forall|b1: int, b2: int| 0 <= b1 < b2 < self.branches@.len() implies (
            #[trigger] self.branches@[b1]).sample_rate != (
            #[trigger] self.branches@[b2]).sample_rate by {
                if b1 != b as int {
                    assert(self.branches@[b1] == bs0[b1]);
                }
                if b2 != b as int {
                    assert(self.branches@[b2] == bs0[b2]);
                }
            }
            assert forall|k: int| 0 <= k < self.resolved_order@.len() implies 0
                <= #[trigger] self.resolved_order@[k] < self.n() by {
                if k < pre.resolved_order@.len() {
                    assert(self.resolved_order@[k] == pre.resolved_order@[k]);
                } else {
                    assert(self.resolved_order@[k] == i0);
                }
            }
            assert forall|b2: int| 0 <= b2 < self.branches@.len() implies rate_wf(
                self.outfiles@,
                #[trigger] self.branches@[b2],
            ) by {
                if b2 != b as int {
                    assert(self.branches@[b2] == bs0[b2]);
                    assert(rate_wf(pre.outfiles@, bs0[b2]));
                } else {
                    let rb2 = self.branches@[b2];
                    assert forall|d2: int| 0 <= d2 < rb2.depths@.len() implies depth_wf(
                        self.outfiles@,
                        rb2.sample_rate,
                        #[trigger] rb2.depths@[d2],
                    ) by {
                        if d2 != d as int {
                            assert(rb2.depths@[d2] == bs0[b2].depths@[d2]);
                            assert(depth_wf(pre.outfiles@, bs0[b2].sample_rate, bs0[b2].depths@[d2]));
                        } else {
                            let db2 = rb2.depths@[d2];
                            assert(depth_wf(
                                pre.outfiles@,
                                bs0[b2].sample_rate,
                                bs0[b2].depths@[d2],
                            ));
                            assert forall|s2: int| 0 <= s2 < db2.slots@.len() implies slot_ok(
                                self.outfiles@,
                                #[trigger] db2.slots@[s2],
                                rb2.sample_rate,
                                db2.bit_depth,
                            ) by {
                                if s2 != s as int {
                                    assert(db2.slots@[s2] == bs0[b2].depths@[d2].slots@[s2]);
                                    assert(slot_ok(
                                        pre.outfiles@,
                                        bs0[b2].depths@[d2].slots@[s2],
                                        bs0[b2].sample_rate,
                                        bs0[b2].depths@[d2].bit_depth,
                                    ));
                                } else {
                                    assert(db2.slots@[s2] == sl1);
                                    let x0 = choose|x: int|
                                        0 <= x < 0x10000 && sl0.tmp_path@ == spec_tmp_name(
                                            sl0.out_path@,
                                            x,
                                        );
                                    assert(sl1.tmp_path@ == spec_tmp_name(sl1.out_path@, x0));
                                }
                            }
                        }
                    }
                }
            }
        }
    }

    /// Resolves one open slot with a failure: reports the error as this
    /// output's terminal result and tombstones the slot, leaving every other
    /// output untouched.
    pub fn resolve_failure(&mut self, b: usize, d: usize, s: usize, err: ConvertError) -> (ev:
        ConvertResult)
        requires
            old(self).wf(),
            b < old(self).branches@.len(),
            d < old(self).branches@[b as int].depths@.len(),
            s < old(self).branches@[b as int].depths@[d as int].slots@.len(),
            !old(self).branches@[b as int].depths@[d as int].slots@[s as int].resolved,
        ensures
            final(self).wf(),
            resolve_frame(*old(self), *final(self), b as int, d as int, s as int),
            event_for(*old(self), b as int, d as int, s as int, Some(err), ev),
    {
        let ev = ConvertResult {
            in_path: self.infile.clone(),
            out_path: self.branches[b].depths[d].slots[s].out_path.clone(),
            format: self.branches[b].depths[d].slots[s].format,
            error: Some(err),
        };
        self.resolve_mark(b, d, s);
        ev
    }

    /// Resolves one open slot with success: the temporary file has been
    /// renamed onto the final path, so the output's terminal result carries
    /// no error, and the slot is tombstoned.
    pub fn resolve_success(&mut self, b: usize, d: usize, s: usize) -> (ev: ConvertResult)
        requires
            old(self).wf(),
            b < old(self).branches@.len(),
            d < old(self).branches@[b as int].depths@.len(),
            s < old(self).branches@[b as int].depths@[d as int].slots@.len(),
            !old(self).branches@[b as int].depths@[d as int].slots@[s as int].resolved,
        ensures
            final(self).wf(),
            resolve_frame(*old(self), *final(self), b as int, d as int, s as int),
            event_for(*old(self), b as int, d as int, s as int, None, ev),
    {
        let ev = ConvertResult {
            in_path: self.infile.clone(),
            out_path: self.branches[b].depths[d].slots[s].out_path.clone(),
            format: self.branches[b].depths[d].slots[s].format,
            error: None,
        };
        self.resolve_mark(b, d, s);
        ev
    }
}

/// A cleanup event and its temporary-file deletion are accounted for: the
/// event carries the abort cause — the read error if one aborted the file,
/// else cancellation — and both belong to a slot that was still open when
/// cleanup began.
pub open spec fn cleanup_event_ok(
    pre: FileRun,
    read_error: Option<String>,
    ev: ConvertResult,
    tmp: String,
) -> bool {
    &&& ev.in_path@ == pre.infile@
    &&& (match read_error {
        Some(m) => ev.error == Some(ConvertError::Read(m)),
        None => ev.error == Some(ConvertError::Cancelled),
    })
    &&& exists|b: int, d: int, s: int|
        {
            &&& 0 <= b < pre.branches@.len()
            &&& 0 <= d < pre.branches@[b].depths@.len()
            &&& 0 <= s < pre.branches@[b].depths@[d].slots@.len()
            &&& !(#[trigger] pre.branches@[b].depths@[d].slots@[s]).resolved
            &&& pre.branches@[b].depths@[d].slots@[s].out_path@ == ev.out_path@
            &&& pre.branches@[b].depths@[d].slots@[s].format == ev.format
            &&& pre.branches@[b].depths@[d].slots@[s].tmp_path@ == tmp@
        }
}

/// Some event (and its paired deletion) stands for this slot.
pub open spec fn covered(events: Seq<ConvertResult>, tmps: Seq<String>, sl: WriterSlot) -> bool {
    exists|k: int|
        {
            &&& 0 <= k < events.len()
            &&& k < tmps.len()
            &&& (#[trigger] events[k]).out_path@ == sl.out_path@
            &&& events[k].format == sl.format
            &&& tmps[k]@ == sl.tmp_path@
        }
}

impl FileRun {
    /// The cleanup pass that always runs after the streaming loop: every slot
    /// still open — which happens only on cancellation or on an input read
    /// error — is resolved with the abort cause as its terminal result, and
    /// its temporary file is named for deletion.  Afterwards no slot is open,
    /// and the resolution log holds every planned output exactly once.
    pub fn cleanup(&mut self, read_error: Option<String>) -> (out: (
        Vec<ConvertResult>,
        Vec<String>,
    ))
        requires
            old(self).wf(),
        ensures
            final(self).wf(),
            shape_eq(*old(self), *final(self)),
            tombstones_monotone(*old(self), *final(self)),
            forall|i: int|
                0 <= i < final(self).n() ==> live_rates(final(self).branches@, i) == 0,
            forall|i: int|
                0 <= i < final(self).n() ==> count_order(final(self).resolved_order@, i) == 1,
            out.0@.len() == out.1@.len(),
            out.0@.len() + old(self).resolved_order@.len() == final(self).resolved_order@.len(),
            forall|k: int|
                0 <= k < out.0@.len() ==> cleanup_event_ok(
                    *old(self),
                    read_error,
                    #[trigger] out.0@[k],
                    out.1@[k],
                ),
            forall|b: int, d: int, s: int|
                0 <= b < old(self).branches@.len() && 0 <= d < old(
                    self,
                ).branches@[b].depths@.len() && 0 <= s < old(
                    self,
                ).branches@[b].depths@[d].slots@.len() && !(#[trigger] old(
                    self,
                ).branches@[b].depths@[d].slots@[s]).resolved ==> covered(
                    out.0@,
                    out.1@,
                    old(self).branches@[b].depths@[d].slots@[s],
                ),
    {
        let ghost pre = *self;
        let mut events: Vec<ConvertResult> = Vec::new();
        let mut dels: Vec<String> = Vec::new();
        let nb = self.branches.len();
        let mut b: usize = 0;
        while b < nb
            invariant
                self.wf(),
                shape_eq(pre, *self),
                tombstones_monotone(pre, *self),
                pre.wf(),
                b <= nb,
                nb == self.branches@.len(),
                events@.len() == dels@.len(),
                events@.len() + pre.resolved_order@.len() == self.resolved_order@.len(),
                forall|k: int|
                    0 <= k < events@.len() ==> cleanup_event_ok(
                        pre,
                        read_error,
                        #[trigger] events@[k],
                        dels@[k],
                    ),
                forall|b2: int, d2: int, s2: int|
                    0 <= b2 < b && 0 <= d2 < self.branches@[b2].depths@.len() && 0 <= s2
                        < self.branches@[b2].depths@[d2].slots@.len() ==> (
                    #[trigger] self.branches@[b2].depths@[d2].slots@[s2]).resolved,
                forall|b2: int, d2: int, s2: int|
                    0 <= b2 < pre.branches@.len() && 0 <= d2 < pre.branches@[b2].depths@.len() && 0
                        <= s2 < pre.branches@[b2].depths@[d2].slots@.len() && !(#[trigger] pre.branches@[b2].depths@[d2].slots@[s2]).resolved
                        ==> (!self.branches@[b2].depths@[d2].slots@[s2].resolved || covered(
                        events@,
                        dels@,
                        pre.branches@[b2].depths@[d2].slots@[s2],
                    )),
            decreases nb - b,
        {
            let nd = self.branches[b].depths.len();
            let mut d: usize = 0;
            while d < nd
                invariant
                    self.wf(),
                    shape_eq(pre, *self),
                    tombstones_monotone(pre, *self),
                    pre.wf(),
                    b < nb,
                    nb == self.branches@.len(),
                    d <= nd,
                    nd == self.branches@[b as int].depths@.len(),
                    events@.len() == dels@.len(),
                    events@.len() + pre.resolved_order@.len() == self.resolved_order@.len(),
                    forall|k: int|
                        0 <= k < events@.len() ==> cleanup_event_ok(
                            pre,
                            read_error,
                            #[trigger] events@[k],
                            dels@[k],
                        ),
                    forall|b2: int, d2: int, s2: int|
                        0 <= b2 < b && 0 <= d2 < self.branches@[b2].depths@.len() && 0 <= s2
                            < self.branches@[b2].depths@[d2].slots@.len() ==> (
                        #[trigger] self.branches@[b2].depths@[d2].slots@[s2]).resolved,
                    forall|d2: int, s2: int|
                        0 <= d2 < d && 0 <= s2 < self.branches@[b as int].depths@[d2].slots@.len()
                            ==> (#[trigger] self.branches@[b as int].depths@[d2].slots@[s2]).resolved,
                    forall|b2: int, d2: int, s2: int|
                        0 <= b2 < pre.branches@.len() && 0 <= d2 < pre.branches@[b2].depths@.len()
                            && 0 <= s2 < pre.branches@[b2].depths@[d2].slots@.len() && !(#[trigger] pre.branches@[b2].depths@[d2].slots@[s2]).resolved
                            ==> (!self.branches@[b2].depths@[d2].slots@[s2].resolved || covered(
                            events@,
                            dels@,
                            pre.branches@[b2].depths@[d2].slots@[s2],
                        )),
                decreases nd - d,
            {
                let ns = self.branches[b].depths[d].slots.len();
                let mut s: usize = 0;
                while s < ns
                    invariant
                        self.wf(),
                        shape_eq(pre, *self),
                        tombstones_monotone(pre, *self),
                        pre.wf(),
                        b < nb,
                        nb == self.branches@.len(),
                        d < nd,
                        nd == self.branches@[b as int].depths@.len(),
                        s <= ns,
                        ns == self.branches@[b as int].depths@[d as int].slots@.len(),
                        events@.len() == dels@.len(),
                        events@.len() + pre.resolved_order@.len() == self.resolved_order@.len(),
                        forall|k: int|
                            0 <= k < events@.len() ==> cleanup_event_ok(
                                pre,
                                read_error,
                                #[trigger] events@[k],
                                dels@[k],
                            ),
                        forall|b2: int, d2: int, s2: int|
                            0 <= b2 < b && 0 <= d2 < self.branches@[b2].depths@.len() && 0 <= s2
                                < self.branches@[b2].depths@[d2].slots@.len() ==> (
                            #[trigger] self.branches@[b2].depths@[d2].slots@[s2]).resolved,
                        forall|d2: int, s2: int|
                            0 <= d2 < d && 0 <= s2 < self.branches@[b as int].depths@[d2].slots@.len()
                                ==> (#[trigger] self.branches@[b as int].depths@[d2].slots@[s2]).resolved,
                        forall|s2: int|
                            0 <= s2 < s ==> (#[trigger] self.branches@[b as int].depths@[d as int].slots@[s2]).resolved,
                        forall|b2: int, d2: int, s2: int|
                            0 <= b2 < pre.branches@.len() && 0 <= d2
                                < pre.branches@[b2].depths@.len() && 0 <= s2
                                < pre.branches@[b2].depths@[d2].slots@.len() && !(#[trigger] pre.branches@[b2].depths@[d2].slots@[s2]).resolved
                                ==> (!self.branches@[b2].depths@[d2].slots@[s2].resolved || covered(
                                events@,
                                dels@,
                                pre.branches@[b2].depths@[d2].slots@[s2],
                            )),
                    decreases ns - s,
                {
                    if !self.branches[b].depths[d].slots[s].resolved {
                        let ghost cur = *self;
                        let ghost evlen = events@.len() as int;
                        let ghost ev0 = events@;
                        let ghost dl0 = dels@;
                        let e = match &read_error {
                            Some(m) => ConvertError::Read(m.clone()),
                            None => ConvertError::Cancelled,
                        };
                        let tmp = self.branches[b].depths[d].slots[s].tmp_path.clone();
                        let ev = self.resolve_failure(b, d, s, e);
                        events.push(ev);
                        dels.push(tmp);
                        proof {
                            lemma_shape_compose(pre, cur, *self, b as int, d as int, s as int);
                            let slp = pre.branches@[b as int].depths@[d as int].slots@[s as int];
                            assert(slot_fields_eq(
                                slp,
                                cur.branches@[b as int].depths@[d as int].slots@[s as int],
                            ));
                            assert(events@[evlen].out_path@ == slp.out_path@);
                            assert(events@[evlen].format == slp.format);
                            assert(dels@[evlen]@ == slp.tmp_path@);
                            assert(cleanup_event_ok(pre, read_error, events@[evlen], dels@[evlen]));
                            assert forall|k: int| 0 <= k < events@.len() implies cleanup_event_ok(
                                pre,
                                read_error,
                                #[trigger] events@[k],
                                dels@[k],
                            ) by {
                                if k < evlen {
                                    assert(events@[k] == ev0[k]);
                                }
                            }
                            assert forall|b2: int, d2: int, s2: int|
                                0 <= b2 < pre.branches@.len() && 0 <= d2
                                    < pre.branches@[b2].depths@.len() && 0 <= s2
                                    < pre.branches@[b2].depths@[d2].slots@.len() && !(#[trigger] pre.branches@[b2].depths@[d2].slots@[s2]).resolved implies (
                            !self.branches@[b2].depths@[d2].slots@[s2].resolved || covered(
                                events@,
                                dels@,
                                pre.branches@[b2].depths@[d2].slots@[s2],
                            )) by {
                                if b2 == b as int && d2 == d as int && s2 == s as int {
                                    assert(covered(events@, dels@, slp));
                                } else if !cur.branches@[b2].depths@[d2].slots@[s2].resolved
                                    || covered(
                                    ev0,
                                    dl0,
                                    pre.branches@[b2].depths@[d2].slots@[s2],
                                ) {
                                    if covered(
                                        ev0,
                                        dl0,
                                        pre.branches@[b2].depths@[d2].slots@[s2],
                                    ) {
                                        let k0 = choose|k: int|
                                            {
                                                &&& 0 <= k < ev0.len()
                                                &&& k < dl0.len()
                                                &&& (#[trigger] ev0[k]).out_path@
                                                    == pre.branches@[b2].depths@[d2].slots@[s2].out_path@
                                                &&& ev0[k].format
                                                    == pre.branches@[b2].depths@[d2].slots@[s2].format
                                                &&& dl0[k]@
                                                    == pre.branches@[b2].depths@[d2].slots@[s2].tmp_path@
                                            };
                                        assert(events@[k0] == ev0[k0]);
                                        assert(dels@[k0] == dl0[k0]);
                                        assert(covered(
                                            events@,
                                            dels@,
                                            pre.branches@[b2].depths@[d2].slots@[s2],
                                        ));
                                    }
                                }
                            }
                        }
                    }
                    s = s + 1;
                }
                d = d + 1;
            }
            b = b + 1;
        }
        proof {
            assert forall|i: int| 0 <= i < self.n() implies live_rates(self.branches@, i) == 0 by {
                lemma_all_resolved_rates(self.branches@, i);
            }
        }
        (events, dels)
    }
}

/// Law: one output's failure is isolated.  Resolving one slot with an error
/// and then a different slot with success gives the first output exactly its
/// failure result and the second exactly its success result, and leaves every
/// other slot untouched.
pub proof fn lemma_partial_failure_isolation(
    pre: FileRun,
    mid: FileRun,
    post: FileRun,
    b1: int,
    d1: int,
    s1: int,
    b2: int,
    d2: int,
    s2: int,
    err: ConvertError,
    ev1: ConvertResult,
    ev2: ConvertResult,
)
    requires
        pre.wf(),
        resolve_frame(pre, mid, b1, d1, s1),
        event_for(pre, b1, d1, s1, Some(err), ev1),
        resolve_frame(mid, post, b2, d2, s2),
        event_for(mid, b2, d2, s2, None, ev2),
        !(b1 == b2 && d1 == d2 && s1 == s2),
    ensures
        ev1.error == Some(err),
        ev2.error is None,
        post.branches@[b1].depths@[d1].slots@[s1].resolved,
        post.branches@[b2].depths@[d2].slots@[s2].resolved,
        ev1.out_path@ == pre.branches@[b1].depths@[d1].slots@[s1].out_path@,
        ev2.out_path@ == pre.branches@[b2].depths@[d2].slots@[s2].out_path@,
        forall|b: int, d: int, s: int|
            0 <= b < pre.branches@.len() && 0 <= d < pre.branches@[b].depths@.len() && 0 <= s
                < pre.branches@[b].depths@[d].slots@.len() && !(b == b1 && d == d1 && s == s1) && !(
            b == b2 && d == d2 && s == s2) ==> #[trigger] post.branches@[b].depths@[d].slots@[s]
                == pre.branches@[b].depths@[d].slots@[s],
{
    if b2 != b1 || d2 != d1 {
        assert(mid.branches@[b2].depths@[d2].slots@[s2] == pre.branches@[b2].depths@[d2].slots@[s2]);
    }
    if b1 != b2 || d1 != d2 {
        assert(post.branches@[b1].depths@[d1].slots@[s1] == mid.branches@[b1].depths@[d1].slots@[s1]);
    }
    assert forall|b: int, d: int, s: int|
        0 <= b < pre.branches@.len() && 0 <= d < pre.branches@[b].depths@.len() && 0 <= s
            < pre.branches@[b].depths@[d].slots@.len() && !(b == b1 && d == d1 && s == s1) && !(b
            == b2 && d == d2 && s == s2) implies #[trigger] post.branches@[b].depths@[d].slots@[s]
        == pre.branches@[b].depths@[d].slots@[s] by {
        if b != b1 || d != d1 {
            assert(mid.branches@[b].depths@[d].slots@[s] == pre.branches@[b].depths@[d].slots@[s]);
        }
        if b != b2 || d != d2 {
            assert(post.branches@[b].depths@[d].slots@[s] == mid.branches@[b].depths@[d].slots@[s]);
        }
    }
}

/// Law: cancellation leaves no partial outputs.  Every cleanup event produced
/// without a read error reports cancellation, and it names for deletion only
/// the temporary file — final path plus random suffix plus `.tmp` — of some
/// planned output that had not yet resolved; outputs that had already
/// resolved get no event and keep what they renamed into place.
pub proof fn lemma_cancellation_no_partial_outputs(
    pre: FileRun,
    events: Seq<ConvertResult>,
    tmps: Seq<String>,
    k: int,
)
    requires
        pre.wf(),
        events.len() == tmps.len(),
        0 <= k < events.len(),
        cleanup_event_ok(pre, None, events[k], tmps[k]),
    ensures
        events[k].error == Some(ConvertError::Cancelled),
        exists|i: int, x: int|
            {
                &&& 0 <= i < pre.n()
                &&& (#[trigger] events[k].out_path@) == pre.outfiles@[i].path@
                &&& events[k].format == pre.outfiles@[i].format
                &&& tmps[k]@ == spec_tmp_name(pre.outfiles@[i].path@, x)
            },
{
    let (b, d, s) = choose|b: int, d: int, s: int|
        {
            &&& 0 <= b < pre.branches@.len()
            &&& 0 <= d < pre.branches@[b].depths@.len()
            &&& 0 <= s < pre.branches@[b].depths@[d].slots@.len()
            &&& !(#[trigger] pre.branches@[b].depths@[d].slots@[s]).resolved
            &&& pre.branches@[b].depths@[d].slots@[s].out_path@ == events[k].out_path@
            &&& pre.branches@[b].depths@[d].slots@[s].format == events[k].format
            &&& pre.branches@[b].depths@[d].slots@[s].tmp_path@ == tmps[k]@
        };
    let sl = pre.branches@[b].depths@[d].slots@[s];
    assert(rate_wf(pre.outfiles@, pre.branches@[b]));
    assert(depth_wf(pre.outfiles@, pre.branches@[b].sample_rate, pre.branches@[b].depths@[d]));
    assert(slot_ok(
        pre.outfiles@,
        sl,
        pre.branches@[b].sample_rate,
        pre.branches@[b].depths@[d].bit_depth,
    ));
    let i = sl.outfile_index as int;
    let x = choose|x: int| 0 <= x < 0x10000 && sl.tmp_path@ == spec_tmp_name(sl.out_path@, x);
    assert(0 <= i < pre.n() && events[k].out_path@ == pre.outfiles@[i].path@ && events[k].format
        == pre.outfiles@[i].format && tmps[k]@ == spec_tmp_name(pre.outfiles@[i].path@, x));
}

} // verus!
