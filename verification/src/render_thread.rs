use vstd::prelude::*;

use crate::workload::Workload;

verus! {

/// How many workloads a frame is cut into: twenty per worker thread, but never
/// more than there are pixels.
pub open spec fn task_count(total_pixels: nat, available_threads: nat) -> nat {
    if available_threads * 20 <= total_pixels {
        available_threads * 20
    } else {
        total_pixels
    }
}

/// Pixels in every workload but the last, which also takes the remainder.
pub open spec fn pixels_per_task(total_pixels: nat, available_threads: nat) -> nat {
    total_pixels / task_count(total_pixels, available_threads)
}

/// `ws` cuts the pixel indices `[0, total_pixels)` into consecutive runs that
/// have not been started.
pub open spec fn is_pixel_partition(ws: Seq<Workload>, total_pixels: nat) -> bool {
    &&& ws.len() > 0
    &&& ws[0].start_pixel == 0
    &&& ws.last().end_pixel == total_pixels
    &&& forall|k: int| 0 <= k < ws.len() - 1 ==> #[trigger] ws[k].end_pixel == ws[k + 1].start_pixel
    &&& forall|k: int|
        0 <= k < ws.len() ==> #[trigger] ws[k].start_pixel <= ws[k].end_pixel
            && ws[k].current_pixel == ws[k].start_pixel
}

/// Cuts a `width` x `height` frame into the workloads that the worker threads share.
pub fn plan_workloads(width: u32, height: u32, available_threads: usize) -> (ws: Vec<Workload>)
    requires
        0 < width * height <= u32::MAX,
        0 < available_threads,
        available_threads * 20 <= usize::MAX,
    ensures
        ws.len() == task_count((width * height) as nat, available_threads as nat),
        ws.len() == if 20 * available_threads <= width * height {
            20 * available_threads
        } else {
            width * height
        },
        forall|k: int|
            0 <= k < ws.len() - 1 ==> #[trigger] ws[k].end_pixel - ws[k].start_pixel == (width
                * height) / (ws.len() as int),
        ws[ws.len() - 1].end_pixel == width * height,
        forall|k: int|
            0 <= k < ws.len() ==> {
                &&& #[trigger] ws[k].start_pixel == k * pixels_per_task(
                    (width * height) as nat,
                    available_threads as nat,
                )
                &&& ws[k].current_pixel == ws[k].start_pixel
                &&& ws[k].render_size == (width, height)
                &&& ws[k].end_pixel == if k < ws.len() - 1 {
                    (k + 1) * pixels_per_task((width * height) as nat, available_threads as nat)
                } else {
                    (width * height) as int
                }
            },
        is_pixel_partition(ws@, (width * height) as nat),
{
    let total_pixels: u32 = width * height;
    let wanted_tasks: usize = available_threads * 20;
    let total_tasks: usize = if wanted_tasks <= total_pixels as usize {
        wanted_tasks
    } else {
        total_pixels as usize
    };
    let per_task: usize = total_pixels as usize / total_tasks;
    let ghost total = total_pixels as nat;
    let ghost ppt = per_task as int;
    assert(total_tasks == task_count(total, available_threads as nat));
    assert(ppt * total_tasks <= total) by (nonlinear_arith)
        requires
            ppt == (total as int) / (total_tasks as int),
            total_tasks > 0,
            total >= 0,
    ;

    let mut ws: Vec<Workload> = Vec::new();
    let mut index: usize = 0;
    while index < total_tasks - 1
        invariant
            0 < total_tasks <= total,
            total == total_pixels,
            ppt == per_task,
            ppt == pixels_per_task(total, available_threads as nat),
            total_tasks == task_count(total, available_threads as nat),
            ppt * total_tasks <= total,
            index <= total_tasks - 1,
            ws.len() == index,
            forall|k: int|
                0 <= k < index ==> {
                    &&& #[trigger] ws[k].start_pixel == k * ppt
                    &&& ws[k].current_pixel == ws[k].start_pixel
                    &&& ws[k].render_size == (width, height)
                    &&& ws[k].end_pixel == (k + 1) * ppt
                },
        decreases total_tasks - 1 - index,
    {
        assert((index + 1) * ppt <= total_tasks * ppt) by (nonlinear_arith)
            requires
                index + 1 <= total_tasks,
                ppt >= 0,
        ;
        assert(index * ppt <= (index + 1) * ppt) by (nonlinear_arith)
            requires
                ppt >= 0,
        ;
        let start: u32 = (index * per_task) as u32;
        let end: u32 = ((index + 1) * per_task) as u32;
        ws.push(Workload::new(start, end, (width, height)));
        index = index + 1;
    }
    let last: usize = total_tasks - 1;
    assert(last * ppt <= total_tasks * ppt) by (nonlinear_arith)
        requires
            last <= total_tasks,
            ppt >= 0,
    ;
    ws.push(Workload::new((last * per_task) as u32, total_pixels, (width, height)));
    proof {
        assert forall|k: int| 0 <= k < ws.len() implies #[trigger] ws[k].start_pixel
            <= ws[k].end_pixel by {
            if k < ws.len() - 1 {
                assert(k * ppt <= (k + 1) * ppt) by (nonlinear_arith)
                    requires
                        ppt >= 0,
                ;
            }
        }
        assert forall|k: int| 0 <= k < ws.len() - 1 implies #[trigger] ws[k].end_pixel
            == ws[k + 1].start_pixel by {
            assert(ws[k].start_pixel == k * ppt);
            assert(ws[k].end_pixel == (k + 1) * ppt);
            if k + 1 < ws.len() - 1 {
                assert(ws[k + 1].start_pixel == (k + 1) * ppt);
            } else {
                assert(k + 1 == last);
                assert(ws[k + 1].start_pixel == last * ppt);
            }
        }
        assert(ws[0].start_pixel == 0 * ppt);
        assert forall|k: int| 0 <= k < ws.len() - 1 implies #[trigger] ws[k].end_pixel
            - ws[k].start_pixel == (width * height) / (ws.len() as int) by {
            assert((k + 1) * ppt - k * ppt == ppt) by (nonlinear_arith);
        }
    }
    ws
}

/// The frame is cut into twenty workloads per worker thread, or one per pixel
/// where the frame has fewer pixels than that; every workload but the last
/// holds the same whole share of the pixels.
pub proof fn lemma_task_count_is_twenty_per_thread(total_pixels: nat, available_threads: nat)
    requires
        total_pixels > 0,
        available_threads > 0,
    ensures
        task_count(total_pixels, available_threads) == if 20 * available_threads <= total_pixels {
            20 * available_threads
        } else {
            total_pixels
        },
        task_count(total_pixels, available_threads) >= 1,
        pixels_per_task(total_pixels, available_threads) * task_count(total_pixels, available_threads)
            <= total_pixels,
        pixels_per_task(total_pixels, available_threads) == total_pixels / (if 20 * available_threads
            <= total_pixels {
            20 * available_threads
        } else {
            total_pixels
        }),
{
    let n = task_count(total_pixels, available_threads);
    assert((total_pixels / n) * n <= total_pixels) by (nonlinear_arith)
        requires
            n > 0,
    ;
}

/// Pixel index `p` lies in the run of `w`.
pub open spec fn run_contains(w: Workload, p: nat) -> bool {
    w.start_pixel <= p < w.end_pixel
}

proof fn lemma_partition_ordered(ws: Seq<Workload>, total_pixels: nat, i: int, j: int)
    requires
        is_pixel_partition(ws, total_pixels),
        0 <= i < j < ws.len(),
    ensures
        ws[i].end_pixel <= ws[j].start_pixel,
    decreases j - i,
{
    if j == i + 1 {
        assert(ws[i].end_pixel == ws[i + 1].start_pixel);
    } else {
        lemma_partition_ordered(ws, total_pixels, i, j - 1);
        assert(ws[j - 1].end_pixel == ws[j].start_pixel);
        assert(ws[j - 1].start_pixel <= ws[j - 1].end_pixel);
    }
}

proof fn lemma_partition_prefix_covers(ws: Seq<Workload>, total_pixels: nat, n: int, p: nat)
    requires
        is_pixel_partition(ws, total_pixels),
        0 < n <= ws.len(),
        p < ws[n - 1].end_pixel,
    ensures
        exists|k: int| 0 <= k < n && run_contains(#[trigger] ws[k], p),
    decreases n,
{
    if p >= ws[n - 1].start_pixel {
        assert(run_contains(ws[n - 1], p));
    } else {
        assert(n > 1);
        assert(ws[n - 2].end_pixel == ws[n - 1].start_pixel);
        lemma_partition_prefix_covers(ws, total_pixels, n - 1, p);
        let k = choose|k: int| 0 <= k < n - 1 && run_contains(#[trigger] ws[k], p);
        assert(run_contains(ws[k], p));
    }
}

/// Every pixel of the frame lies in exactly one workload of a partition, so
/// every pixel is rendered once and only once.
pub proof fn lemma_every_pixel_in_exactly_one_workload(
    ws: Seq<Workload>,
    total_pixels: nat,
    p: nat,
)
    requires
        is_pixel_partition(ws, total_pixels),
        p < total_pixels,
    ensures
        exists|k: int| 0 <= k < ws.len() && run_contains(#[trigger] ws[k], p),
        forall|k1: int, k2: int|
            0 <= k1 < ws.len() && 0 <= k2 < ws.len() && run_contains(#[trigger] ws[k1], p)
                && run_contains(#[trigger] ws[k2], p) ==> k1 == k2,
{
    lemma_partition_prefix_covers(ws, total_pixels, ws.len() as int, p);
    assert forall|k1: int, k2: int|
        0 <= k1 < ws.len() && 0 <= k2 < ws.len() && run_contains(#[trigger] ws[k1], p)
            && run_contains(#[trigger] ws[k2], p) implies k1 == k2 by {
        if k1 < k2 {
            lemma_partition_ordered(ws, total_pixels, k1, k2);
        } else if k2 < k1 {
            lemma_partition_ordered(ws, total_pixels, k2, k1);
        }
    }
}

/// The steps of a render thread (take the frame and the scene, hand out the
/// workloads, wait for the workers) have no body here: it does nothing.
pub fn run_render_thread() {
}

/// State shared with a render thread; it carries nothing.
pub struct RenderThreadContext {}

impl RenderThreadContext {
    pub fn new() -> (ctx: Self)
        ensures
            ctx == (RenderThreadContext {}),
    {
        Self {}
    }
}

/// What the render thread does after one look at the shared task queue while it
/// waits for its workers.
#[derive(Debug, PartialEq, Eq, Structural)]
pub enum WaitStep {
    /// Sleep and look again.
    KeepWaiting,
    /// Every task was taken: wait for the workers to finish.
    JoinWorkers,
    /// A stop was requested: stop the workers and end the frame.
    StopWorkers,
}

/// The render thread's waiting policy: finished tasks win over a stop request,
/// which wins over waiting.
pub fn next_wait_step(queue_is_empty: bool, exit_requested: bool) -> (step: WaitStep)
    ensures
        queue_is_empty ==> step == WaitStep::JoinWorkers,
        !queue_is_empty && exit_requested ==> step == WaitStep::StopWorkers,
        !queue_is_empty && !exit_requested ==> step == WaitStep::KeepWaiting,
{
    if queue_is_empty {
        WaitStep::JoinWorkers
    } else if exit_requested {
        WaitStep::StopWorkers
    } else {
        WaitStep::KeepWaiting
    }
}

} // verus!
