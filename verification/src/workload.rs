use vstd::prelude::*;

verus! {

/// A contiguous run of pixel indices `[start_pixel, end_pixel)` of a render
/// target, walked one pixel at a time from `current_pixel`.
#[derive(Clone, Copy, Debug)]
pub struct Workload {
    pub current_pixel: u32,
    pub start_pixel: u32,
    pub end_pixel: u32,
    pub render_size: (u32, u32),
}

/// The item yielded for pixel index `p` of a target `width` pixels wide:
/// its column, its row and the index itself.
pub open spec fn pixel_item(p: u32, width: u32) -> (u32, u32, u32) {
    ((p % width) as u32, (p / width) as u32, p)
}

impl Workload {
    /// Number of pixels not yet handed out.
    pub open spec fn remaining_count(self) -> nat {
        if self.current_pixel < self.end_pixel {
            (self.end_pixel - self.current_pixel) as nat
        } else {
            0
        }
    }

    /// The items that repeated calls of `next` hand out, in order.
    pub open spec fn remaining_items(self) -> Seq<(u32, u32, u32)> {
        Seq::new(
            self.remaining_count(),
            |i: int| pixel_item((self.current_pixel + i) as u32, self.render_size.0),
        )
    }

    /// A workload over `[start_pixel, end_pixel)` that has not handed out anything yet.
    pub fn new(start_pixel: u32, end_pixel: u32, render_size: (u32, u32)) -> (w: Self)
        ensures
            w.current_pixel == start_pixel,
            w.start_pixel == start_pixel,
            w.end_pixel == end_pixel,
            w.render_size == render_size,
    {
        Self { current_pixel: start_pixel, start_pixel, end_pixel, render_size }
    }

    /// Hands out the next pixel as `(x, y, index)`, or `None` once the run is exhausted.
    pub fn next(&mut self) -> (item: Option<(u32, u32, u32)>)
        requires
            old(self).current_pixel < old(self).end_pixel ==> old(self).render_size.0 > 0,
        ensures
            old(self).current_pixel >= old(self).end_pixel ==> item is None && *final(self)
                == *old(self),
            old(self).current_pixel < old(self).end_pixel ==> {
                &&& item == Some(pixel_item(old(self).current_pixel, old(self).render_size.0))
                &&& *final(self) == (Workload {
                    current_pixel: (old(self).current_pixel + 1) as u32,
                    ..*old(self)
                })
            },
    {
        if self.current_pixel >= self.end_pixel {
            None
        } else {
            let width = self.render_size.0;
            let output = Some(
                (self.current_pixel % width, self.current_pixel / width, self.current_pixel),
            );
            self.current_pixel = self.current_pixel + 1;
            output
        }
    }
}

/// Calling `next` on a workload with pixels left hands out the first remaining
/// item, and what remains afterwards is the rest of the sequence.
pub proof fn lemma_next_takes_first_remaining(w: Workload)
    requires
        w.current_pixel < w.end_pixel,
    ensures
        w.remaining_items() =~= seq![pixel_item(w.current_pixel, w.render_size.0)] + (Workload {
            current_pixel: (w.current_pixel + 1) as u32,
            ..w
        }).remaining_items(),
{
}

/// A fresh workload hands out exactly the pixels `start_pixel .. end_pixel`, in order.
pub proof fn lemma_new_covers_run(start_pixel: u32, end_pixel: u32, render_size: (u32, u32))
    ensures
        ({
            let w = Workload { current_pixel: start_pixel, start_pixel, end_pixel, render_size };
            &&& w.remaining_items().len() == if start_pixel < end_pixel {
                end_pixel - start_pixel
            } else {
                0
            }
            &&& forall|i: int|
                0 <= i < w.remaining_items().len() ==> #[trigger] w.remaining_items()[i]
                    == pixel_item((start_pixel + i) as u32, render_size.0)
        }),
{
}

} // verus!
