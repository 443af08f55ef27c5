use raytracer::render_thread::{
    next_wait_step, plan_workloads, run_render_thread, RenderThreadContext, WaitStep,
};
use raytracer::workload::Workload;

#[test]
fn workload_new_sets_all_fields() {
    let w = Workload::new(5, 8, (4, 3));
    assert_eq!(w.current_pixel, 5);
    assert_eq!(w.start_pixel, 5);
    assert_eq!(w.end_pixel, 8);
    assert_eq!(w.render_size, (4, 3));
}

#[test]
fn workload_next_walks_pixels_in_order() {
    let mut w = Workload::new(5, 8, (4, 3));
    assert_eq!(w.next(), Some((1, 1, 5)));
    assert_eq!(w.next(), Some((2, 1, 6)));
    assert_eq!(w.next(), Some((3, 1, 7)));
    assert_eq!(w.next(), None);
    assert_eq!(w.next(), None);
    assert_eq!(w.current_pixel, 8);
}

#[test]
fn workload_empty_run_yields_nothing() {
    let mut w = Workload::new(9, 3, (0, 0));
    assert_eq!(w.next(), None);
    assert_eq!(w.current_pixel, 9);
}

#[test]
fn plan_splits_frame_into_twenty_tasks_per_thread() {
    let ws = plan_workloads(10, 10, 1);
    assert_eq!(ws.len(), 20);
    for (k, w) in ws.iter().enumerate() {
        assert_eq!(w.start_pixel, 5 * k as u32);
        assert_eq!(w.end_pixel, 5 * (k as u32 + 1));
        assert_eq!(w.current_pixel, w.start_pixel);
        assert_eq!(w.render_size, (10, 10));
    }
}

#[test]
fn plan_never_makes_more_tasks_than_pixels() {
    let ws = plan_workloads(3, 3, 4);
    assert_eq!(ws.len(), 9);
    assert_eq!(ws[8].start_pixel, 8);
    assert_eq!(ws[8].end_pixel, 9);
}

#[test]
fn plan_last_task_takes_the_remainder() {
    let ws = plan_workloads(7, 3, 1);
    assert_eq!(ws.len(), 20);
    assert_eq!(ws[18].start_pixel, 18);
    assert_eq!(ws[18].end_pixel, 19);
    assert_eq!(ws[19].start_pixel, 19);
    assert_eq!(ws[19].end_pixel, 21);
}

#[test]
fn plan_renders_every_pixel_exactly_once() {
    let (width, height) = (37u32, 11u32);
    let ws = plan_workloads(width, height, 3);
    let mut seen = vec![0u32; (width * height) as usize];
    for w in ws {
        let mut w = w;
        while let Some((x, y, p)) = w.next() {
            assert_eq!(p, y * width + x);
            seen[p as usize] += 1;
        }
    }
    assert!(seen.iter().all(|&c| c == 1));
}

#[test]
fn wait_step_prefers_join_then_stop() {
    assert!(next_wait_step(true, true) == WaitStep::JoinWorkers);
    assert!(next_wait_step(true, false) == WaitStep::JoinWorkers);
    assert!(next_wait_step(false, true) == WaitStep::StopWorkers);
    assert!(next_wait_step(false, false) == WaitStep::KeepWaiting);
}

#[test]
fn render_thread_entry_points_do_nothing() {
    run_render_thread();
    let _ctx = RenderThreadContext::new();
}
