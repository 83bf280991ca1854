use media_frames::pipeline::{dead_of, DrawCommand, PlacementRect, VideoPipeline, Viewport};
use media_frames::render::{FrameBuffer, Storage, VideoPrimitive};
use std::sync::atomic::{AtomicBool, Ordering};
use std::sync::{Arc, Mutex};

fn rect(a: i32) -> PlacementRect {
    PlacementRect { min_x: a, min_y: a + 1, max_x: a + 10, max_y: a + 11 }
}

fn frame(w: usize, h: usize, seed: u8) -> Vec<u8> {
    (0..w * h * 3 / 2).map(|i| (i as u8).wrapping_add(seed)).collect()
}

fn live() -> Arc<AtomicBool> {
    Arc::new(AtomicBool::new(true))
}

#[test]
fn upload_creates_entry_with_split_planes() {
    let mut p = VideoPipeline::new(7);
    assert_eq!(p.format(), 7);
    assert!(p.planes(3).is_none());
    let f = frame(4, 2, 0);
    p.upload(3, &live(), (4, 2), &f);
    let (y, uv) = p.planes(3).unwrap();
    assert_eq!(y, &f[..8]);
    assert_eq!(uv, &f[8..12]);
    assert_eq!(p.placement(3), Some(PlacementRect { min_x: 0, min_y: 0, max_x: 0, max_y: 0 }));
}

#[test]
fn repeated_uploads_keep_one_entry() {
    let mut p = VideoPipeline::new(0);
    let alive = live();
    p.upload(9, &alive, (2, 2), &frame(2, 2, 1));
    p.upload(9, &alive, (2, 2), &frame(2, 2, 2));
    p.upload(9, &alive, (2, 2), &frame(2, 2, 3));
    assert_eq!(p.stream_ids(), vec![9]);
    let (y, _) = p.planes(9).unwrap();
    assert_eq!(y, &frame(2, 2, 3)[..4]);
}

#[test]
fn texture_extents_fixed_at_creation() {
    let mut p = VideoPipeline::new(0);
    let alive = live();
    p.upload(1, &alive, (2, 2), &frame(2, 2, 5));
    p.upload(1, &alive, (4, 2), &frame(4, 2, 6));
    let (y, uv) = p.planes(1).unwrap();
    assert_eq!(y.len(), 4);
    assert_eq!(uv.len(), 2);
    assert_eq!(y, &frame(2, 2, 5)[..4]);
}

#[test]
fn ids_are_kept_in_order() {
    let mut p = VideoPipeline::new(0);
    for id in [5u64, 1, 9, 3] {
        p.upload(id, &live(), (2, 2), &frame(2, 2, id as u8));
    }
    assert_eq!(p.stream_ids(), vec![1, 3, 5, 9]);
}

#[test]
fn placement_of_unknown_stream_is_a_no_op() {
    let mut p = VideoPipeline::new(0);
    p.update_placement(4, rect(1));
    assert!(p.stream_ids().is_empty());
    p.upload(4, &live(), (2, 2), &frame(2, 2, 0));
    p.update_placement(4, rect(1));
    assert_eq!(p.placement(4), Some(rect(1)));
}

#[test]
fn draw_only_with_entry() {
    let mut p = VideoPipeline::new(0);
    let vp = Viewport { x: 1, y: 2, width: 30, height: 40 };
    assert_eq!(p.draw(vp, 2), None);
    p.upload(2, &live(), (2, 2), &frame(2, 2, 0));
    assert_eq!(
        p.draw(vp, 2),
        Some(DrawCommand { video_id: 2, viewport: vp, vertices: 4, instances: 1 })
    );
}

#[test]
fn reclaim_removes_only_the_dead_stream() {
    let mut p = VideoPipeline::new(0);
    let flags = [live(), live(), live()];
    for (i, f) in flags.iter().enumerate() {
        let id = 10 + i as u64;
        p.upload(id, f, (2, 2), &frame(2, 2, i as u8));
        p.update_placement(id, rect(i as i32 * 100));
    }
    flags[1].store(false, Ordering::SeqCst);
    let removed = p.cleanup();
    assert_eq!(removed, vec![11]);
    assert_eq!(p.stream_ids(), vec![10, 12]);
    for (i, id) in [(0usize, 10u64), (2, 12)] {
        let (y, uv) = p.planes(id).unwrap();
        let f = frame(2, 2, i as u8);
        assert_eq!(y, &f[..4]);
        assert_eq!(uv, &f[4..6]);
        assert_eq!(p.placement(id), Some(rect(i as i32 * 100)));
    }
    assert_eq!(p.placement(11), None);
}

#[test]
fn reclaim_twice_removes_nothing_more() {
    let mut p = VideoPipeline::new(0);
    let a = live();
    let b = live();
    p.upload(1, &a, (2, 2), &frame(2, 2, 0));
    p.upload(2, &b, (2, 2), &frame(2, 2, 0));
    a.store(false, Ordering::SeqCst);
    assert_eq!(p.cleanup(), vec![1]);
    assert_eq!(p.cleanup(), Vec::<u64>::new());
    assert_eq!(p.stream_ids(), vec![2]);
}

#[test]
fn reclaim_keeps_idle_live_streams() {
    let mut p = VideoPipeline::new(0);
    p.upload(1, &live(), (2, 2), &frame(2, 2, 0));
    for _ in 0..5 {
        assert!(p.cleanup().is_empty());
    }
    assert_eq!(p.stream_ids(), vec![1]);
}

#[test]
fn remove_dead_by_ids() {
    let mut p = VideoPipeline::new(0);
    for id in 1..=4u64 {
        p.upload(id, &live(), (2, 2), &frame(2, 2, 0));
    }
    let removed = p.remove_dead(&vec![4, 2, 8]);
    assert_eq!(removed, vec![2, 4]);
    assert_eq!(p.stream_ids(), vec![1, 3]);
}

fn primitive(id: u64, alive: &Arc<AtomicBool>, bytes: Vec<u8>, size: (u32, u32), upload: bool) -> VideoPrimitive {
    VideoPrimitive::new(id, Arc::clone(alive), Arc::new(Mutex::new(bytes)), size, upload)
}

#[test]
fn first_request_builds_pipeline_once() {
    let mut s = Storage::new();
    assert!(s.pipeline.is_none());
    let alive = live();
    primitive(1, &alive, frame(2, 2, 0), (2, 2), true).prepare(&mut s, 3, rect(0));
    assert_eq!(s.pipeline.as_ref().unwrap().format(), 3);
    primitive(1, &alive, frame(2, 2, 0), (2, 2), false).prepare(&mut s, 8, rect(0));
    assert_eq!(s.pipeline.as_ref().unwrap().format(), 3);
}

#[test]
fn request_without_new_frame_skips_upload() {
    let mut s = Storage::new();
    let alive = live();
    primitive(6, &alive, frame(4, 2, 1), (4, 2), true).prepare(&mut s, 0, rect(0));
    let before: Vec<u8> = s.pipeline.as_ref().unwrap().planes(6).unwrap().0.to_vec();
    primitive(6, &alive, frame(4, 2, 99), (4, 2), false).prepare(&mut s, 0, rect(5));
    let p = s.pipeline.as_ref().unwrap();
    assert_eq!(p.planes(6).unwrap().0, &before[..]);
    assert_eq!(p.placement(6), Some(rect(5)));
    primitive(6, &alive, frame(4, 2, 99), (4, 2), true).prepare(&mut s, 0, rect(5));
    let p = s.pipeline.as_ref().unwrap();
    assert_eq!(p.planes(6).unwrap().0, &frame(4, 2, 99)[..8]);
}

#[test]
fn short_frame_is_not_uploaded() {
    let mut s = Storage::new();
    let alive = live();
    primitive(6, &alive, vec![1, 2, 3], (4, 2), true).prepare(&mut s, 0, rect(0));
    assert!(s.pipeline.as_ref().unwrap().stream_ids().is_empty());
}

#[test]
fn request_reclaims_torn_down_streams() {
    let mut s = Storage::new();
    let a = live();
    let b = live();
    primitive(1, &a, frame(2, 2, 0), (2, 2), true).prepare(&mut s, 0, rect(0));
    primitive(2, &b, frame(2, 2, 0), (2, 2), true).prepare(&mut s, 0, rect(0));
    a.store(false, Ordering::SeqCst);
    let removed = primitive(2, &b, frame(2, 2, 0), (2, 2), false).prepare(&mut s, 0, rect(1));
    assert_eq!(removed, vec![1]);
    let vp = Viewport { x: 0, y: 0, width: 8, height: 8 };
    assert_eq!(primitive(1, &a, vec![], (2, 2), false).render(&s, vp), None);
    assert!(primitive(2, &b, vec![], (2, 2), false).render(&s, vp).is_some());
}

#[test]
fn render_before_pipeline_draws_nothing() {
    let s = Storage::new();
    let vp = Viewport { x: 0, y: 0, width: 8, height: 8 };
    assert_eq!(primitive(1, &live(), vec![], (2, 2), false).render(&s, vp), None);
}

#[test]
fn mailbox_flag_is_taken_once() {
    let fb = FrameBuffer::new(vec![0u8; 6]);
    assert!(!fb.take_new_frame());
    assert!(fb.publish(frame(2, 2, 4)));
    assert!(fb.take_new_frame());
    assert!(!fb.take_new_frame());
}

#[test]
fn mailbox_latest_frame_wins() {
    let fb = FrameBuffer::new(vec![0u8; 6]);
    fb.publish(frame(2, 2, 1));
    fb.publish(frame(2, 2, 2));
    let alive = live();
    let prim = fb.primitive(5, &alive, (2, 2));
    assert!(prim.upload_frame);
    assert!(!fb.primitive(5, &alive, (2, 2)).upload_frame);
    let mut s = Storage::new();
    prim.prepare(&mut s, 0, rect(0));
    assert_eq!(s.pipeline.as_ref().unwrap().planes(5).unwrap().0, &frame(2, 2, 2)[..4]);
}

#[test]
fn dead_of_picks_false_readings() {
    assert_eq!(dead_of(&vec![1, 2, 3, 4], &vec![true, false, true, false]), vec![2, 4]);
    assert!(dead_of(&vec![1, 2], &vec![true, true]).is_empty());
    assert!(dead_of(&vec![], &vec![]).is_empty());
}

#[test]
fn upload_read_uploads_only_a_whole_new_frame() {
    let alive = live();
    let mut p = VideoPipeline::new(0);
    let prim = primitive(3, &alive, vec![], (2, 2), true);
    prim.upload_read(&mut p, None);
    assert!(p.stream_ids().is_empty());
    prim.upload_read(&mut p, Some(vec![1, 2, 3]));
    assert!(p.stream_ids().is_empty());
    prim.upload_read(&mut p, Some(frame(2, 2, 7)));
    assert_eq!(p.planes(3).unwrap().0, &frame(2, 2, 7)[..4]);
    let stale = primitive(3, &alive, vec![], (2, 2), false);
    stale.upload_read(&mut p, Some(frame(2, 2, 9)));
    assert_eq!(p.planes(3).unwrap().0, &frame(2, 2, 7)[..4]);
    let odd = primitive(4, &alive, vec![], (3, 2), true);
    odd.upload_read(&mut p, Some(vec![0u8; 9]));
    assert_eq!(p.stream_ids(), vec![3]);
}

#[test]
fn primitive_shares_slot_and_flag() {
    let fb = FrameBuffer::new(vec![0u8; 6]);
    let alive = live();
    let prim = fb.primitive(1, &alive, (2, 2));
    assert!(Arc::ptr_eq(&prim.frame, &fb.frame));
    assert!(Arc::ptr_eq(&prim.alive, &alive));
}
