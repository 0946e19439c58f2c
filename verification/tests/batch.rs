use fathom::batch::{Batcher, RenderOp, TextureSlot, Topology, DEFAULT_ARENA, MIN_ARENA};
use fathom::pack::{
    pack_fan, pack_frames, pack_line_strip, pack_outline, pack_quad, pack_quads, pack_segment,
    pack_segments,
};

const FULL: [u32; 4] = [0, 0, 640, 480];
const PANEL: [u32; 4] = [320, 0, 320, 480];

fn draws(ops: &[RenderOp]) -> Vec<(u32, u32)> {
    ops.iter()
        .filter_map(|op| match op {
            RenderOp::Draw(s, e) => Some((*s, *e)),
            _ => None,
        })
        .collect()
}

#[test]
fn the_arena_is_never_smaller_than_its_floor() {
    let b: Batcher<u32, ()> = Batcher::new(10);
    assert_eq!(b.batch_limit(), MIN_ARENA);
    let b: Batcher<u32, ()> = Batcher::new(DEFAULT_ARENA);
    assert_eq!(b.batch_limit(), 65536);
}

#[test]
fn consecutive_draws_with_the_same_state_merge() {
    let mut b: Batcher<u32, ()> = Batcher::new(1024);
    for i in 0..100u32 {
        pack_segment(&mut b, FULL, 2 * i, 2 * i + 1);
    }
    assert_eq!(b.cmds().len(), 1);
    let ops = b.render();
    assert_eq!(
        ops,
        vec![
            RenderOp::Chunk(0),
            RenderOp::Viewport(FULL),
            RenderOp::Pipeline(Topology::Lines),
            RenderOp::Texture(0),
            RenderOp::Draw(0, 200),
        ]
    );
    assert_eq!(b.peak(), 200);
    assert_eq!(b.chunk_vertices(0), (0..200u32).collect::<Vec<_>>().as_slice());
}

#[test]
fn a_change_of_state_opens_a_new_command_and_binds_only_what_changed() {
    let mut b: Batcher<u32, &str> = Batcher::new(1024);
    pack_segment(&mut b, FULL, 1, 2);
    pack_segment(&mut b, PANEL, 3, 4);
    pack_quad(&mut b, PANEL, Some(TextureSlot { key: 7, handle: "video" }), [5, 6, 7, 8]);
    pack_quad(&mut b, PANEL, Some(TextureSlot { key: 7, handle: "video" }), [9, 10, 11, 12]);
    pack_quad(&mut b, PANEL, Some(TextureSlot { key: 8, handle: "depth" }), [13, 14, 15, 16]);
    assert_eq!(b.cmds().len(), 4);
    let ops = b.render();
    assert_eq!(
        ops,
        vec![
            RenderOp::Chunk(0),
            RenderOp::Viewport(FULL),
            RenderOp::Pipeline(Topology::Lines),
            RenderOp::Texture(0),
            RenderOp::Draw(0, 2),
            RenderOp::Viewport(PANEL),
            RenderOp::Draw(2, 4),
            RenderOp::Pipeline(Topology::Triangles),
            RenderOp::Texture(2),
            RenderOp::Draw(4, 16),
            RenderOp::Texture(3),
            RenderOp::Draw(16, 22),
        ]
    );
    assert_eq!(b.cmds()[2].texture.as_ref().map(|t| t.handle), Some("video"));
    assert_eq!(
        b.chunk_vertices(0),
        &[1, 2, 3, 4, 5, 6, 7, 5, 7, 8, 9, 10, 11, 9, 11, 12, 13, 14, 15, 13, 15, 16]
    );
}

#[test]
fn a_frame_that_overflows_the_arena_still_draws_everything() {
    let mut b: Batcher<u32, ()> = Batcher::new(DEFAULT_ARENA);
    let pts: Vec<u32> = (0..80_000).collect();
    pack_line_strip(&mut b, FULL, &pts, &|p: &u32| *p);
    let ops = b.render();
    assert!(b.peak() > 64 * 1024);
    assert_eq!(b.peak(), 2 * 79_999);
    assert_eq!(b.chunks_used(), 3);
    let ds = draws(&ops);
    assert_eq!(ds, vec![(0, 65_536), (0, 65_536), (0, 2 * 79_999 - 2 * 65_536)]);
    let mut all: Vec<u32> = Vec::new();
    for c in 0..3 {
        all.extend_from_slice(b.chunk_vertices(c));
    }
    let want: Vec<u32> = (0..79_999u32).flat_map(|i| [i, i + 1]).collect();
    assert_eq!(all, want);
    assert_eq!(all.last(), Some(&79_999));
    assert!(ops.contains(&RenderOp::Chunk(2)));
}

#[test]
fn a_small_arena_overflows_into_a_second_chunk() {
    let mut b: Batcher<u32, ()> = Batcher::new(1024);
    let pts: Vec<u32> = (0..1000).collect();
    pack_line_strip(&mut b, FULL, &pts, &|p: &u32| *p);
    let ops = b.render();
    assert_eq!(b.chunks_used(), 2);
    assert_eq!(b.peak(), 2 * 999);
    let ds = draws(&ops);
    assert_eq!(ds, vec![(0, 1024), (0, 2 * 999 - 1024)]);
    let mut all: Vec<u32> = b.chunk_vertices(0).to_vec();
    all.extend_from_slice(b.chunk_vertices(1));
    let want: Vec<u32> = (0..999u32).flat_map(|i| [i, i + 1]).collect();
    assert_eq!(all, want);
    assert!(ops.contains(&RenderOp::Chunk(1)));
}

#[test]
fn a_new_frame_starts_empty_and_keeps_the_pool() {
    let mut b: Batcher<u32, ()> = Batcher::new(1024);
    pack_segments(&mut b, FULL, 600, &|i: usize| (i as u32, i as u32));
    let _ = b.render();
    assert_eq!(b.pool_size(), 2);
    b.begin_frame();
    assert_eq!(b.peak(), 0);
    assert_eq!(b.cmds().len(), 0);
    pack_segment(&mut b, FULL, 1, 2);
    let ops = b.render();
    assert_eq!(draws(&ops), vec![(0, 2)]);
    assert_eq!(b.pool_size(), 2);
    assert_eq!(b.peak(), 2);
}

#[test]
fn short_inputs_draw_nothing() {
    let mut b: Batcher<u32, ()> = Batcher::new(1024);
    pack_line_strip(&mut b, FULL, &[5u32], &|p: &u32| *p);
    pack_fan(&mut b, FULL, &[1u32, 2], &|p: &u32| *p);
    pack_fan(&mut b, FULL, &[] as &[u32], &|p: &u32| *p);
    let ops = b.render();
    assert_eq!(b.peak(), 0);
    assert!(draws(&ops).iter().all(|(s, e)| s == e));
}

#[test]
fn polygons_are_fans_from_the_first_point() {
    let mut b: Batcher<u32, ()> = Batcher::new(1024);
    pack_fan(&mut b, FULL, &[10u32, 11, 12, 13], &|p: &u32| *p);
    let _ = b.render();
    assert_eq!(b.chunk_vertices(0), &[10, 11, 12, 10, 12, 13]);
}

#[test]
fn outlines_and_quads() {
    let mut b: Batcher<u32, ()> = Batcher::new(1024);
    pack_outline(&mut b, FULL, [1, 2, 3, 4]);
    pack_quads(&mut b, FULL, 2, &|i: usize| {
        let k = 10 * (i as u32 + 1);
        [k, k + 1, k + 2, k + 3]
    });
    let _ = b.render();
    assert_eq!(
        b.chunk_vertices(0),
        &[1, 2, 2, 3, 3, 4, 4, 1, 10, 11, 12, 10, 12, 13, 20, 21, 22, 20, 22, 23]
    );
}

#[test]
fn long_runs_split_into_batches_that_fit() {
    let mut b: Batcher<u32, ()> = Batcher::new(1024);
    pack_quads(&mut b, FULL, 400, &|i: usize| [i as u32; 4]);
    let ops = b.render();
    assert_eq!(b.peak(), 2400);
    for (s, e) in draws(&ops) {
        assert!(e - s <= 1024);
    }
    assert_eq!(b.chunks_used(), 3);
}

#[test]
fn frames_draw_triads_then_bones() {
    let mut b: Batcher<u32, ()> = Batcher::new(1024);
    pack_frames(
        &mut b,
        FULL,
        3,
        &|i: usize| [100 * i as u32; 6],
        &|i: usize| (1000 + i as u32, 2000 + i as u32),
    );
    let _ = b.render();
    assert_eq!(
        b.chunk_vertices(0),
        &[0, 0, 0, 0, 0, 0, 100, 100, 100, 100, 100, 100, 200, 200, 200, 200, 200, 200, 1000, 2000, 1001, 2001]
    );
}

#[test]
fn many_frames_split_with_their_bones() {
    let mut b: Batcher<u32, ()> = Batcher::new(1024);
    pack_frames(&mut b, FULL, 300, &|i: usize| [i as u32; 6], &|i: usize| (i as u32, i as u32 + 1));
    let ops = b.render();
    assert_eq!(b.peak(), 300 * 6 + 299 * 2);
    assert_eq!(draws(&ops).iter().map(|(s, e)| e - s).sum::<u32>(), 300 * 6 + 299 * 2);
}
