use sunflower_field::run::batch_count;
use sunflower_field::run::batch_range;
use sunflower_field::run::blit;
use sunflower_field::run::blit_rect;
use sunflower_field::run::compute_batch;
use sunflower_field::run::hit_test;
use sunflower_field::run::redraw_due;
use sunflower_field::run::RenderState;
use sunflower_field::run::ScrollEvent;
use sunflower_field::run::ScrollOffset;
use sunflower_field::utils::softbuffer_color;
use sunflower_field::utils::xy_from_index;
use sunflower_field::Art;

struct TestArt;

impl Art for TestArt {
    fn spec_full_m(&self) -> usize {
        4
    }

    fn spec_full_n(&self) -> usize {
        4
    }

    fn spec_draw(&self, x: usize, y: usize) -> (u8, u8, u8) {
        (x as u8, y as u8, 7)
    }

    fn full_m(&self) -> usize {
        4
    }

    fn full_n(&self) -> usize {
        4
    }

    fn draw(&self, x: usize, y: usize) -> (u8, u8, u8) {
        (x as u8, y as u8, 7)
    }
}

#[test]
fn pixel_stream_covers_every_index_exactly_once() {
    let art = TestArt;
    let width = art.full_m();
    let height = art.full_n();
    let total = width * height;
    let batch_size = 2;
    let count = batch_count(total, batch_size);
    assert_eq!(count, 8);

    let mut state = RenderState::new(width, height, u32::MAX);
    // Deliver the batches out of order, as a worker pool would.
    let order = [5, 0, 7, 2, 6, 1, 3, 4];
    let mut finishes = 0;
    for &counter in order.iter() {
        let (index, len) = batch_range(counter, batch_size, total);
        assert_eq!(index, counter * batch_size);
        assert_eq!(len, 2);
        let pixels = compute_batch(&art, width, index, len);
        let written = state.apply_batch(index, &pixels);
        assert_eq!(written, len);
        if state.finish_check() {
            finishes += 1;
        }
    }
    assert_eq!(state.drawn_count(), total, "all 16 pixels delivered, none twice");
    assert!(state.is_finished());
    assert_eq!(finishes, 1, "the finished transition fires exactly once");
    assert!(!state.finish_check(), "finishing is one-way");

    let image = state.image_ref();
    for index in 0..total {
        let (x, y) = xy_from_index(width, index);
        assert_eq!(image[index], softbuffer_color((x as u8, y as u8, 7)));
    }
}

#[test]
fn apply_batch_clips_past_the_end() {
    let mut state = RenderState::new(3, 1, 0);
    let pixels = vec![11, 22, 33, 44];
    let written = state.apply_batch(2, &pixels);
    assert_eq!(written, 1, "only the part inside the image is written");
    assert_eq!(state.image_ref(), &vec![0, 0, 11]);
    assert_eq!(state.drawn_count(), 1);
}

#[test]
fn batch_count_rounds_up() {
    assert_eq!(batch_count(16, 32), 1);
    assert_eq!(batch_count(32, 32), 1);
    assert_eq!(batch_count(33, 32), 2);
    assert_eq!(batch_count(0, 32), 0);
}

#[test]
fn batch_range_final_batch_is_partial() {
    let (start, len) = batch_range(2, 32, 70);
    assert_eq!(start, 64);
    assert_eq!(len, 6);
}

#[test]
fn blit_offset_past_source_yields_empty_rect() {
    let r = blit_rect(-20, 0, 10, 10, 6, 6);
    assert_eq!(r.take_x, 0, "a scroll of -20 on a 10-wide source leaves nothing");
    assert_eq!(r.skip_src_x, 10);
    assert_eq!(r.skip_dest_x, 0);

    let mut dest = vec![9u32; 36];
    let src: Vec<u32> = (0..100).collect();
    blit(&src, 10, 10, &mut dest, 6, 6, -20, 0);
    assert!(dest.iter().all(|&p| p == 0), "an empty blit clears and copies nothing");
}

#[test]
fn blit_positive_offset_clips_at_destination() {
    let r = blit_rect(2, 2, 10, 10, 6, 6);
    assert_eq!((r.skip_dest_x, r.skip_src_x, r.take_x), (2, 0, 4));
    assert_eq!((r.skip_dest_y, r.skip_src_y, r.take_y), (2, 0, 4));

    let src: Vec<u32> = (0..100).collect();
    let mut dest = vec![9u32; 36];
    blit(&src, 10, 10, &mut dest, 6, 6, 2, 2);
    for dy in 0..6usize {
        for dx in 0..6usize {
            let got = dest[dy * 6 + dx];
            if (2..6).contains(&dx) && (2..6).contains(&dy) {
                let expected = ((dy - 2) * 10 + (dx - 2)) as u32;
                assert_eq!(got, expected, "copied rectangle of 4 by 4 placed at (2, 2)");
            } else {
                assert_eq!(got, 0, "outside the rectangle the surface is cleared");
            }
        }
    }
}

#[test]
fn blit_negative_offset_skips_source_rows() {
    let src: Vec<u32> = (0..100).collect();
    let mut dest = vec![9u32; 36];
    blit(&src, 10, 10, &mut dest, 6, 6, -3, -4);
    for dy in 0..6usize {
        for dx in 0..6usize {
            let expected = ((dy + 4) * 10 + dx + 3) as u32;
            assert_eq!(dest[dy * 6 + dx], expected);
        }
    }
}

#[test]
fn blit_into_empty_surface_is_a_no_op() {
    let src: Vec<u32> = (0..100).collect();
    let mut dest: Vec<u32> = Vec::new();
    blit(&src, 10, 10, &mut dest, 0, 0, 3, -4);
    assert!(dest.is_empty());
}

#[test]
fn blit_huge_positive_offset_clears_everything() {
    let src: Vec<u32> = (0..100).collect();
    let mut dest = vec![5u32; 36];
    blit(&src, 10, 10, &mut dest, 6, 6, 1000, 1000);
    assert!(dest.iter().all(|&p| p == 0));
}

#[test]
fn scroll_events_move_and_reset() {
    let mut s = ScrollOffset::new();
    s.apply_event(ScrollEvent::ArrowRight);
    s.apply_event(ScrollEvent::ArrowRight);
    s.apply_event(ScrollEvent::ArrowLeft);
    s.apply_event(ScrollEvent::ArrowDown);
    s.apply_event(ScrollEvent::ArrowUp);
    s.apply_event(ScrollEvent::ArrowUp);
    assert_eq!((s.x, s.y), (20, -20));
    s.apply_event(ScrollEvent::Drag { dx: 5, dy: -7 });
    assert_eq!((s.x, s.y), (25, -27));
    s.apply_event(ScrollEvent::Reset);
    assert_eq!((s.x, s.y), (0, 0));
}

#[test]
fn wheel_swaps_axes_with_modifier() {
    let mut s = ScrollOffset::new();
    s.apply_event(ScrollEvent::Wheel { dx: 100, dy: 30, swap: false });
    assert_eq!((s.x, s.y), (100, 30));
    s.apply_event(ScrollEvent::Wheel { dx: 100, dy: 30, swap: true });
    assert_eq!((s.x, s.y), (130, 130));
}

#[test]
fn hit_test_respects_scroll_and_bounds() {
    let scroll = ScrollOffset { x: 10, y: -5 };
    assert_eq!(hit_test(15, 0, &scroll, 100, 50), Some((5, 5)));
    assert_eq!(hit_test(9, 0, &scroll, 100, 50), None, "left of the image");
    assert_eq!(hit_test(110, 0, &scroll, 100, 50), None, "right of the image");
    assert_eq!(hit_test(15, 46, &scroll, 100, 50), None, "below the image");
    assert_eq!(hit_test(0, 0, &ScrollOffset::new(), 100, 50), Some((0, 0)));
}

#[test]
fn redraw_throttles_to_refresh_interval() {
    // 60000 millihertz: one frame every 16666 microseconds.
    assert!(!redraw_due(16665, 60000));
    assert!(redraw_due(16666, 60000));
    assert!(redraw_due(1_000_000, 60000));
}

#[test]
fn softbuffer_color_packs_argb() {
    assert_eq!(softbuffer_color((0x11, 0x22, 0x33)), 0xFF112233);
    assert_eq!(softbuffer_color((0, 0, 0)), 0xFF000000);
    assert_eq!(softbuffer_color((255, 255, 255)), 0xFFFFFFFF);
}

#[test]
fn xy_from_index_is_row_major() {
    assert_eq!(xy_from_index(2000, 0), (0, 0));
    assert_eq!(xy_from_index(2000, 1999), (1999, 0));
    assert_eq!(xy_from_index(2000, 2000), (0, 1));
    assert_eq!(xy_from_index(2000, 4001), (1, 2));
}
