use node_sequencer::geom::{dist2, draw_arrow, isqrt, seg_dist2, Arrow, Point};

fn pt(x: i64, y: i64) -> Point {
    Point { x, y }
}

#[test]
fn squared_distance() {
    assert_eq!(dist2(pt(0, 0), pt(3, 4)), 25);
    assert_eq!(dist2(pt(-65536, -65536), pt(65536, 65536)), 2 * 131072 * 131072);
}

#[test]
fn segment_distance_keeps_off_the_ends() {
    // middle of the segment
    assert_eq!(seg_dist2(pt(50, 7), pt(0, 0), pt(100, 0), 50), 49);
    // beyond the end: measured to three quarters of the way
    assert_eq!(seg_dist2(pt(100, 0), pt(0, 0), pt(100, 0), 50), 625);
    // before the start: measured to a quarter of the way
    assert_eq!(seg_dist2(pt(-10, 0), pt(0, 0), pt(100, 0), 50), 1225);
    // no margin reaches the ends
    assert_eq!(seg_dist2(pt(100, 3), pt(0, 0), pt(100, 0), 0), 9);
    // a single point
    assert_eq!(seg_dist2(pt(3, 4), pt(0, 0), pt(0, 0), 50), 25);
    // rounded down
    assert_eq!(seg_dist2(pt(1, 0), pt(0, 0), pt(1, 1), 0), 0);
}

#[test]
fn integer_square_root() {
    assert_eq!(isqrt(0), 0);
    assert_eq!(isqrt(24), 4);
    assert_eq!(isqrt(25), 5);
    assert_eq!(isqrt(0x8_0000_0000), 185363);
}

#[test]
fn arrow_between_two_nodes() {
    let a = draw_arrow(pt(0, 0), pt(100, 0));
    assert_eq!(
        a,
        Arrow { start: pt(14, 0), tip: pt(86, 0), left: pt(72, -5), right: pt(72, 5) }
    );
    let b = draw_arrow(pt(0, 0), pt(0, -50));
    assert_eq!(
        b,
        Arrow { start: pt(0, -14), tip: pt(0, -36), left: pt(-5, -22), right: pt(5, -22) }
    );
    let c = draw_arrow(pt(7, 7), pt(7, 7));
    assert_eq!(c, Arrow { start: pt(7, 7), tip: pt(7, 7), left: pt(7, 7), right: pt(7, 7) });
}
