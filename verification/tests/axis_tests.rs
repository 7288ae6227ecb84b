use mandelbrot::axis::Axis;

#[test]
fn axis_new_computes_the_range() {
    let a = Axis::new(-2i64, 1i64);
    assert_eq!(a.min, -2);
    assert_eq!(a.max, 1);
    assert_eq!(a.range, 3);
}

#[test]
fn axis_maps_zero_to_min_and_one_to_max() {
    let a = Axis::new(-2i64, 1i64);
    assert_eq!(a.map(0), -2);
    assert_eq!(a.map(1), 1);
    assert_eq!(a.map(2), 4);
}

#[test]
fn axis_map_is_monotonic() {
    let a = Axis::new(-1000i64, 2000i64);
    let mut last = a.map(-50);
    for t in -49..50i64 {
        let p = a.map(t);
        assert!(last <= p);
        last = p;
    }
}

#[test]
fn axis_descends_where_max_is_below_min() {
    let a = Axis::new(5i64, -5i64);
    assert_eq!(a.range, -10);
    assert_eq!(a.map(0), 5);
    assert_eq!(a.map(1), -5);
}
