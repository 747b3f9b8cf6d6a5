use raytracing::frame::Frame;

#[test]
fn reference_width_gives_562_rows() {
    let f = Frame::from_width(1000);
    assert_eq!(f.width, 1000);
    assert_eq!(f.height, 562);
    assert_eq!(f.pixel_count(), 562_000);
    assert_eq!(f.byte_len(), 1_686_000);
}

#[test]
fn height_rounds_down() {
    assert_eq!(Frame::from_width(16).height, 9);
    assert_eq!(Frame::from_width(17).height, 9);
    assert_eq!(Frame::from_width(1).height, 0);
    assert_eq!(Frame::from_width(0).height, 0);
    assert_eq!(Frame::from_width(u32::MAX).height, 2_415_919_103);
}

#[test]
fn first_pixel_is_left_end_of_top_row() {
    let f = Frame::from_width(1000);
    assert_eq!(f.pixel_at(0), (0, 561));
    assert_eq!(f.order_of(0, 561), 0);
}

#[test]
fn rows_are_written_top_down_left_to_right() {
    let f = Frame { width: 4, height: 3 };
    let order: Vec<(u32, u32)> = (0..12).map(|k| f.pixel_at(k)).collect();
    assert_eq!(
        order,
        vec![
            (0, 2), (1, 2), (2, 2), (3, 2),
            (0, 1), (1, 1), (2, 1), (3, 1),
            (0, 0), (1, 0), (2, 0), (3, 0),
        ]
    );
    assert_eq!(f.pixel_at(11), (3, 0));
    assert_eq!(f.order_of(3, 0), 11);
    assert_eq!(f.order_of(2, 1), 6);
}

#[test]
fn render_order_round_trips() {
    let f = Frame::from_width(37);
    for k in 0..f.pixel_count() {
        let (i, j) = f.pixel_at(k);
        assert_eq!(f.order_of(i, j), k);
    }
}
