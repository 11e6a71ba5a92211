use adbs::layout::{centered_rect, confirm_areas, main_areas, Rect};

fn rect(x: u16, y: u16, width: u16, height: u16) -> Rect {
    Rect { x, y, width, height }
}

fn hundredths(extent: u32, percent: u32) -> u32 {
    (extent * percent + 50) / 100
}

#[test]
fn the_question_stands_in_the_middle() {
    assert_eq!(centered_rect(75, 50, rect(0, 0, 80, 24)), rect(10, 6, 60, 12));
    assert_eq!(centered_rect(50, 50, rect(3, 4, 10, 10)), rect(6, 7, 5, 5));
    assert_eq!(centered_rect(100, 0, rect(1, 2, 30, 9)), rect(1, 7, 30, 0));
    assert_eq!(centered_rect(75, 50, rect(0, 0, 0, 0)), rect(0, 0, 0, 0));
    assert_eq!(centered_rect(0, 100, rect(65530, 0, 100, 5)), rect(65533, 0, 0, 5));
}

#[test]
fn percentages_are_rounded_to_the_nearest_cell() {
    for size in 0..=150u16 {
        for percent in [1u16, 33, 50, 75, 98] {
            let r = centered_rect(percent, 50, rect(7, 2, size, 20));
            let side = (100 - percent as u32) / 2;
            let left = hundredths(size as u32, side);
            let right = hundredths(size as u32, side + percent as u32);
            assert_eq!((r.x as u32, r.width as u32), (7 + left, right - left));
            assert_eq!((r.y, r.height), (7, 10));
        }
    }
}

#[test]
fn the_middle_lies_inside() {
    for width in [0u16, 1, 2, 9, 40, 97, 131] {
        let outer = rect(5, 6, width, width / 2);
        let r = centered_rect(75, 50, outer);
        assert!(r.x >= 5 && r.x + r.width <= 5 + width);
        assert!(r.y >= 6 && r.y + r.height <= 6 + width / 2);
        let left = (r.x - 5) as i32;
        let right = (5 + width - r.x - r.width) as i32;
        assert!(left - 1 <= right && right <= left + 1 + width as i32 / 100);
    }
}

#[test]
fn the_header_takes_three_rows() {
    let areas = main_areas(rect(0, 0, 80, 24));
    assert_eq!(areas.header, rect(0, 0, 80, 3));
    assert_eq!(areas.list, rect(0, 3, 80, 21));
    for height in 0..=40u16 {
        let areas = main_areas(rect(1, 2, 9, height));
        assert_eq!(areas.header, rect(1, 2, 9, height.min(3)));
        assert_eq!(areas.list, rect(1, 2 + height.min(3), 9, height - height.min(3)));
    }
}

#[test]
fn the_question_has_its_rows() {
    let areas = confirm_areas(rect(0, 0, 80, 24));
    assert_eq!(areas.frame, rect(10, 6, 60, 12));
    assert_eq!(areas.title, rect(11, 7, 58, 1));
    assert_eq!(areas.description, rect(11, 9, 58, 4));
    assert_eq!(areas.question, rect(11, 14, 58, 1));
    assert_eq!(areas.buttons, rect(11, 16, 58, 1));
    assert_eq!(areas.keep, rect(11, 16, 29, 1));
    assert_eq!(areas.clear, rect(40, 16, 29, 1));
}

#[test]
fn the_question_stays_in_its_frame() {
    for height in 0..=60u16 {
        for width in [0u16, 1, 2, 3, 40, 121] {
            let areas = confirm_areas(rect(3, 1, width, height));
            let frame = areas.frame;
            let rows = frame.height.saturating_sub(2);
            for part in [areas.title, areas.description, areas.question, areas.buttons] {
                assert!(part.y >= frame.y && part.y + part.height <= frame.y + frame.height);
                assert_eq!(part.width, frame.width.saturating_sub(2));
            }
            if rows >= 10 {
                assert_eq!(areas.description.height, rows - 6);
                assert_eq!(areas.question.y, frame.y + 1 + rows - 3);
                assert_eq!(areas.buttons.y, frame.y + 1 + rows - 1);
            }
            let half = hundredths(areas.buttons.width as u32, 50) as u16;
            assert_eq!(areas.keep, Rect { width: half, ..areas.buttons });
            assert_eq!(areas.clear.x, areas.buttons.x + half);
            assert_eq!(areas.clear.width, areas.buttons.width - half);
        }
    }
}

#[test]
fn the_parts_of_the_question_stand_in_order() {
    for height in 0..=60u16 {
        let areas = confirm_areas(rect(0, 2, 80, height));
        let top = areas.frame.y + u16::from(areas.frame.height > 0);
        let rows = areas.frame.height.saturating_sub(2);
        let parts = [areas.title, areas.description, areas.question, areas.buttons];
        assert_eq!(areas.title.y, top);
        assert_eq!(areas.buttons.y + areas.buttons.height, top + rows);
        for i in 0..3 {
            let end = parts[i].y + parts[i].height;
            assert!(end <= parts[i + 1].y && parts[i + 1].y <= end + 1, "{:?}", areas);
        }
        for i in [0, 2, 3] {
            assert!(parts[i].height <= 1);
        }
    }
}

#[test]
fn the_description_keeps_four_rows_on_low_screens() {
    for height in 0..24u16 {
        let areas = confirm_areas(rect(0, 0, 80, height));
        let top = areas.frame.y + u16::from(areas.frame.height > 0);
        let rows = areas.frame.height.saturating_sub(2);
        assert!(rows < 10);
        assert_eq!(areas.description.height, rows.min(4), "height {}", height);
        if rows <= 4 {
            assert_eq!((areas.title.y, areas.title.height), (top, 0));
            assert_eq!((areas.description.y, areas.description.height), (top, rows));
            assert_eq!((areas.question.y, areas.question.height), (top + rows, 0));
            assert_eq!((areas.buttons.y, areas.buttons.height), (top + rows, 0));
        }
    }
}

#[test]
fn each_low_frame_has_its_rows() {
    // For the rows inside: where the title, the description, the question and the buttons start,
    // and how many rows they have.
    let expected = [
        (3u16, [(0u16, 0u16), (0, 3), (3, 0), (3, 0)]),
        (4, [(0, 0), (0, 4), (4, 0), (4, 0)]),
        (5, [(0, 1), (1, 4), (5, 0), (5, 0)]),
        (6, [(0, 1), (2, 4), (6, 0), (6, 0)]),
        (7, [(0, 1), (2, 4), (6, 1), (7, 0)]),
        (8, [(0, 1), (2, 4), (7, 0), (8, 0)]),
        (9, [(0, 1), (2, 4), (7, 1), (8, 1)]),
        (10, [(0, 1), (2, 4), (7, 1), (9, 1)]),
        (11, [(0, 1), (2, 5), (8, 1), (10, 1)]),
    ];
    let mut seen = 0;
    for y in [0u16, 1, 40, 333] {
        for height in 8..=27u16 {
            let areas = confirm_areas(rect(0, y, 60, height));
            let top = areas.frame.y + 1;
            for (rows, parts) in expected {
                if areas.frame.height == rows + 2 {
                    seen += 1;
                    let found = [areas.title, areas.description, areas.question, areas.buttons];
                    for i in 0..4 {
                        assert_eq!((found[i].y - top, found[i].height), parts[i], "{} {}", rows, i);
                    }
                }
            }
        }
    }
    assert!(seen >= 36);
}
