use ollama_shepherd::layout::{
    can_pop_up, detail_areas, gauge_areas, overview_areas, popup_area, popup_inner, screen_areas,
    screen_sizes, Area, Size,
};

fn area(x: u16, y: u16, width: u16, height: u16) -> Area {
    Area { x, y, width, height }
}

#[test]
fn header_content_and_footer() {
    assert_eq!(screen_sizes(), [Size::Length(3), Size::Min(0), Size::Length(3)]);
    assert_eq!(
        screen_areas(area(0, 0, 80, 24)),
        [area(0, 0, 80, 3), area(0, 3, 80, 18), area(0, 21, 80, 3)]
    );
    for part in screen_areas(area(5, 7, 80, 2)) {
        assert_eq!((part.x, part.width), (5, 80));
        assert!(part.y >= 7 && part.y + part.height <= 9);
    }
}

#[test]
fn table_and_chart() {
    assert_eq!(
        overview_areas(area(0, 3, 80, 30)),
        [area(0, 3, 80, 17), area(0, 20, 80, 13)]
    );
}

#[test]
fn gauges_and_chart() {
    assert_eq!(
        detail_areas(area(0, 3, 100, 20)),
        [area(0, 3, 46, 20), area(46, 3, 54, 20)]
    );
}

#[test]
fn stacked_gauges() {
    let parts = gauge_areas(area(0, 3, 40, 20), 3);
    assert_eq!(parts.len(), 3);
    assert_eq!(parts[0], area(0, 3, 40, 4));
    assert_eq!(parts[1], area(0, 7, 40, 4));
    assert!(gauge_areas(area(0, 3, 40, 20), 0).is_empty());
}

#[test]
fn a_popup_stands_in_the_middle() {
    let p = popup_area(area(0, 3, 80, 18));
    assert_eq!(p, area(9, 8, 62, 7));
    assert_eq!(popup_inner(p), area(10, 9, 60, 5));
    assert_eq!(popup_area(area(0, 3, 40, 4)), area(2, 3, 36, 7));
    assert_eq!(popup_area(area(0, 3, 3, 4)), area(1, 3, 0, 7));
    assert_eq!(popup_inner(area(1, 3, 0, 7)), area(0, 0, 0, 0));
}

#[test]
fn popups_without_coordinates() {
    assert!(can_pop_up(area(0, 0, 80, 24)));
    assert!(!can_pop_up(area(u16::MAX, 0, 80, 24)));
    assert!(!can_pop_up(area(0, u16::MAX, 80, 24)));
}

#[test]
fn cuts_at_every_size() {
    for h in 6..300 {
        let a = area(1, 2, 10, h);
        assert_eq!(
            screen_areas(a),
            [area(1, 2, 10, 3), area(1, 5, 10, h - 6), area(1, h - 1, 10, 3)]
        );
    }
    for h in 16..300 {
        let top = if h >= 19 { h - 13 } else { 6 };
        assert_eq!(
            overview_areas(area(1, 2, 10, h)),
            [area(1, 2, 10, top), area(1, 2 + top, 10, h - top)]
        );
    }
    for w in 0..600 {
        let cut = (46 * w + 50) / 100;
        assert_eq!(
            detail_areas(area(3, 2, w, 9)),
            [area(3, 2, cut, 9), area(3 + cut, 2, w - cut, 9)]
        );
    }
    for n in 0..9 {
        for h in 4 * n..60 {
            let parts = gauge_areas(area(0, 5, 9, h), n.into());
            for i in 0..n {
                assert_eq!(parts[i as usize], area(0, 5 + 4 * i, 9, 4));
            }
        }
    }
}

#[test]
fn a_short_overview() {
    assert_eq!(overview_areas(area(0, 0, 9, 15)), [area(0, 0, 9, 15)]);
    assert_eq!(overview_areas(area(0, 3, 80, 18)), [area(0, 3, 80, 6), area(0, 9, 80, 12)]);
}

#[test]
fn gauges_without_room_share_it_equally() {
    for y in [0, 5, 1000] {
        for n in 1..=8 {
            for h in 0..4 * n {
                let parts = gauge_areas(area(2, y, 9, h), n.into());
                for i in 0..n {
                    let (from, to) = ((2 * h * i + n) / (2 * n), (2 * h * (i + 1) + n) / (2 * n));
                    assert_eq!(parts[i as usize], area(2, y + from, 9, to - from), "{n} {h} {i}");
                }
            }
        }
    }
    let heights: Vec<u16> = gauge_areas(area(0, 0, 9, 10), 4).iter().map(|a| a.height).collect();
    assert_eq!(heights, [3, 2, 3, 2]);
}
