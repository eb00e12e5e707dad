use chat_server::layout::{try_split, Area, Split};

fn near(a: i64, b: i64) -> bool {
    a - 1 <= b && b <= a + 1
}

/// Checks what the library states of a cut against tui's actual pieces.
fn check_cut(pieces: &[Area], area: Area, margin: u16, split: Split, percentages: &[u16]) {
    let m = margin as i64;
    let swallowed = (area.width as i64) < 2 * m || (area.height as i64) < 2 * m;
    let (ix, iy, iw, ih) = if swallowed {
        (0, 0, 0, 0)
    } else {
        (area.x as i64 + m, area.y as i64 + m, area.width as i64 - 2 * m, area.height as i64 - 2 * m)
    };
    let vertical = matches!(split, Split::Vertical);
    let along = |p: &Area| if vertical { (p.y as i64, p.height as i64) } else { (p.x as i64, p.width as i64) };
    let across = |p: &Area| if vertical { (p.x as i64, p.width as i64) } else { (p.y as i64, p.height as i64) };
    let (start, len) = if vertical { (iy, ih) } else { (ix, iw) };
    let (cstart, clen) = if vertical { (ix, iw) } else { (iy, ih) };
    let end = (start + len).min(65535);
    assert_eq!(pieces.len(), percentages.len());
    for (k, p) in pieces.iter().enumerate() {
        assert!(p.width as i64 <= iw + 1 && p.height as i64 <= ih + 1);
        assert!(p.x as i64 + p.width as i64 <= ix + iw + 1);
        assert!(p.y as i64 + p.height as i64 <= iy + ih + 1);
        let (a0, al) = along(p);
        let (c0, cl) = across(p);
        assert!(near(c0, cstart) && near(cl, clen), "{:?} {:?}", p, area);
        assert!(a0 + 1 >= start);
        if k + 1 < pieces.len() {
            assert!(near(a0 + al, along(&pieces[k + 1]).0), "{:?}", pieces);
        }
        let total: i64 = percentages.iter().map(|p| *p as i64).sum();
        if total == 100 && start + len <= 65535 {
            let d = 100 * al - percentages[k] as i64 * len;
            assert!(-100 <= d && d <= 100, "{:?} {:?} {:?}", pieces, area, percentages);
        }
    }
    if let Some(first) = pieces.first() {
        assert!(near(along(first).0, start));
    }
    if let Some(last) = pieces.last() {
        let (a0, al) = along(last);
        assert_eq!(a0 + al, end);
    }
}

#[test]
fn cuts_match_the_stated_shape() {
    let sets: [&[u16]; 7] = [&[10, 80, 10], &[33, 34, 33], &[50, 50], &[100], &[30, 30], &[1, 2, 97], &[25, 25, 25, 25]];
    for split in [Split::Vertical, Split::Horizontal] {
        for margin in 0..3u16 {
            for set in sets {
                for a in 0..120u16 {
                    for (x, y, b) in [(0u16, 0u16, 7u16), (3, 9, 40), (100, 2, 301)] {
                        let area = if matches!(split, Split::Vertical) {
                            Area { x, y, width: b, height: a }
                        } else {
                            Area { x, y, width: a, height: b }
                        };
                        if let Some(pieces) = try_split(split, margin, &set.to_vec(), area) {
                            check_cut(&pieces, area, margin, split, set);
                        }
                    }
                }
            }
        }
    }
}

#[test]
fn large_cuts_match_the_stated_shape() {
    for (w, h) in [(1927u16, 821u16), (1000, 500), (1500, 300), (65000, 1), (7, 65000)] {
        for split in [Split::Vertical, Split::Horizontal] {
            let area = Area { x: 0, y: 0, width: w, height: h };
            for set in [vec![10u16, 80, 10], vec![33, 34, 33], vec![1, 1]] {
                if let Some(pieces) = try_split(split, 1, &set, area) {
                    check_cut(&pieces, area, 1, split, &set);
                }
            }
        }
    }
}
