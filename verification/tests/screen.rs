use chat_server::chat_ui::{ChatUI, Tone};
use chat_server::layout::{try_split, Area, Split};
use tui::layout::{Constraint, Direction, Layout, Rect};

fn s(x: &str) -> String {
    x.to_string()
}

#[test]
fn logs_grow_and_users_are_removed() {
    let mut ui = ChatUI::new();
    ui.push_message(s("m1"));
    ui.push_error(s("e1"));
    ui.add_user(s("bob"));
    ui.add_user(s("al"));
    ui.add_user(s("bob"));
    ui.delete_user("bob");
    let plan = ui.draw(Area { x: 0, y: 0, width: 90, height: 30 }).unwrap();
    assert_eq!(plan.panes[0].lines, vec![s("m1")]);
    assert_eq!(plan.panes[1].lines, vec![s("al")]);
    assert_eq!(plan.panes[2].lines, vec![s("e1")]);
}

#[test]
fn add_then_delete_is_delete() {
    let mut a = ChatUI::new();
    a.add_user(s("x"));
    a.add_user(s("y"));
    a.add_user(s("y"));
    a.delete_user("y");
    let screen = Area { x: 0, y: 0, width: 40, height: 20 };
    let lines = a.draw(screen).unwrap().panes[1].lines.clone();
    assert_eq!(lines, vec![s("x")]);
}

#[test]
fn drawing_has_three_titled_panes() {
    let mut ui = ChatUI::new();
    ui.push_error(s("boom"));
    let screen = Area { x: 0, y: 0, width: 80, height: 24 };
    let plan = ui.draw(screen).unwrap();
    assert_eq!(plan.frame_title, "[X5-Chat Server]");
    let titles: Vec<&str> = plan.panes.iter().map(|p| p.title.as_str()).collect();
    assert_eq!(titles, vec!["Message logs", "Current users", "Error logs"]);
    assert_eq!(plan.panes[0].tone, Tone::Normal);
    assert_eq!(plan.panes[1].tone, Tone::Normal);
    assert_eq!(plan.panes[2].tone, Tone::Alert);
}

fn tui_split(direction: Direction, percents: &[u16], area: Rect) -> Vec<Rect> {
    Layout::default()
        .direction(direction)
        .margin(1)
        .constraints(percents.iter().map(|p| Constraint::Percentage(*p)).collect::<Vec<_>>())
        .split(area)
}

#[test]
fn drawing_uses_tui_layout() {
    let ui = ChatUI::new();
    let screen = Area { x: 0, y: 0, width: 80, height: 24 };
    let plan = ui.draw(screen).unwrap();
    let chunks = tui_split(Direction::Vertical, &[10, 80, 10], Rect { x: 0, y: 0, width: 80, height: 24 });
    let inner = tui_split(Direction::Horizontal, &[33, 34, 33], chunks[1]);
    let as_area = |r: Rect| Area { x: r.x, y: r.y, width: r.width, height: r.height };
    assert_eq!(plan.frame, as_area(chunks[1]));
    assert_ne!(plan.frame, screen);
    for k in 0..3 {
        assert_eq!(plan.panes[k].area, as_area(inner[k]));
    }
}

#[test]
fn split_refuses_overflowing_sizes() {
    let tall = Area { x: 0, y: 0, width: 10, height: 2000 };
    assert!(try_split(Split::Vertical, 1, &vec![10, 80, 10], tall).is_none());
    assert!(ChatUI::new().draw(tall).is_none());
    let wide = Area { x: 0, y: 0, width: 3000, height: 20 };
    assert!(ChatUI::new().draw(wide).is_none());
    let pieces = try_split(Split::Horizontal, 0, &vec![50, 50], Area { x: 0, y: 0, width: 10, height: 1 }).unwrap();
    assert_eq!(pieces.len(), 2);
}

#[test]
fn split_refuses_areas_past_the_last_cell() {
    let edge = Area { x: 65000, y: 0, width: 1000, height: 10 };
    assert!(try_split(Split::Vertical, 0, &vec![50, 50], edge).is_none());
    let low = Area { x: 0, y: 65000, width: 10, height: 1000 };
    assert!(try_split(Split::Horizontal, 0, &vec![50, 50], low).is_none());
    assert!(try_split(Split::Vertical, 0, &vec![50, 50], low).is_some());
}

#[test]
fn split_pieces_lie_within_the_area() {
    let area = Area { x: 3, y: 5, width: 101, height: 47 };
    for split in [Split::Vertical, Split::Horizontal] {
        let pieces = try_split(split, 2, &vec![10, 80, 10], area).unwrap();
        for p in pieces {
            assert!(p.width <= 97 + 1 && p.height <= 43 + 1);
            assert!(p.x as u32 + p.width as u32 <= 5 + 97 + 1);
            assert!(p.y as u32 + p.height as u32 <= 7 + 43 + 1);
        }
    }
}

#[test]
fn ordinary_screens_are_drawn() {
    for (w, h) in [(1u16, 1u16), (2, 2), (80, 24), (1927, 821)] {
        assert!(ChatUI::new().draw(Area { x: 0, y: 0, width: w, height: h }).is_some());
    }
}

#[test]
fn drawing_twice_gives_the_same_plan() {
    let mut ui = ChatUI::new();
    ui.push_message(s("hello"));
    ui.add_user(s("bob"));
    let screen = Area { x: 0, y: 0, width: 120, height: 40 };
    let first = ui.draw(screen).unwrap();
    let second = ui.draw(screen).unwrap();
    assert_eq!(first, second);
    assert!(first.panes[0].area.x < first.panes[1].area.x && first.panes[1].area.x < first.panes[2].area.x);
}
