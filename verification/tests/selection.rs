use archtrim::scanner::{AppInfo, ArchInfo};
use archtrim::selection::{
    all_selected, home_position, move_cursor, place_in_view, selected_targets, toggle_all,
    toggle_at, visible_positions, Direction,
};

fn item(name: &str, prunable: bool, selected: bool) -> AppInfo {
    let mut slices = vec![ArchInfo { cpu_type: "arm64".to_string(), size_bytes: None }];
    if prunable {
        slices.push(ArchInfo { cpu_type: "x86_64".to_string(), size_bytes: Some(4) });
    }
    let mut a = AppInfo::new(name.to_string(), String::new(), String::new(), slices);
    a.selected = selected;
    a
}

fn marks(v: &[AppInfo]) -> Vec<bool> {
    v.iter().map(|a| a.selected).collect()
}

#[test]
fn filter_shows_the_prunable_entries_or_all() {
    let list = vec![item("a", false, false), item("b", true, false), item("c", false, false), item("d", true, true)];
    assert_eq!(visible_positions(&list, false), vec![1, 3]);
    assert_eq!(visible_positions(&list, true), vec![0, 1, 2, 3]);
    assert_eq!(visible_positions(&Vec::new(), true), Vec::<usize>::new());
    assert_eq!(visible_positions(&vec![item("a", false, false)], false), Vec::<usize>::new());
}

#[test]
fn cursor_rests_on_the_first_prunable_entry() {
    assert_eq!(home_position(&vec![item("a", false, false), item("b", false, false), item("c", true, false)]), 2);
    assert_eq!(home_position(&vec![item("a", true, false), item("b", true, false)]), 0);
    assert_eq!(home_position(&vec![item("a", false, false)]), 0);
    assert_eq!(home_position(&Vec::new()), 0);
}

#[test]
fn cursor_walks_the_visible_entries_and_wraps() {
    let list = vec![item("a", true, false), item("b", false, false), item("c", true, false), item("d", false, false)];
    assert_eq!(move_cursor(&list, false, 0, Direction::Down), 2);
    assert_eq!(move_cursor(&list, false, 2, Direction::Down), 0);
    assert_eq!(move_cursor(&list, false, 0, Direction::Up), 2);
    assert_eq!(move_cursor(&list, false, 2, Direction::Up), 0);
    assert_eq!(move_cursor(&list, false, 1, Direction::Down), 2);
    assert_eq!(move_cursor(&list, false, 1, Direction::Up), 0);
    assert_eq!(move_cursor(&list, true, 0, Direction::Down), 1);
    assert_eq!(move_cursor(&list, true, 3, Direction::Down), 0);
    assert_eq!(move_cursor(&list, true, 0, Direction::Up), 3);
    assert_eq!(move_cursor(&list, true, 2, Direction::Up), 1);
}

#[test]
fn cursor_stays_where_nothing_else_is_visible() {
    let empty: Vec<AppInfo> = Vec::new();
    assert_eq!(move_cursor(&empty, true, 0, Direction::Down), 0);
    assert_eq!(move_cursor(&empty, false, 0, Direction::Up), 0);
    let hidden = vec![item("a", false, false), item("b", false, false)];
    assert_eq!(move_cursor(&hidden, false, 1, Direction::Down), 1);
    assert_eq!(move_cursor(&hidden, false, 0, Direction::Up), 0);
    let single = vec![item("a", false, false), item("b", true, false)];
    assert_eq!(move_cursor(&single, false, 1, Direction::Down), 1);
    assert_eq!(move_cursor(&single, false, 1, Direction::Up), 1);
    let one = vec![item("a", true, false)];
    assert_eq!(move_cursor(&one, true, 0, Direction::Down), 0);
    assert_eq!(move_cursor(&one, true, 7, Direction::Down), 7);
}

#[test]
fn toggle_turns_over_the_mark_of_a_prunable_entry() {
    let mut list = vec![item("a", true, false), item("b", true, true)];
    toggle_at(&mut list, 0);
    assert_eq!(marks(&list), vec![true, true]);
    toggle_at(&mut list, 1);
    assert_eq!(marks(&list), vec![true, false]);
    toggle_at(&mut list, 1);
    assert_eq!(marks(&list), vec![true, true]);
    toggle_at(&mut list, 2);
    assert_eq!(marks(&list), vec![true, true]);
}

#[test]
fn toggle_leaves_an_entry_without_the_removable_architecture() {
    let mut list = vec![item("a", false, false), item("b", false, true)];
    toggle_at(&mut list, 0);
    toggle_at(&mut list, 1);
    assert_eq!(marks(&list), vec![false, true]);
    toggle_all(&mut list);
    assert_eq!(marks(&list), vec![false, true]);
}

#[test]
fn toggle_all_selects_all_unless_all_are_selected() {
    let mut list = vec![item("a", true, true), item("b", false, false), item("c", true, false)];
    assert!(!all_selected(&list));
    toggle_all(&mut list);
    assert_eq!(marks(&list), vec![true, false, true]);
    assert!(all_selected(&list));
    toggle_all(&mut list);
    assert_eq!(marks(&list), vec![false, false, false]);
    toggle_all(&mut list);
    assert_eq!(marks(&list), vec![true, false, true]);
}

#[test]
fn toggle_all_twice_restores_marks_that_agreed() {
    let mut none = vec![item("a", true, false), item("b", false, true), item("c", true, false)];
    toggle_all(&mut none);
    toggle_all(&mut none);
    assert_eq!(marks(&none), vec![false, true, false]);
    let mut all = vec![item("a", true, true), item("b", true, true)];
    toggle_all(&mut all);
    assert_eq!(marks(&all), vec![false, false]);
    toggle_all(&mut all);
    assert_eq!(marks(&all), vec![true, true]);
    let mut empty: Vec<AppInfo> = Vec::new();
    assert!(all_selected(&empty));
    toggle_all(&mut empty);
    assert!(empty.is_empty());
}

#[test]
fn toggle_all_twice_deselects_marks_that_differed() {
    let mut mixed = vec![item("a", true, true), item("b", true, false)];
    toggle_all(&mut mixed);
    toggle_all(&mut mixed);
    assert_eq!(marks(&mixed), vec![false, false]);
}

#[test]
fn targets_are_the_marked_prunable_entries_in_order() {
    let list = vec![
        item("a", true, true),
        item("b", false, true),
        item("c", true, false),
        item("d", true, true),
    ];
    let chosen = selected_targets(&list);
    let names: Vec<&str> = chosen.iter().map(|a| a.name.as_str()).collect();
    assert_eq!(names, vec!["a", "d"]);
    assert!(chosen.iter().all(|a| a.selected && a.has_x86_64()));
    assert!(selected_targets(&vec![item("b", false, true)]).is_empty());
}

#[test]
fn place_of_an_entry_in_the_filtered_view() {
    let list = vec![item("a", false, false), item("b", true, false), item("c", false, false), item("d", true, true)];
    assert_eq!(place_in_view(&list, false, 1), Some(0));
    assert_eq!(place_in_view(&list, false, 3), Some(1));
    assert_eq!(place_in_view(&list, false, 0), None);
    assert_eq!(place_in_view(&list, false, 4), None);
    assert_eq!(place_in_view(&list, true, 2), Some(2));
    assert_eq!(place_in_view(&Vec::new(), true, 0), None);
}

fn walk_with_remainders(prunable: &[bool], show_all: bool, cursor: usize, down: bool) -> usize {
    let len = prunable.len();
    if len == 0 {
        return cursor;
    }
    for offset in 1..len {
        let next = if down { (cursor + offset) % len } else { (cursor + len - offset) % len };
        if show_all || prunable[next] {
            return next;
        }
    }
    cursor
}

#[test]
fn cursor_moves_as_by_counting_round_the_list() {
    let mut seed: u64 = 7;
    let mut draw = |below: usize| {
        seed = seed.wrapping_mul(6364136223846793005).wrapping_add(1442695040888963407);
        ((seed >> 33) as usize) % below
    };
    for _ in 0..600 {
        let len = draw(9);
        let flags: Vec<bool> = (0..len).map(|_| draw(3) == 0).collect();
        let list: Vec<AppInfo> = flags.iter().map(|&p| item("x", p, false)).collect();
        for cursor in 0..len {
            for show_all in [false, true] {
                assert_eq!(
                    move_cursor(&list, show_all, cursor, Direction::Down),
                    walk_with_remainders(&flags, show_all, cursor, true)
                );
                assert_eq!(
                    move_cursor(&list, show_all, cursor, Direction::Up),
                    walk_with_remainders(&flags, show_all, cursor, false)
                );
            }
        }
    }
}
