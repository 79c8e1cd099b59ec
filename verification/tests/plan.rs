use ccweb::lines::ClearedLines;
use ccweb::model::{CellColor, LockResult};
use ccweb::plan::{plan_color, plan_row_maps, remap};

fn lock(rows: &[i32], clear: bool, hard: bool, pc: bool) -> LockResult {
    let cleared_lines = ClearedLines::from_rows(rows);
    LockResult { kind_name: String::new(), is_clear: clear, is_hard: hard, cleared_lines, combo: None, b2b: false, perfect_clear: pc }
}

fn identity() -> Vec<i32> {
    (0..40).collect()
}

#[test]
fn remap_one_cleared_row() {
    let m = remap(&identity(), &lock(&[2], true, false, false));
    assert_eq!(m.len(), 40);
    assert_eq!(&m[..4], &[0, 1, 3, 4]);
    assert_eq!(m[38], 39);
    assert_eq!(m[39], 0);
}

#[test]
fn remap_no_clear_is_unchanged() {
    let m = remap(&identity(), &lock(&[], false, false, false));
    assert_eq!(m, identity());
}

#[test]
fn remap_composes() {
    let first = remap(&identity(), &lock(&[0, 1], true, false, false));
    assert_eq!(&first[..3], &[2, 3, 4]);
    assert_eq!(&first[37..], &[39, 0, 0]);
    let second = remap(&first, &lock(&[1], true, false, false));
    assert_eq!(&second[..3], &[2, 4, 5]);
}

#[test]
fn plan_stops_after_hard_clear() {
    let plan = vec![lock(&[], false, false, false), lock(&[0], true, true, false), lock(&[], false, false, false)];
    let maps = plan_row_maps(&plan);
    assert_eq!(maps.len(), 2);
    assert_eq!(maps[0], identity());
    assert_eq!(maps[1], identity());
}

#[test]
fn plan_with_perfect_clear_goes_on_to_it() {
    let plan = vec![
        lock(&[0], true, true, false),
        lock(&[0, 1], true, false, true),
        lock(&[], false, false, false),
    ];
    let maps = plan_row_maps(&plan);
    assert_eq!(maps.len(), 2);
    assert_eq!(maps[1][0], 1);
}

#[test]
fn plan_without_stop_is_shown_whole() {
    let plan = vec![lock(&[], false, false, false), lock(&[3], true, false, false), lock(&[], false, false, false)];
    let maps = plan_row_maps(&plan);
    assert_eq!(maps.len(), 3);
    assert!(maps.iter().all(|m| m.len() == 40));
    assert_eq!(maps[2][3], 4);
    assert!(plan_row_maps(&vec![]).is_empty());
}

#[test]
fn plan_colors() {
    assert_eq!(plan_color(CellColor::Z), "rgb(255, 32, 32)");
    assert_eq!(plan_color(CellColor::S), "rgb(32, 255, 32)");
    assert_eq!(plan_color(CellColor::O), "rgb(255, 255, 32)");
    assert_eq!(plan_color(CellColor::L), "rgb(255, 143, 32)");
    assert_eq!(plan_color(CellColor::J), "rgb(96, 96, 255)");
    assert_eq!(plan_color(CellColor::I), "rgb(32, 255, 255)");
    assert_eq!(plan_color(CellColor::T), "rgb(143, 32, 255)");
    assert_eq!(plan_color(CellColor::Garbage), "");
}
