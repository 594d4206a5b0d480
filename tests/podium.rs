use duck_server::podium::{select_podium, Standing};

fn st(id: u32, score: u32) -> Standing {
    Standing { id, score }
}

#[test]
fn podium_takes_best_three_in_order() {
    let entries = vec![st(10, 1), st(11, 7), st(12, 3), st(13, 5), st(14, 0)];
    assert_eq!(select_podium(&entries), vec![st(11, 7), st(13, 5), st(12, 3)]);
}

#[test]
fn podium_breaks_ties_by_lower_id() {
    let entries = vec![st(30, 4), st(20, 4), st(40, 4), st(10, 4)];
    assert_eq!(select_podium(&entries), vec![st(10, 4), st(20, 4), st(30, 4)]);
}

#[test]
fn podium_is_short_with_fewer_than_three_ducks() {
    assert_eq!(select_podium(&vec![st(5, 2), st(6, 9)]), vec![st(6, 9), st(5, 2)]);
    assert_eq!(select_podium(&vec![st(5, 0)]), vec![st(5, 0)]);
    assert!(select_podium(&Vec::new()).is_empty());
}

#[test]
fn podium_never_rises_and_never_holds_placeholder() {
    let entries: Vec<Standing> = (1..=20u32).map(|i| st(i, (i * 7) % 5)).collect();
    let p = select_podium(&entries);
    assert_eq!(p.len(), 3);
    for w in p.windows(2) {
        assert!(w[0].score >= w[1].score);
    }
    assert!(p.iter().all(|s| s.id != 0));
}
