use lau_conservation_guard::{
    rank_descending, top_spenders, ReportEntry, ReportText, Tally, TOP_SPENDER_LIMIT,
};

fn tally(name: &str, rank: u64) -> Tally {
    Tally { name: name.to_string(), rank }
}

fn entry(name: &str, amount: &str, rank: u64) -> ReportEntry {
    ReportEntry { name: name.to_string(), amount: amount.to_string(), rank }
}

fn blank_report() -> ReportText {
    ReportText {
        budget: "100.00".to_string(),
        spent: "0.00".to_string(),
        remaining: "100.00".to_string(),
        wasted: "0.00".to_string(),
        verified: true,
        by_room: Vec::new(),
        by_model: Vec::new(),
        top_spenders: Vec::new(),
    }
}

#[test]
fn ranking_puts_largest_keys_first() {
    assert_eq!(rank_descending(&vec![20, 30, 10], 10), vec![1, 0, 2]);
}

#[test]
fn ranking_keeps_ties_in_order() {
    assert_eq!(rank_descending(&vec![5, 9, 5, 9], 10), vec![1, 3, 0, 2]);
}

#[test]
fn ranking_truncates_to_the_limit() {
    assert_eq!(rank_descending(&vec![1, 2, 3, 4, 5], 2), vec![4, 3]);
    assert_eq!(rank_descending(&vec![1, 2, 3], 0), Vec::<usize>::new());
    assert_eq!(rank_descending(&Vec::new(), 5), Vec::<usize>::new());
}

#[test]
fn top_spenders_are_sorted_descending() {
    let rooms = vec![tally("room-1", 30), tally("room-2", 20)];
    let models = vec![tally("gpt-4", 30), tally("llama", 20)];
    let top = top_spenders(&rooms, &models);
    let labels: Vec<&str> = top.iter().map(|s| s.label.as_str()).collect();
    assert_eq!(labels, vec!["room:room-1", "model:gpt-4", "room:room-2", "model:llama"]);
    let sources: Vec<usize> = top.iter().map(|s| s.source).collect();
    assert_eq!(sources, vec![0, 2, 1, 3]);
}

#[test]
fn top_spenders_keep_at_most_ten() {
    let rooms: Vec<Tally> = (0..8).map(|i| tally(&format!("r{}", i), i)).collect();
    let models: Vec<Tally> = (0..8).map(|i| tally(&format!("m{}", i), 100 + i)).collect();
    let top = top_spenders(&rooms, &models);
    assert_eq!(top.len(), TOP_SPENDER_LIMIT);
    assert_eq!(top[0].label, "model:m7");
    assert_eq!(top[7].label, "model:m0");
    assert_eq!(top[8].label, "room:r7");
    assert_eq!(top[9].label, "room:r6");
}

#[test]
fn render_without_entries_has_only_the_header() {
    let text = blank_report().render();
    assert_eq!(
        text,
        "=== Conservation Report ===\nBudget:     100.00\nSpent:      0.00\nRemaining:  100.00\nWasted:     0.00\nVerified:   ✓"
    );
    assert!(text.contains("Conservation Report"));
    assert!(text.contains("100.00"));
}

#[test]
fn render_marks_a_failed_verification() {
    let mut report = blank_report();
    report.verified = false;
    assert!(report.render().ends_with("Verified:   ✗"));
}

#[test]
fn render_sorts_rooms_and_models_and_keeps_top_spender_order() {
    let mut report = blank_report();
    report.spent = "15.00".to_string();
    report.remaining = "85.00".to_string();
    report.by_room = vec![entry("room-1", "5.00", 5), entry("room-2", "10.00", 10)];
    report.by_model = vec![entry("gpt-4", "5.00", 5)];
    report.top_spenders = vec![
        ("room:room-2".to_string(), "10.00".to_string()),
        ("model:gpt-4".to_string(), "5.00".to_string()),
    ];
    let expected = [
        "=== Conservation Report ===",
        "Budget:     100.00",
        "Spent:      15.00",
        "Remaining:  85.00",
        "Wasted:     0.00",
        "Verified:   ✓",
        "",
        "By Room:",
        "  room-2: 10.00",
        "  room-1: 5.00",
        "",
        "By Model:",
        "  gpt-4: 5.00",
        "",
        "Top Spenders:",
        "  room:room-2: 10.00",
        "  model:gpt-4: 5.00",
    ]
    .join("\n");
    assert_eq!(report.render(), expected);
}

#[test]
fn ranking_is_determined_by_the_keys() {
    let keys = vec![3, 7, 7, 1, 3, 9];
    assert_eq!(rank_descending(&keys, 4), rank_descending(&keys, 4));
    assert_eq!(rank_descending(&keys, 10), vec![5, 1, 2, 0, 4, 3]);
    assert_eq!(rank_descending(&keys, 4), vec![5, 1, 2, 0]);
}

#[test]
fn top_spenders_of_nothing_is_empty() {
    assert!(top_spenders(&Vec::new(), &Vec::new()).is_empty());
}
