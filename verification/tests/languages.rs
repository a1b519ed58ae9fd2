use difference_engine::Provenance;
use difference_engine::Language;
use difference_engine::ExtensionPoint;
use difference_engine::SimpleCharwise;
use difference_engine::SimpleLinewise;

fn seg(text: &str, pv: Provenance) -> (String, Provenance) {
    (text.to_string(), pv)
}

fn old_part(segs: &[(String, Provenance)]) -> String {
    segs.iter().filter(|e| e.1.is_old()).map(|e| e.0.as_str()).collect()
}

fn new_part(segs: &[(String, Provenance)]) -> String {
    segs.iter().filter(|e| e.1.is_new()).map(|e| e.0.as_str()).collect()
}

#[test]
fn charwise_cat_cut_scenario() {
    let segs = SimpleCharwise.diff("cat".to_string(), "cut".to_string());
    assert_eq!(
        segs,
        vec![
            seg("c", Provenance::Shared),
            seg("a", Provenance::Old),
            seg("u", Provenance::New),
            seg("t", Provenance::Shared),
        ]
    );
}

#[test]
fn linewise_abc_axc_scenario() {
    let segs = SimpleLinewise.diff("a\nb\nc\n".to_string(), "a\nx\nc\n".to_string());
    assert_eq!(
        segs,
        vec![
            seg("a\n", Provenance::Shared),
            seg("b\n", Provenance::Old),
            seg("x\n", Provenance::New),
            seg("c\n", Provenance::Shared),
        ]
    );
}

#[test]
fn charwise_round_trip() {
    let old = "the quick brown fox";
    let new = "the quiet brown cat";
    let segs = SimpleCharwise.diff(old.to_string(), new.to_string());
    assert_eq!(old_part(&segs), old);
    assert_eq!(new_part(&segs), new);
}

#[test]
fn linewise_round_trip_on_newline_terminated_inputs() {
    let old = "alpha\nbeta\n\ngamma\n";
    let new = "alpha\ndelta\ngamma\nepsilon\n";
    let segs = SimpleLinewise.diff(old.to_string(), new.to_string());
    assert_eq!(old_part(&segs), old);
    assert_eq!(new_part(&segs), new);
}

#[test]
fn linewise_appends_newline_to_unterminated_final_line() {
    let segs = SimpleLinewise.diff("a".to_string(), "b".to_string());
    assert_eq!(segs, vec![seg("a\n", Provenance::Old), seg("b\n", Provenance::New)]);
}

#[test]
fn charwise_identical_inputs_yield_one_shared_segment() {
    let segs = SimpleCharwise.diff("same".to_string(), "same".to_string());
    assert_eq!(segs, vec![seg("same", Provenance::Shared)]);
}

#[test]
fn charwise_identical_empty_inputs_yield_nothing() {
    let segs = SimpleCharwise.diff(String::new(), String::new());
    assert!(segs.is_empty());
}

#[test]
fn linewise_identical_inputs_yield_one_shared_segment() {
    let segs = SimpleLinewise.diff("a\nb\n".to_string(), "a\nb\n".to_string());
    assert_eq!(segs, vec![seg("a\nb\n", Provenance::Shared)]);
}

#[test]
fn linewise_identical_empty_inputs_yield_nothing() {
    let segs = SimpleLinewise.diff(String::new(), String::new());
    assert!(segs.is_empty());
}

#[test]
fn charwise_empty_old_yields_one_new_segment() {
    let segs = SimpleCharwise.diff(String::new(), "fresh".to_string());
    assert_eq!(segs, vec![seg("fresh", Provenance::New)]);
}

#[test]
fn charwise_empty_new_yields_one_old_segment() {
    let segs = SimpleCharwise.diff("stale".to_string(), String::new());
    assert_eq!(segs, vec![seg("stale", Provenance::Old)]);
}

#[test]
fn linewise_empty_old_yields_one_new_segment() {
    let segs = SimpleLinewise.diff(String::new(), "x\ny\n".to_string());
    assert_eq!(segs, vec![seg("x\ny\n", Provenance::New)]);
}

#[test]
fn linewise_empty_new_yields_one_old_segment() {
    let segs = SimpleLinewise.diff("x\ny\n".to_string(), String::new());
    assert_eq!(segs, vec![seg("x\ny\n", Provenance::Old)]);
}

#[test]
fn linewise_strips_carriage_return_before_newline() {
    let segs = SimpleLinewise.diff("a\r\nb\n".to_string(), "a\r\nb\n".to_string());
    assert_eq!(segs, vec![seg("a\nb\n", Provenance::Shared)]);
}

#[test]
fn no_adjacent_diff_segments_share_provenance() {
    let segs = SimpleCharwise.diff("abcdef".to_string(), "abXdYf".to_string());
    for pair in segs.windows(2) {
        assert_ne!(pair[0].1, pair[1].1);
    }
}

#[test]
fn language_names_and_descriptions() {
    assert_eq!(SimpleLinewise.name(), "simple-linewise");
    assert_eq!(SimpleCharwise.name(), "simple-charwise");
    assert_eq!(
        SimpleLinewise.description(),
        "A “language” that implements a naïve line-by-line diff"
    );
    assert_eq!(
        SimpleCharwise.description(),
        "A “language” that implements a naïve character-by-character diff"
    );
}
