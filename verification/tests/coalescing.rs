use difference_engine::Provenance;
use difference_engine::segment::coalesce;

fn seg(text: &str, pv: Provenance) -> (String, Provenance) {
    (text.to_string(), pv)
}

#[test]
fn merges_adjacent_runs_in_order() {
    let input = vec![
        seg("a", Provenance::Shared),
        seg("b", Provenance::Shared),
        seg("c", Provenance::Old),
        seg("d", Provenance::New),
        seg("e", Provenance::New),
        seg("f", Provenance::Shared),
    ];
    let out = coalesce(input);
    assert_eq!(
        out,
        vec![
            seg("ab", Provenance::Shared),
            seg("c", Provenance::Old),
            seg("de", Provenance::New),
            seg("f", Provenance::Shared),
        ]
    );
}

#[test]
fn preserves_concatenation_order() {
    let input = vec![
        seg("one", Provenance::Old),
        seg("two", Provenance::Old),
        seg("three", Provenance::New),
        seg("four", Provenance::Shared),
        seg("five", Provenance::Shared),
    ];
    let joined_in: String = input.iter().map(|e| e.0.as_str()).collect();
    let out = coalesce(input);
    let joined_out: String = out.iter().map(|e| e.0.as_str()).collect();
    assert_eq!(joined_in, joined_out);
}

#[test]
fn applying_twice_equals_applying_once() {
    let input = vec![
        seg("x", Provenance::Old),
        seg("y", Provenance::Old),
        seg("z", Provenance::Shared),
        seg("w", Provenance::Shared),
        seg("v", Provenance::Old),
    ];
    let once = coalesce(input);
    let twice = coalesce(once.clone());
    assert_eq!(once, twice);
}

#[test]
fn no_adjacent_output_segments_share_provenance() {
    let input = vec![
        seg("a", Provenance::Old),
        seg("b", Provenance::Old),
        seg("c", Provenance::New),
        seg("d", Provenance::Old),
        seg("e", Provenance::Old),
    ];
    let out = coalesce(input);
    for pair in out.windows(2) {
        assert_ne!(pair[0].1, pair[1].1);
    }
    assert_eq!(
        out,
        vec![
            seg("ab", Provenance::Old),
            seg("c", Provenance::New),
            seg("de", Provenance::Old),
        ]
    );
}

#[test]
fn empty_input_yields_empty_output() {
    let out = coalesce(Vec::new());
    assert!(out.is_empty());
}

#[test]
fn empty_texts_merge_into_their_run() {
    let input = vec![
        seg("a", Provenance::Shared),
        seg("", Provenance::Shared),
        seg("", Provenance::Old),
    ];
    let out = coalesce(input);
    assert_eq!(out, vec![seg("a", Provenance::Shared), seg("", Provenance::Old)]);
}
