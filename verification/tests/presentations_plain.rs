use difference_engine::Provenance;
use difference_engine::Presentation;
use difference_engine::BasicColored;

fn seg(text: &str, pv: Provenance) -> (String, Provenance) {
    (text.to_string(), pv)
}

#[test]
fn rendering_with_coloring_disabled_leaves_text_unchanged() {
    colored::control::set_override(false);
    let out = BasicColored.render(vec![
        seg("gone", Provenance::Old),
        seg("kept", Provenance::Shared),
        seg("added", Provenance::New),
    ]);
    assert_eq!(out, vec!["gone".to_string(), "kept".to_string(), "added".to_string()]);
}
