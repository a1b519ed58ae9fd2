use difference_engine::Provenance;
use difference_engine::Presentation;
use difference_engine::ExtensionPoint;
use difference_engine::BasicColored;
use difference_engine::BasicStyled;

fn seg(text: &str, pv: Provenance) -> (String, Provenance) {
    (text.to_string(), pv)
}

#[test]
fn colored_wraps_old_red_and_new_green() {
    colored::control::set_override(true);
    let out = BasicColored.render(vec![
        seg("gone", Provenance::Old),
        seg("kept", Provenance::Shared),
        seg("added", Provenance::New),
    ]);
    assert_eq!(
        out,
        vec![
            "\u{1b}[31mgone\u{1b}[0m".to_string(),
            "kept".to_string(),
            "\u{1b}[32madded\u{1b}[0m".to_string(),
        ]
    );
}

#[test]
fn styled_underlines_old_and_bolds_new() {
    colored::control::set_override(true);
    let out = BasicStyled.render(vec![
        seg("gone", Provenance::Old),
        seg("kept", Provenance::Shared),
        seg("added", Provenance::New),
    ]);
    assert_eq!(
        out,
        vec![
            "\u{1b}[4mgone\u{1b}[0m".to_string(),
            "kept".to_string(),
            "\u{1b}[1madded\u{1b}[0m".to_string(),
        ]
    );
}

#[test]
fn presentation_names_and_descriptions() {
    assert_eq!(BasicColored.name(), "basic-colored");
    assert_eq!(BasicStyled.name(), "basic-styled");
    assert_eq!(
        BasicColored.description(),
        "Makes new-file-only parts red and old-file-only parts green"
    );
    assert_eq!(
        BasicStyled.description(),
        "Makes new-file-only parts bold and old-file-only parts underlined"
    );
}
