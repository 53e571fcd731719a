use sigi::output::{Cell, NoiseLevel, OutputFormat, Report};

#[test]
fn only_humans_who_did_not_ask_for_quiet_get_auxiliary_messages() {
    assert!(OutputFormat::Human(NoiseLevel::Normal).is_nonquiet_for_humans());
    assert!(OutputFormat::Human(NoiseLevel::Verbose).is_nonquiet_for_humans());
    assert!(!OutputFormat::Human(NoiseLevel::Quiet).is_nonquiet_for_humans());
    for format in [
        OutputFormat::Csv,
        OutputFormat::Json,
        OutputFormat::JsonCompact,
        OutputFormat::Silent,
        OutputFormat::TerseText,
        OutputFormat::Tsv,
    ] {
        assert!(!format.is_nonquiet_for_humans());
    }
}

#[test]
fn silent_and_terse() {
    assert!(OutputFormat::Silent.is_silent());
    assert!(!OutputFormat::TerseText.is_silent());
    assert!(!OutputFormat::Human(NoiseLevel::Quiet).is_silent());
    assert!(OutputFormat::TerseText.is_terse());
    assert!(!OutputFormat::Silent.is_terse());
}

#[test]
fn reports_made_of_texts() {
    let log = Report::log(vec!["action", "item"], vec![vec!["Created", "x"]]);
    assert_eq!(
        log,
        Report {
            always: false,
            labels: vec!["action".to_string(), "item".to_string()],
            rows: vec![vec![Cell::Text("Created".to_string()), Cell::Text("x".to_string())]],
        }
    );
    let always = Report::log_always(vec!["items"], vec![]);
    assert_eq!(always, Report { always: true, labels: vec!["items".to_string()], rows: vec![] });
}

#[test]
fn which_reports_are_put_out() {
    for always in [true, false] {
        assert!(!OutputFormat::Silent.shows(always));
        for format in [
            OutputFormat::Csv,
            OutputFormat::Json,
            OutputFormat::JsonCompact,
            OutputFormat::TerseText,
            OutputFormat::Tsv,
            OutputFormat::Human(NoiseLevel::Normal),
            OutputFormat::Human(NoiseLevel::Verbose),
        ] {
            assert!(format.shows(always));
        }
    }
    assert!(OutputFormat::Human(NoiseLevel::Quiet).shows(true));
    assert!(!OutputFormat::Human(NoiseLevel::Quiet).shows(false));
}
