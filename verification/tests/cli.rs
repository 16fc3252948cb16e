use guardian::cli::{
    make_default, measure, parse_command, parse_scenario, parse_u64, same_text, trace_options,
    Command, NamedScenario, TraceOptions,
};

fn args(items: &[&str]) -> Vec<String> {
    items.iter().map(|s| s.to_string()).collect()
}

#[test]
fn scenario_names_parse() {
    assert_eq!(parse_scenario("hard-braking"), Ok(NamedScenario::HardBrakingLead));
    assert_eq!(parse_scenario("cut-in"), Ok(NamedScenario::CutIn));
    assert_eq!(parse_scenario("constant-lead"), Ok(NamedScenario::ConstantLead));
    assert_eq!(parse_scenario("empty-road"), Ok(NamedScenario::EmptyRoad));
    assert_eq!(parse_scenario("scripted"), Err("unknown scenario: scripted".to_string()));
    assert_eq!(parse_scenario(""), Err("unknown scenario: ".to_string()));
}

#[test]
fn u64_parsing_follows_std() {
    for text in ["0", "7", "+12", "0012", "18446744073709551615", "", "+", "-1", "1a", " 1", "18446744073709551616", "99999999999999999999999", "٣"] {
        assert_eq!(parse_u64(text), text.parse::<u64>().ok(), "text {text:?}");
    }
    assert_eq!(parse_u64("3007"), Some(3007));
}

#[test]
fn same_text_compares_characters() {
    assert!(same_text("--seed", "--seed"));
    assert!(!same_text("--seed", "--seeds"));
    assert!(!same_text("--seed", "--Seed"));
    assert!(same_text("", ""));
}

#[test]
fn trace_defaults_to_the_hard_braking_lead_under_seed_3007() {
    assert_eq!(
        trace_options(&args(&[])),
        Ok(TraceOptions { scenario: NamedScenario::HardBrakingLead, seed: 3007 })
    );
}

#[test]
fn trace_options_parse_and_later_ones_win() {
    assert_eq!(
        trace_options(&args(&["--scenario", "cut-in", "--seed", "42"])),
        Ok(TraceOptions { scenario: NamedScenario::CutIn, seed: 42 })
    );
    assert_eq!(
        trace_options(&args(&["--seed", "1", "--scenario", "empty-road", "--seed", "2"])),
        Ok(TraceOptions { scenario: NamedScenario::EmptyRoad, seed: 2 })
    );
}

#[test]
fn trace_option_errors() {
    assert_eq!(trace_options(&args(&["--scenario"])), Err("--scenario takes a name".to_string()));
    assert_eq!(
        trace_options(&args(&["--scenario", "fog"])),
        Err("unknown scenario: fog".to_string())
    );
    assert_eq!(trace_options(&args(&["--seed"])), Err("--seed takes an integer".to_string()));
    assert_eq!(trace_options(&args(&["--seed", "-3"])), Err("--seed takes an integer".to_string()));
    assert_eq!(
        trace_options(&args(&["--trials", "3"])),
        Err("unknown trace argument: --trials".to_string())
    );
    assert_eq!(
        trace_options(&args(&["--seed", "5", "extra"])),
        Err("unknown trace argument: extra".to_string())
    );
}

#[test]
fn measure_reads_the_trial_count() {
    assert_eq!(measure(&args(&[])), Ok(200));
    assert_eq!(measure(&args(&["--trials", "1000"])), Ok(1000));
    assert_eq!(measure(&args(&["--trials", "5", "--trials", "+6"])), Ok(6));
}

#[test]
fn measure_errors() {
    assert_eq!(measure(&args(&["--trials"])), Err("--trials takes a positive integer".to_string()));
    assert_eq!(
        measure(&args(&["--trials", "many"])),
        Err("--trials takes a positive integer".to_string())
    );
    assert_eq!(
        measure(&args(&["--trials", "0"])),
        Err("--trials must be greater than zero".to_string())
    );
    assert_eq!(
        measure(&args(&["--trials", "0", "--bogus"])),
        Err("--trials must be greater than zero".to_string())
    );
    assert_eq!(measure(&args(&["--seed", "1"])), Err("unknown metrics argument: --seed".to_string()));
}

#[test]
fn commands_parse() {
    assert_eq!(parse_command(Some(&"trace".to_string())), Some(Command::Trace));
    assert_eq!(parse_command(Some(&"metrics".to_string())), Some(Command::Metrics));
    assert_eq!(parse_command(Some(&"help".to_string())), None);
    assert_eq!(parse_command(None), None);
}

#[test]
fn make_default_builds_the_default_value() {
    let v: Vec<u8> = make_default();
    assert!(v.is_empty());
    let n: u32 = make_default();
    assert_eq!(n, 0);
}
