use example_runner::config_args::{
    ConfigArgs, ExitStatusGroup, ExpectedExitStatus, FinalizedConfigArgs,
};
use example_runner::example_config::{
    ExampleConfig, ExampleConfigFinalized, RunnerOptionVariants, RunnerOptions, RunnerType,
    TemplateMap, TemplateResolveError,
};
use example_runner::struct_merge::StructMerge;

fn strings(v: &[&str]) -> Vec<String> {
    v.iter().map(|s| s.to_string()).collect()
}

fn args(label: Option<&str>, arguments: Option<&[&str]>, status: Option<ExpectedExitStatus>) -> ConfigArgs {
    ConfigArgs {
        label: label.map(|s| s.to_string()),
        arguments: arguments.map(strings),
        expected_exit_status: status,
    }
}

#[test]
fn join_keeps_set_fields_and_fills_unset_ones() {
    let a = args(Some("a"), None, Some(ExpectedExitStatus::Code(3)));
    let b = args(Some("b"), Some(&["x"]), Some(ExpectedExitStatus::Group(ExitStatusGroup::Failure)));
    let j = a.join(b);
    assert_eq!(j.label, Some("a".to_string()));
    assert_eq!(j.arguments, Some(strings(&["x"])));
    assert_eq!(j.expected_exit_status, Some(ExpectedExitStatus::Code(3)));
}

#[test]
fn merge_keeps_the_receivers_fields() {
    let a = args(None, Some(&["from-a"]), None);
    let b = args(Some("b"), Some(&["from-b"]), None);
    let m = a.merge(b);
    assert_eq!(m.label, Some("b".to_string()));
    assert_eq!(m.arguments, Some(strings(&["from-a"])));
    assert_eq!(m.expected_exit_status, None);
}

#[test]
fn merge_of_types_keeps_the_first() {
    let a = ExampleConfig { runner_type: Some(RunnerType::NoRun), args: ConfigArgs::default() };
    let b = ExampleConfig { runner_type: Some(RunnerType::Ignore), args: args(Some("b"), None, None) };
    let m = a.merge(b);
    assert_eq!(m.runner_type, Some(RunnerType::NoRun));
    assert_eq!(m.args.label, Some("b".to_string()));
}

#[test]
fn join_with_itself_is_unchanged() {
    let a = ExampleConfig {
        runner_type: Some(RunnerType::NoRun),
        args: args(Some("l"), Some(&["1", "2"]), None),
    };
    let j = a.clone().join(a.clone());
    assert_eq!(j.runner_type, a.runner_type);
    assert_eq!(j.args.label, a.args.label);
    assert_eq!(j.args.arguments, a.args.arguments);
    assert_eq!(j.args.expected_exit_status, a.args.expected_exit_status);
}

#[test]
fn join_of_empty_takes_everything() {
    let mut a = ExampleConfig::default();
    let b = ExampleConfig {
        runner_type: Some(RunnerType::Ignore),
        args: args(Some("b"), Some(&["y"]), Some(ExpectedExitStatus::Code(1))),
    };
    a.join_inplace(b);
    assert_eq!(a.runner_type, Some(RunnerType::Ignore));
    assert_eq!(a.args.label, Some("b".to_string()));
    assert_eq!(a.args.arguments, Some(strings(&["y"])));
    assert_eq!(a.args.expected_exit_status, Some(ExpectedExitStatus::Code(1)));
}

#[test]
fn finalize_applies_defaults() {
    let f = ConfigArgs::default().finalize();
    assert_eq!(
        f,
        FinalizedConfigArgs {
            label: None,
            arguments: vec![],
            expected_exit_status: ExpectedExitStatus::Group(ExitStatusGroup::Success),
        }
    );
    let g = args(Some("x"), Some(&["a"]), Some(ExpectedExitStatus::Code(4))).finalize();
    assert_eq!(g.label, Some("x".to_string()));
    assert_eq!(g.arguments, strings(&["a"]));
    assert_eq!(g.expected_exit_status, ExpectedExitStatus::Code(4));
}

#[test]
fn with_default_type_fills_only_an_unset_type() {
    let c = ExampleConfig { runner_type: None, args: ConfigArgs::default() };
    assert_eq!(c.with_default_type(RunnerType::Explicit).runner_type, RunnerType::Explicit);
    let d = ExampleConfig { runner_type: Some(RunnerType::NoRun), args: ConfigArgs::default() };
    assert_eq!(d.with_default_type(RunnerType::Explicit).runner_type, RunnerType::NoRun);
}

#[test]
fn default_expectation_is_success() {
    assert_eq!(ExpectedExitStatus::default(), ExpectedExitStatus::Group(ExitStatusGroup::Success));
    assert_eq!(ExitStatusGroup::default(), ExitStatusGroup::Success);
}

#[test]
fn success_group_matches_only_zero() {
    let e = ExpectedExitStatus::Group(ExitStatusGroup::Success);
    assert!(e.matches(Some(0)));
    assert!(!e.matches(Some(1)));
    assert!(!e.matches(Some(-1)));
    assert!(!e.matches(None));
}

#[test]
fn failure_group_is_the_negation_of_success() {
    let s = ExpectedExitStatus::Group(ExitStatusGroup::Success);
    let f = ExpectedExitStatus::Group(ExitStatusGroup::Failure);
    for code in [Some(0), Some(1), Some(2), Some(255), Some(-9), None] {
        assert_eq!(f.matches(code), !s.matches(code));
    }
}

#[test]
fn exact_code_matches_only_that_code() {
    let e = ExpectedExitStatus::Code(2);
    assert!(e.matches(Some(2)));
    assert!(!e.matches(Some(0)));
    assert!(!e.matches(Some(3)));
    assert!(!e.matches(None));
}

#[test]
fn from_type_sets_only_the_type() {
    let o = RunnerOptions::from_type(RunnerType::NoRun);
    assert_eq!(o.template, None);
    assert_eq!(o.config.runner_type, Some(RunnerType::NoRun));
    assert_eq!(o.config.args.label, None);
    assert_eq!(o.config.args.arguments, None);
    assert_eq!(o.config.args.expected_exit_status, None);
}

#[test]
fn shorthand_variant_expands_to_an_entry() {
    let o: RunnerOptions = RunnerOptionVariants::Type(RunnerType::Ignore).into();
    assert_eq!(o.config.runner_type, Some(RunnerType::Ignore));
    assert_eq!(o.template, None);
    let full = RunnerOptions { template: Some("t".to_string()), config: ExampleConfig::default() };
    let p: RunnerOptions = RunnerOptionVariants::Options(full).into();
    assert_eq!(p.template, Some("t".to_string()));
    assert_eq!(p.config.runner_type, None);
}

fn fast_templates() -> TemplateMap {
    let mut t = TemplateMap::new();
    t.insert(
        "fast".to_string(),
        ExampleConfig { runner_type: None, args: args(Some("tl"), Some(&["--quick"]), None) },
    );
    t
}

#[test]
fn template_map_later_insert_wins() {
    let mut t = fast_templates();
    assert!(t.get(&"slow".to_string()).is_none());
    t.insert("fast".to_string(), ExampleConfig { runner_type: Some(RunnerType::NoRun), args: ConfigArgs::default() });
    let got = t.get(&"fast".to_string()).unwrap();
    assert_eq!(got.runner_type, Some(RunnerType::NoRun));
    assert_eq!(got.args.arguments, None);
}

#[test]
fn resolve_without_template_is_unchanged() {
    let mut o = RunnerOptions {
        template: None,
        config: ExampleConfig { runner_type: Some(RunnerType::NoRun), args: args(None, Some(&["a"]), None) },
    };
    assert!(o.resolve_templates(&fast_templates()).is_ok());
    assert_eq!(o.template, None);
    assert_eq!(o.config.runner_type, Some(RunnerType::NoRun));
    assert_eq!(o.config.args.arguments, Some(strings(&["a"])));
    assert_eq!(o.config.args.label, None);
}

#[test]
fn resolve_fills_from_template_and_drops_reference() {
    let mut o = RunnerOptions {
        template: Some("fast".to_string()),
        config: ExampleConfig { runner_type: None, args: args(Some("own"), None, None) },
    };
    assert!(o.resolve_templates(&fast_templates()).is_ok());
    assert_eq!(o.template, None);
    assert_eq!(o.config.args.label, Some("own".to_string()));
    assert_eq!(o.config.args.arguments, Some(strings(&["--quick"])));
}

#[test]
fn resolve_missing_template_fails_and_keeps_entry() {
    let mut o = RunnerOptions { template: Some("nope".to_string()), config: ExampleConfig::default() };
    match o.resolve_templates(&fast_templates()) {
        Err(TemplateResolveError::NoSuchTemplate { name }) => assert_eq!(name, "nope"),
        Ok(()) => panic!("expected an error"),
    }
    assert_eq!(o.template, Some("nope".to_string()));
    let e = TemplateResolveError::NoSuchTemplate { name: "nope".to_string() };
    assert_eq!(e.message(), "No such template `nope`");
}

#[test]
fn scoped_resolution_prefers_package_then_workspace() {
    let mut ws = TemplateMap::new();
    ws.insert("fast".to_string(), ExampleConfig { runner_type: None, args: args(None, Some(&["--ws"]), None) });
    ws.insert("only_ws".to_string(), ExampleConfig { runner_type: Some(RunnerType::NoRun), args: ConfigArgs::default() });
    let pkg = fast_templates();
    let a = RunnerOptions { template: Some("fast".to_string()), config: ExampleConfig::default() };
    let ra = a.resolve_in_scopes(&pkg, &ws).unwrap();
    assert_eq!(ra.config.args.arguments, Some(strings(&["--quick"])));
    let b = RunnerOptions { template: Some("only_ws".to_string()), config: ExampleConfig::default() };
    let rb = b.resolve_in_scopes(&pkg, &ws).unwrap();
    assert_eq!(rb.config.runner_type, Some(RunnerType::NoRun));
    let c = RunnerOptions { template: Some("none".to_string()), config: ExampleConfig::default() };
    match c.resolve_in_scopes(&pkg, &ws) {
        Err(TemplateResolveError::NoSuchTemplate { name }) => assert_eq!(name, "none"),
        Ok(_) => panic!("expected an error"),
    }
}

#[test]
fn resolution_is_deterministic() {
    let make = || RunnerOptions {
        template: Some("fast".to_string()),
        config: ExampleConfig { runner_type: None, args: args(None, None, Some(ExpectedExitStatus::Code(7))) },
    };
    let pkg = fast_templates();
    let ws = TemplateMap::new();
    let r1 = make().resolve_in_scopes(&pkg, &ws).unwrap().extract_config().with_default_type(RunnerType::Explicit);
    let r2 = make().resolve_in_scopes(&pkg, &ws).unwrap().extract_config().with_default_type(RunnerType::Explicit);
    assert_eq!(r1, r2);
    assert_eq!(
        r1,
        ExampleConfigFinalized {
            runner_type: RunnerType::Explicit,
            args: FinalizedConfigArgs {
                label: Some("tl".to_string()),
                arguments: strings(&["--quick"]),
                expected_exit_status: ExpectedExitStatus::Code(7),
            },
        }
    );
}
