use example_runner::config_args::{ConfigArgs, ExitStatusGroup, ExpectedExitStatus, FinalizedConfigArgs};
use example_runner::example_config::{
    ExampleConfig, ExampleConfigFinalized, RunnerOptions, RunnerType, TemplateMap,
    TemplateResolveError,
};
use example_runner::fallback::{fallback_configs, finalize_entries};
use example_runner::read_example_configuration::{
    ExampleConfigVariants, ExampleIdentity, ExampleOverride, ExamplesConfiguration,
    ExamplesConfigurationError, ExtendedExampleConfig, PackageMetadata, ResolutionIssue,
    WorkspaceMetadata,
};
use example_runner::templates::{PackageExampleRunnerConfig, WorkspaceExampleRunnerConfig};

fn strings(v: &[&str]) -> Vec<String> {
    v.iter().map(|s| s.to_string()).collect()
}

fn id(p: &str, t: &str) -> ExampleIdentity {
    ExampleIdentity { package_id: p.to_string(), target: t.to_string() }
}

fn of_type(t: RunnerType) -> RunnerOptions {
    RunnerOptions::from_type(t)
}

fn with_args(a: &[&str]) -> RunnerOptions {
    RunnerOptions {
        template: None,
        config: ExampleConfig {
            runner_type: None,
            args: ConfigArgs { label: None, arguments: Some(strings(a)), expected_exit_status: None },
        },
    }
}

fn finalized(t: RunnerType, a: &[&str]) -> ExampleConfigFinalized {
    ExampleConfigFinalized {
        runner_type: t,
        args: FinalizedConfigArgs {
            label: None,
            arguments: strings(a),
            expected_exit_status: ExpectedExitStatus::Group(ExitStatusGroup::Success),
        },
    }
}

fn package(id: &str, examples: &[&str], runner: PackageExampleRunnerConfig, overrides: Vec<ExampleOverride>) -> PackageMetadata {
    PackageMetadata {
        id: id.to_string(),
        name: format!("{id}-name"),
        examples: strings(examples),
        example_runner: runner,
        overrides,
    }
}

fn over(name: &str, extend: bool, configurations: Vec<RunnerOptions>) -> ExampleOverride {
    ExampleOverride {
        name: name.to_string(),
        config: ExtendedExampleConfig { extend_configurations: extend, configurations },
    }
}

fn workspace(default: Vec<RunnerOptions>, packages: Vec<PackageMetadata>) -> WorkspaceMetadata {
    WorkspaceMetadata {
        example_runner: WorkspaceExampleRunnerConfig { templates: TemplateMap::new(), default },
        packages,
    }
}

fn configs_of<'a>(r: &'a ExamplesConfiguration, i: &ExampleIdentity) -> &'a Vec<ExampleConfigFinalized> {
    &r.examples.iter().find(|e| e.id == *i).expect("configured").configurations
}

fn same_set(a: &[ExampleConfigFinalized], b: &[ExampleConfigFinalized]) -> bool {
    a.len() == b.len() && a.iter().all(|x| b.contains(x))
}

#[test]
fn unconfigured_without_any_defaults() {
    let m = workspace(vec![], vec![package("p", &["ex"], PackageExampleRunnerConfig::default(), vec![])]);
    let r = ExamplesConfiguration::from_metadata(m).unwrap();
    assert!(r.examples.is_empty());
    assert_eq!(r.unconfigured, vec![id("p", "ex")]);
    assert!(r.unknown.is_empty());
}

#[test]
fn workspace_no_run_default_applies() {
    let runner = PackageExampleRunnerConfig { extend_workspace_defaults: false, ..Default::default() };
    let m = workspace(
        vec![of_type(RunnerType::NoRun)],
        vec![package("p", &["a", "b"], runner, vec![over("b", false, vec![with_args(&["x"])])])],
    );
    let r = ExamplesConfiguration::from_metadata(m).unwrap();
    assert_eq!(configs_of(&r, &id("p", "a")), &vec![finalized(RunnerType::NoRun, &[])]);
    assert_eq!(configs_of(&r, &id("p", "b")), &vec![finalized(RunnerType::Explicit, &["x"])]);
    assert!(r.unconfigured.is_empty());
}

#[test]
fn template_override_replaces_fallback() {
    let mut templates = TemplateMap::new();
    templates.insert(
        "fast".to_string(),
        ExampleConfig {
            runner_type: None,
            args: ConfigArgs { label: None, arguments: Some(strings(&["--quick"])), expected_exit_status: None },
        },
    );
    let runner = PackageExampleRunnerConfig {
        templates,
        extend_workspace_defaults: false,
        default: vec![with_args(&["--default"])],
    };
    let entry = RunnerOptions { template: Some("fast".to_string()), config: ExampleConfig::default() };
    let m = workspace(
        vec![of_type(RunnerType::NoRun)],
        vec![package("p", &["ex"], runner, vec![over("ex", false, vec![entry])])],
    );
    let r = ExamplesConfiguration::from_metadata(m).unwrap();
    assert_eq!(configs_of(&r, &id("p", "ex")), &vec![finalized(RunnerType::Explicit, &["--quick"])]);
}

#[test]
fn missing_template_names_example_and_template() {
    let entry = RunnerOptions { template: Some("ghost".to_string()), config: ExampleConfig::default() };
    let m = workspace(
        vec![],
        vec![package("p", &["ex"], PackageExampleRunnerConfig::default(), vec![over("ex", false, vec![entry])])],
    );
    match ExamplesConfiguration::from_metadata(m) {
        Err(ExamplesConfigurationError::ExampleTemplate { example, error: TemplateResolveError::NoSuchTemplate { name } }) => {
            assert_eq!(example, id("p", "ex"));
            assert_eq!(name, "ghost");
        }
        _ => panic!("expected a template error for the example"),
    }
}

#[test]
fn missing_template_in_defaults_fails() {
    let entry = RunnerOptions { template: Some("absent".to_string()), config: ExampleConfig::default() };
    let runner = PackageExampleRunnerConfig { default: vec![entry], ..Default::default() };
    let m = workspace(vec![], vec![package("p", &["ex"], runner, vec![])]);
    match ExamplesConfiguration::from_metadata(m) {
        Err(ExamplesConfigurationError::TemplateResolveError(TemplateResolveError::NoSuchTemplate { name })) => {
            assert_eq!(name, "absent")
        }
        _ => panic!("expected a template error in the defaults"),
    }
    let ws_entry = RunnerOptions { template: Some("w".to_string()), config: ExampleConfig::default() };
    let m2 = workspace(vec![ws_entry], vec![]);
    assert!(matches!(
        ExamplesConfiguration::from_metadata(m2),
        Err(ExamplesConfigurationError::TemplateResolveError(_))
    ));
}

#[test]
fn package_default_uses_workspace_template() {
    let mut ws_templates = TemplateMap::new();
    ws_templates.insert(
        "shared".to_string(),
        ExampleConfig { runner_type: Some(RunnerType::NoRun), args: ConfigArgs::default() },
    );
    let entry = RunnerOptions { template: Some("shared".to_string()), config: ExampleConfig::default() };
    let runner = PackageExampleRunnerConfig { default: vec![entry], ..Default::default() };
    let m = WorkspaceMetadata {
        example_runner: WorkspaceExampleRunnerConfig { templates: ws_templates, default: vec![] },
        packages: vec![package("p", &["ex"], runner, vec![])],
    };
    let r = ExamplesConfiguration::from_metadata(m).unwrap();
    assert_eq!(configs_of(&r, &id("p", "ex")), &vec![finalized(RunnerType::NoRun, &[])]);
}

#[test]
fn unknown_override_is_reported() {
    let m = workspace(
        vec![of_type(RunnerType::NoRun)],
        vec![package("p", &["real"], PackageExampleRunnerConfig::default(), vec![over("phantom", false, vec![with_args(&[])])])],
    );
    let r = ExamplesConfiguration::from_metadata(m).unwrap();
    assert_eq!(r.unknown, vec![id("p", "phantom")]);
    assert!(r.examples.iter().all(|e| e.id != id("p", "phantom")));
    assert!(r.unconfigured.is_empty());
    assert_eq!(configs_of(&r, &id("p", "real")).len(), 1);
}

#[test]
fn extend_configurations_adds_fallback() {
    let m = workspace(
        vec![of_type(RunnerType::NoRun)],
        vec![package("p", &["ex"], PackageExampleRunnerConfig::default(), vec![over("ex", true, vec![with_args(&["e"])])])],
    );
    let r = ExamplesConfiguration::from_metadata(m).unwrap();
    assert!(same_set(
        configs_of(&r, &id("p", "ex")),
        &[finalized(RunnerType::Explicit, &["e"]), finalized(RunnerType::NoRun, &[])]
    ));
}

#[test]
fn explicit_override_with_empty_fallback_is_configured() {
    let m = workspace(
        vec![],
        vec![package("p", &["ex", "other"], PackageExampleRunnerConfig::default(), vec![over("ex", true, vec![with_args(&[])])])],
    );
    let r = ExamplesConfiguration::from_metadata(m).unwrap();
    assert_eq!(configs_of(&r, &id("p", "ex")), &vec![finalized(RunnerType::Explicit, &[])]);
    assert_eq!(r.unconfigured, vec![id("p", "other")]);
}

#[test]
fn equal_configurations_collapse() {
    let m = workspace(
        vec![],
        vec![package("p", &["ex"], PackageExampleRunnerConfig::default(), vec![over("ex", false, vec![with_args(&["a"]), with_args(&["a"]), with_args(&["b"])])])],
    );
    let r = ExamplesConfiguration::from_metadata(m).unwrap();
    assert!(same_set(
        configs_of(&r, &id("p", "ex")),
        &[finalized(RunnerType::Explicit, &["a"]), finalized(RunnerType::Explicit, &["b"])]
    ));
}

#[test]
fn every_target_is_configured_or_unconfigured() {
    let runner = PackageExampleRunnerConfig { default: vec![of_type(RunnerType::Ignore)], ..Default::default() };
    let m = workspace(
        vec![],
        vec![
            package("p", &["a", "b"], PackageExampleRunnerConfig::default(), vec![over("a", false, vec![with_args(&[])])]),
            package("q", &["a", "c"], runner, vec![]),
        ],
    );
    let r = ExamplesConfiguration::from_metadata(m).unwrap();
    for (p, t) in [("p", "a"), ("p", "b"), ("q", "a"), ("q", "c")] {
        let i = id(p, t);
        let configured = r.examples.iter().any(|e| e.id == i);
        let unconfigured = r.unconfigured.contains(&i);
        assert!(configured != unconfigured);
    }
    assert_eq!(r.examples.len() + r.unconfigured.len(), 4);
    assert_eq!(r.unconfigured, vec![id("p", "b")]);
}

fn fin(v: Vec<RunnerOptions>) -> Vec<ExampleConfigFinalized> {
    finalize_entries(&v, &TemplateMap::new(), &TemplateMap::new()).unwrap()
}

#[test]
fn fallback_without_extend_prefers_package() {
    let w = fin(vec![of_type(RunnerType::NoRun)]);
    let p = fin(vec![with_args(&["p"])]);
    assert_eq!(fallback_configs(&w, p.clone(), false), p);
    assert_eq!(fallback_configs(&w, vec![], false), w);
    assert_eq!(fallback_configs(&w, vec![], true), w);
}

#[test]
fn fallback_with_extend_is_union() {
    let w = fin(vec![of_type(RunnerType::NoRun), with_args(&["shared"])]);
    let p = fin(vec![with_args(&["shared"]), with_args(&["own"])]);
    let u = fallback_configs(&w, p, true);
    assert!(same_set(
        &u,
        &[
            finalized(RunnerType::NoRun, &[]),
            finalized(RunnerType::Explicit, &["shared"]),
            finalized(RunnerType::Explicit, &["own"]),
        ]
    ));
}

#[test]
fn extended_variant_conversion() {
    let s: ExtendedExampleConfig = ExampleConfigVariants::Simple(vec![with_args(&["a"])]).into();
    assert!(!s.extend_configurations);
    assert_eq!(s.configurations.len(), 1);
    let e: ExtendedExampleConfig = ExampleConfigVariants::Extended(ExtendedExampleConfig {
        extend_configurations: true,
        configurations: vec![],
    })
    .into();
    assert!(e.extend_configurations);
    assert!(e.configurations.is_empty());
}

#[test]
fn check_flags() {
    let r = ExamplesConfiguration {
        examples: vec![],
        unconfigured: vec![id("p", "a")],
        unknown: vec![id("p", "b")],
    };
    assert_eq!(r.check(false, false), Ok(()));
    assert_eq!(r.check(true, false), Err(ResolutionIssue::UnconfiguredExample));
    assert_eq!(r.check(false, true), Err(ResolutionIssue::UnknownExample));
    assert_eq!(r.check(true, true), Err(ResolutionIssue::UnconfiguredExample));
    assert_eq!(ExamplesConfiguration::default().check(true, true), Ok(()));
}

#[test]
fn repeated_override_name_uses_the_first() {
    let m = workspace(
        vec![],
        vec![package(
            "p",
            &["ex"],
            PackageExampleRunnerConfig::default(),
            vec![over("ex", false, vec![with_args(&["first"])]), over("ex", false, vec![with_args(&["second"])])],
        )],
    );
    let r = ExamplesConfiguration::from_metadata(m).unwrap();
    assert_eq!(configs_of(&r, &id("p", "ex")), &vec![finalized(RunnerType::Explicit, &["first"])]);
    assert_eq!(r.unknown, vec![id("p", "ex")]);
}
