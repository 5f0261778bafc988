use example_runner::config_args::{ConfigArgs, ExitStatusGroup, ExpectedExitStatus, FinalizedConfigArgs};
use example_runner::example_config::{ExampleConfigFinalized, RunnerType};
use example_runner::read_example_configuration::{ExampleIdentity, ExamplesConfiguration, ResolvedExample};
use example_runner::runs::{all_passed, command_arguments, index_label, ExampleRun};

fn strings(v: &[&str]) -> Vec<String> {
    v.iter().map(|s| s.to_string()).collect()
}

fn config(t: RunnerType, label: Option<&str>, args: &[&str], e: ExpectedExitStatus) -> ExampleConfigFinalized {
    ExampleConfigFinalized {
        runner_type: t,
        args: FinalizedConfigArgs { label: label.map(|s| s.to_string()), arguments: strings(args), expected_exit_status: e },
    }
}

fn resolved(configs: Vec<ExampleConfigFinalized>) -> ExamplesConfiguration {
    ExamplesConfiguration {
        examples: vec![ResolvedExample {
            id: ExampleIdentity { package_id: "pkg-id".to_string(), target: "demo".to_string() },
            configurations: configs,
        }],
        unconfigured: vec![],
        unknown: vec![],
    }
}

fn names() -> Vec<(String, String)> {
    vec![("other".to_string(), "nope".to_string()), ("pkg-id".to_string(), "pkg".to_string())]
}

#[test]
fn ok_and_bad_pair_against_exit_codes() {
    let r = resolved(vec![
        config(RunnerType::Explicit, Some("ok"), &[], ExpectedExitStatus::Group(ExitStatusGroup::Success)),
        config(RunnerType::Explicit, Some("bad"), &[], ExpectedExitStatus::Code(2)),
    ]);
    let runs = r.plan_runs(&names());
    assert_eq!(runs.len(), 2);
    assert_eq!(runs[0].label, "ok");
    assert_eq!(runs[1].label, "bad");
    assert!(runs[0].passed(Some(0)));
    assert!(runs[1].passed(Some(2)));
    assert!(all_passed(&runs, &vec![Some(0), Some(2)]));
    assert!(!runs[0].passed(Some(1)));
    assert!(!runs[1].passed(Some(1)));
    assert!(!all_passed(&runs, &vec![Some(1), Some(1)]));
}

#[test]
fn plan_labels_commands_and_skips_ignored() {
    let configs: Vec<ExampleConfigFinalized> = (0..13)
        .map(|i| {
            let t = if i == 1 { RunnerType::Ignore } else if i == 2 { RunnerType::NoRun } else { RunnerType::Explicit };
            config(t, None, &["--n", "v"], ExpectedExitStatus::default())
        })
        .collect();
    let runs = resolved(configs).plan_runs(&names());
    assert_eq!(runs.len(), 12);
    assert_eq!(runs[0].label, "0");
    assert_eq!(runs[1].label, "2");
    assert_eq!(runs[11].label, "12");
    assert_eq!(runs[0].package, "pkg");
    assert_eq!(runs[0].example, "demo");
    assert_eq!(runs[0].command, strings(&["run", "-p", "pkg", "--example", "demo", "--", "--n", "v"]));
    assert_eq!(runs[1].runner_type, RunnerType::NoRun);
    assert_eq!(runs[1].command, strings(&["build", "-p", "pkg", "--example", "demo"]));
}

#[test]
fn command_arguments_without_extra_arguments() {
    let c = command_arguments(RunnerType::Explicit, &"a".to_string(), &"b".to_string(), &vec![]);
    assert_eq!(c, strings(&["run", "-p", "a", "--example", "b", "--"]));
}

#[test]
fn no_run_and_ignored_always_pass() {
    let run = |t: RunnerType| ExampleRun {
        package: "p".to_string(),
        example: "e".to_string(),
        label: "0".to_string(),
        runner_type: t,
        command: vec![],
        expected_exit_status: ExpectedExitStatus::Code(5),
    };
    assert!(run(RunnerType::NoRun).passed(Some(1)));
    assert!(run(RunnerType::Ignore).passed(None));
    assert!(!run(RunnerType::Explicit).passed(None));
    assert!(run(RunnerType::Explicit).passed(Some(5)));
    assert!(all_passed(&vec![], &vec![]));
}

#[test]
fn tagged_lines() {
    let run = ExampleRun {
        package: "pkg".to_string(),
        example: "demo".to_string(),
        label: "ok".to_string(),
        runner_type: RunnerType::Explicit,
        command: vec![],
        expected_exit_status: ExpectedExitStatus::default(),
    };
    assert_eq!(run.tag(), "[pkg demo <ok>]");
    assert_eq!(run.tag_line("hello world"), "[pkg demo <ok>] hello world");
    assert_eq!(run.tag_line(""), "[pkg demo <ok>] ");
}

#[test]
fn finalize_then_plan_uses_defaults() {
    let f = ConfigArgs { label: Some("x".to_string()), arguments: None, expected_exit_status: None }.finalize();
    let c = ExampleConfigFinalized { runner_type: RunnerType::Explicit, args: f };
    let runs = resolved(vec![c]).plan_runs(&names());
    assert_eq!(runs[0].label, "x");
    assert_eq!(runs[0].expected_exit_status, ExpectedExitStatus::Group(ExitStatusGroup::Success));
    assert_eq!(runs[0].command, strings(&["run", "-p", "pkg", "--example", "demo", "--"]));
}

#[test]
fn decimal_labels() {
    assert_eq!(index_label(0), "0");
    assert_eq!(index_label(7), "7");
    assert_eq!(index_label(10), "10");
    assert_eq!(index_label(12345), "12345");
    assert_eq!(index_label(usize::MAX), usize::MAX.to_string());
}
