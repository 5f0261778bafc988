use vstd::prelude::*;

use crate::config_args::{status_matches, strings_view, ExpectedExitStatus, ExitStatusGroup};
use crate::example_config::{ExampleConfigFinalized, FinalView, RunnerType};
use crate::fallback::finals_view;
use crate::read_example_configuration::{ExamplesConfiguration, ResolvedExample};

verus! {

/// The decimal digit for `d < 10`.
pub open spec fn digit(d: nat) -> char {
    if d == 0 { '0' } else if d == 1 { '1' } else if d == 2 { '2' } else if d == 3 { '3' }
    else if d == 4 { '4' } else if d == 5 { '5' } else if d == 6 { '6' } else if d == 7 { '7' }
    else if d == 8 { '8' } else { '9' }
}

/// The decimal notation of `n`, without leading zeros.
pub open spec fn decimal(n: nat) -> Seq<char>
    decreases n,
{
    if n < 10 {
        seq![digit(n)]
    } else {
        decimal(n / 10).push(digit(n % 10))
    }
}

/// The one-digit string of `d < 10`.
fn digit_str(d: usize) -> (r: &'static str)
    requires
        d < 10,
    ensures
        r@ == seq![digit(d as nat)],
{
    proof {
        reveal_strlit("0");
        reveal_strlit("1");
        reveal_strlit("2");
        reveal_strlit("3");
        reveal_strlit("4");
        reveal_strlit("5");
        reveal_strlit("6");
        reveal_strlit("7");
        reveal_strlit("8");
        reveal_strlit("9");
    }
    if d == 0 { "0" } else if d == 1 { "1" } else if d == 2 { "2" } else if d == 3 { "3" }
    else if d == 4 { "4" } else if d == 5 { "5" } else if d == 6 { "6" } else if d == 7 { "7" }
    else if d == 8 { "8" } else { "9" }
}

/// The decimal notation of `i`; see [`decimal`].
pub fn index_label(i: usize) -> (r: String)
    ensures
        r@ == decimal(i as nat),
{
    let mut n: usize = i;
    let mut s = String::new();
    assert(decimal(n as nat) + s@ =~= decimal(n as nat));
    while n >= 10
        invariant
            decimal(i as nat) == decimal(n as nat) + s@,
        decreases n,
    {
        let d = digit_str(n % 10);
        let ghost old_s = s@;
        let ghost old_n = n;
        s = String::from_str(d).concat(s.as_str());
        n = n / 10;
        assert(decimal(old_n as nat) == decimal(n as nat).push(digit((old_n % 10) as nat)));
        assert(decimal(n as nat) + s@ =~= decimal(old_n as nat) + old_s);
    }
    let r = String::from_str(digit_str(n)).concat(s.as_str());
    assert(r@ =~= decimal(n as nat) + s@);
    r
}

/// The label of the configuration at position `i` of an example's set: its
/// own label, or the position in decimal.
pub open spec fn label_for(label: Option<Seq<char>>, i: nat) -> Seq<char> {
    match label {
        Some(l) => l,
        None => decimal(i),
    }
}

/// The arguments handed to cargo for one run of example `example` of package
/// `package`: `run` with the configuration's arguments after `--`, or `build`
/// alone when the example is only built.
pub open spec fn command_for(
    t: RunnerType,
    package: Seq<char>,
    example: Seq<char>,
    args: Seq<Seq<char>>,
) -> Seq<Seq<char>> {
    if t == RunnerType::NoRun {
        seq!["build"@, "-p"@, package, "--example"@, example]
    } else {
        seq!["run"@, "-p"@, package, "--example"@, example, "--"@] + args
    }
}

/// One planned run of an example.
#[derive(Clone, Debug)]
pub struct ExampleRun {
    pub package: String,
    pub example: String,
    pub label: String,
    pub runner_type: RunnerType,
    /// The arguments handed to cargo.
    pub command: Vec<String>,
    pub expected_exit_status: ExpectedExitStatus,
}

/// The mathematical value of [`ExampleRun`].
pub ghost struct RunView {
    pub package: Seq<char>,
    pub example: Seq<char>,
    pub label: Seq<char>,
    pub runner_type: RunnerType,
    pub command: Seq<Seq<char>>,
    pub expected_exit_status: ExpectedExitStatus,
}

impl View for ExampleRun {
    type V = RunView;

    open spec fn view(&self) -> RunView {
        RunView {
            package: self.package@,
            example: self.example@,
            label: self.label@,
            runner_type: self.runner_type,
            command: strings_view(self.command@),
            expected_exit_status: self.expected_exit_status,
        }
    }
}

/// The views of a list of runs.
pub open spec fn runs_view(s: Seq<ExampleRun>) -> Seq<RunView> {
    s.map_values(|r: ExampleRun| r@)
}

/// The run of configuration `c`, at position `i` of the set of example
/// `example` of package `package`.
pub open spec fn run_of(package: Seq<char>, example: Seq<char>, i: nat, c: FinalView) -> RunView {
    RunView {
        package,
        example,
        label: label_for(c.args.label, i),
        runner_type: c.runner_type,
        command: command_for(c.runner_type, package, example, c.args.arguments),
        expected_exit_status: c.args.expected_exit_status,
    }
}

/// The runs of the configurations `cs` of one example, in order, leaving out
/// those that are ignored.
pub open spec fn runs_of_configs(package: Seq<char>, example: Seq<char>, cs: Seq<FinalView>) -> Seq<RunView>
    decreases cs.len(),
{
    if cs.len() == 0 {
        Seq::empty()
    } else {
        let prev = runs_of_configs(package, example, cs.drop_last());
        if cs.last().runner_type == RunnerType::Ignore {
            prev
        } else {
            prev.push(run_of(package, example, (cs.len() - 1) as nat, cs.last()))
        }
    }
}

/// The display name of the package with identifier `id`: the first entry of
/// `names` for it.
pub open spec fn name_of(names: Seq<(Seq<char>, Seq<char>)>, id: Seq<char>) -> Seq<char>
    decreases names.len(),
{
    if names.len() == 0 {
        Seq::empty()
    } else if names[0].0 == id {
        names[0].1
    } else {
        name_of(names.subrange(1, names.len() as int), id)
    }
}

/// Whether `names` has an entry for `id`.
pub open spec fn has_name(names: Seq<(Seq<char>, Seq<char>)>, id: Seq<char>) -> bool {
    exists|i: int| 0 <= i < names.len() && (#[trigger] names[i]).0 == id
}

/// The runs of every configured example, in order.
pub open spec fn runs_of(
    examples: Seq<((Seq<char>, Seq<char>), Seq<FinalView>)>,
    names: Seq<(Seq<char>, Seq<char>)>,
) -> Seq<RunView>
    decreases examples.len(),
{
    if examples.len() == 0 {
        Seq::empty()
    } else {
        let e = examples.last();
        runs_of(examples.drop_last(), names) + runs_of_configs(name_of(names, e.0.0), e.0.1, e.1)
    }
}

/// The views of a list of (package identifier, display name) pairs.
pub open spec fn names_view(s: Seq<(String, String)>) -> Seq<(Seq<char>, Seq<char>)> {
    s.map_values(|p: (String, String)| (p.0@, p.1@))
}

/// The display name of package `id`; see [`name_of`].
fn lookup_name(names: &Vec<(String, String)>, id: &String) -> (r: String)
    requires
        has_name(names_view(names@), id@),
    ensures
        r@ == name_of(names_view(names@), id@),
{
    let ghost nv = names_view(names@);
    let mut i: usize = 0;
    assert(nv.subrange(0, nv.len() as int) =~= nv);
    while i < names.len()
        invariant
            i <= names@.len(),
            nv == names_view(names@),
            name_of(nv, id@) == name_of(nv.subrange(i as int, nv.len() as int), id@),
            forall|j: int| 0 <= j < i ==> nv[j].0 != id@,
        decreases names@.len() - i,
    {
        proof {
            assert(nv.subrange(i as int, nv.len() as int).subrange(1, nv.len() - i) =~= nv.subrange(
                i + 1,
                nv.len() as int,
            ));
        }
        if names[i].0 == *id {
            return names[i].1.clone();
        }
        i = i + 1;
    }
    proof {
        let j = choose|j: int| 0 <= j < nv.len() && (#[trigger] nv[j]).0 == id@;
        assert(nv[j].0 != id@);
    }
    String::new()
}

/// The cargo arguments of one run; see [`command_for`].
pub fn command_arguments(
    runner_type: RunnerType,
    package: &String,
    example: &String,
    args: &Vec<String>,
) -> (r: Vec<String>)
    ensures
        strings_view(r@) == command_for(runner_type, package@, example@, strings_view(args@)),
{
    let mut r: Vec<String> = Vec::new();
    proof {
        reveal_strlit("build");
        reveal_strlit("run");
        reveal_strlit("-p");
        reveal_strlit("--example");
        reveal_strlit("--");
    }
    if runner_type == RunnerType::NoRun {
        r.push(String::from_str("build"));
    } else {
        r.push(String::from_str("run"));
    }
    r.push(String::from_str("-p"));
    r.push(package.clone());
    r.push(String::from_str("--example"));
    r.push(example.clone());
    if runner_type != RunnerType::NoRun {
        r.push(String::from_str("--"));
        let ghost head = r@;
        let mut i: usize = 0;
        while i < args.len()
            invariant
                i <= args@.len(),
                r@ == head + args@.subrange(0, i as int),
            decreases args@.len() - i,
        {
            r.push(args[i].clone());
            assert(r@ =~= head + args@.subrange(0, i + 1));
            i = i + 1;
        }
        assert(args@.subrange(0, i as int) =~= args@);
        assert(strings_view(r@) =~= command_for(runner_type, package@, example@, strings_view(args@)));
    } else {
        assert(strings_view(r@) =~= command_for(runner_type, package@, example@, strings_view(args@)));
    }
    r
}

/// The run of configuration `c` at position `i`; see [`run_of`].
fn plan_run(package: &String, example: &String, i: usize, c: &ExampleConfigFinalized) -> (r: ExampleRun)
    ensures
        r@ == run_of(package@, example@, i as nat, c@),
{
    let label = match &c.args.label {
        Some(l) => l.clone(),
        None => index_label(i),
    };
    ExampleRun {
        package: package.clone(),
        example: example.clone(),
        label,
        runner_type: c.runner_type,
        command: command_arguments(c.runner_type, package, example, &c.args.arguments),
        expected_exit_status: c.args.expected_exit_status,
    }
}

impl ExamplesConfiguration {
    /// The runs of every configured example, in order, with each package
    /// named by its entry in `names` (package identifier, display name);
    /// ignored configurations get no run.
    pub fn plan_runs(&self, names: &Vec<(String, String)>) -> (r: Vec<ExampleRun>)
        requires
            forall|k: int|
                0 <= k < self.examples@.len() ==> has_name(
                    names_view(names@),
                    (#[trigger] self.examples@[k]).id.package_id@,
                ),
        ensures
            runs_view(r@) == runs_of(self@.examples, names_view(names@)),
    {
        let ghost ev = self@.examples;
        let ghost nv = names_view(names@);
        let mut r: Vec<ExampleRun> = Vec::new();
        let mut k: usize = 0;
        assert(ev.take(0) =~= Seq::<((Seq<char>, Seq<char>), Seq<FinalView>)>::empty());
        assert(runs_view(r@) =~= Seq::<RunView>::empty());
        while k < self.examples.len()
            invariant
                k <= self.examples@.len(),
                ev == self@.examples,
                nv == names_view(names@),
                runs_view(r@) == runs_of(ev.take(k as int), nv),
                forall|k: int|
                    0 <= k < self.examples@.len() ==> has_name(
                        names_view(names@),
                        (#[trigger] self.examples@[k]).id.package_id@,
                    ),
            decreases self.examples@.len() - k,
        {
            let e: &ResolvedExample = &self.examples[k];
            let name = lookup_name(names, &e.id.package_id);
            let ghost base = runs_view(r@);
            let ghost cs = finals_view(e.configurations@);
            let mut i: usize = 0;
            assert(cs.take(0) =~= Seq::<FinalView>::empty());
            assert(base + runs_of_configs(name@, e.id.target@, cs.take(0)) =~= base);
            while i < e.configurations.len()
                invariant
                    i <= e.configurations@.len(),
                    cs == finals_view(e.configurations@),
                    runs_view(r@) == base + runs_of_configs(name@, e.id.target@, cs.take(i as int)),
                decreases e.configurations@.len() - i,
            {
                let c = &e.configurations[i];
                proof {
                    assert(cs.take(i + 1).drop_last() =~= cs.take(i as int));
                    assert(cs.take(i + 1).last() == c@);
                }
                if c.runner_type != RunnerType::Ignore {
                    let ghost before = r@;
                    r.push(plan_run(&name, &e.id.target, i, c));
                    proof {
                        assert(runs_view(r@) =~= runs_view(before).push(r@.last()@));
                    }
                }
                i = i + 1;
            }
            proof {
                assert(cs.take(i as int) =~= cs);
                assert(ev.take(k + 1).drop_last() =~= ev.take(k as int));
                assert(ev.take(k + 1).last() == e@);
            }
            k = k + 1;
        }
        assert(ev.take(k as int) =~= ev);
        r
    }
}

/// Whether run `r` that ended with `code` passes: a run that is executed
/// must meet its expected exit status; a run that is only built always
/// passes.
pub open spec fn run_passes(r: RunView, code: Option<i32>) -> bool {
    r.runner_type != RunnerType::Explicit || status_matches(r.expected_exit_status, code)
}

impl ExampleRun {
    /// Whether this run, ended with `code` (`None`: by a signal), passes; see
    /// [`run_passes`].
    pub fn passed(&self, code: Option<i32>) -> (r: bool)
        ensures
            r == run_passes(self@, code),
    {
        self.runner_type != RunnerType::Explicit || self.expected_exit_status.matches(code)
    }

    /// The tag of this run: `[package example <label>]`.
    pub fn tag(&self) -> (r: String)
        ensures
            r@ == seq!['['] + self.package@ + seq![' '] + self.example@ + seq![' ', '<'] + self.label@
                + seq!['>', ']'],
    {
        proof {
            reveal_strlit("[");
            reveal_strlit(" ");
            reveal_strlit(" <");
            reveal_strlit(">]");
        }
        String::from_str("[").concat(self.package.as_str()).concat(" ").concat(
            self.example.as_str(),
        ).concat(" <").concat(self.label.as_str()).concat(">]")
    }

    /// A line of the run's output, prefixed with its tag and a space.
    pub fn tag_line(&self, line: &str) -> (r: String)
        ensures
            r@ == seq!['['] + self.package@ + seq![' '] + self.example@ + seq![' ', '<'] + self.label@
                + seq!['>', ']', ' '] + line@,
    {
        proof {
            reveal_strlit(" ");
        }
        let t = self.tag();
        let r = t.concat(" ").concat(line);
        assert(r@ =~= seq!['['] + self.package@ + seq![' '] + self.example@ + seq![' ', '<'] + self.label@
                + seq!['>', ']', ' '] + line@);
        r
    }
}

/// Whether every run passed, `codes[i]` being how run `i` ended.
pub fn all_passed(runs: &Vec<ExampleRun>, codes: &Vec<Option<i32>>) -> (r: bool)
    requires
        runs@.len() == codes@.len(),
    ensures
        r == forall|i: int| 0 <= i < runs@.len() ==> run_passes(#[trigger] runs@[i]@, codes@[i]),
{
    let mut i: usize = 0;
    while i < runs.len()
        invariant
            i <= runs@.len(),
            runs@.len() == codes@.len(),
            forall|j: int| 0 <= j < i ==> run_passes(#[trigger] runs@[j]@, codes@[j]),
        decreases runs@.len() - i,
    {
        if !runs[i].passed(codes[i]) {
            return false;
        }
        i = i + 1;
    }
    true
}

/// Expected exit statuses: the success group matches exactly the code zero;
/// the failure group matches exactly what the success group does not; an
/// exact code matches only that code.
pub proof fn lemma_exit_status_matching(code: Option<i32>, c: i32)
    ensures
        status_matches(ExpectedExitStatus::Group(ExitStatusGroup::Success), code) <==> code == Some(0i32),
        status_matches(ExpectedExitStatus::Group(ExitStatusGroup::Failure), code) <==> !status_matches(
            ExpectedExitStatus::Group(ExitStatusGroup::Success),
            code,
        ),
        status_matches(ExpectedExitStatus::Code(c), code) <==> code == Some(c),
        !status_matches(ExpectedExitStatus::Code(c), None),
{
}

} // verus!
