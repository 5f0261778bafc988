use vstd::prelude::*;

use crate::example_config::{
    ConfigView, ExampleConfigFinalized, FinalView, OptionsView, RunnerOptions, TemplateMap,
    TemplateResolveError,
};
use crate::fallback::{
    copy_finals, fallback_configs, fallback_of, finalize_all, finalize_entries, finals_view,
    union_into, union_seq,
};
use crate::templates::{
    options_view, PackageConfigView, PackageExampleRunnerConfig, WorkspaceConfigView,
    WorkspaceExampleRunnerConfig,
};

verus! {

/// Declares `serde_json::Error` so that a failure to decode the
/// configuration can be carried in [`ExamplesConfigurationError`]; nothing
/// of its value is read here.
#[verifier::external_type_specification]
#[verifier::external_body]
pub struct ExJsonError(serde_json::Error);

/// The explicit configurations of one example.
#[derive(Clone, Debug, Default)]
pub struct ExtendedExampleConfig {
    /// Whether the package's fallback set is added to these configurations.
    pub extend_configurations: bool,
    pub configurations: Vec<RunnerOptions>,
}

/// The explicit configurations of one example as written: with the extend
/// flag, or as a bare list that replaces the fallback set.
#[derive(Clone, Debug)]
pub enum ExampleConfigVariants {
    Extended(ExtendedExampleConfig),
    Simple(Vec<RunnerOptions>),
}

impl From<ExampleConfigVariants> for ExtendedExampleConfig {
    /// A bare list does not extend the fallback set.
    fn from(value: ExampleConfigVariants) -> (r: ExtendedExampleConfig) {
        match value {
            ExampleConfigVariants::Extended(e) => e,
            ExampleConfigVariants::Simple(s) => ExtendedExampleConfig {
                extend_configurations: false,
                configurations: s,
            },
        }
    }
}

impl vstd::std_specs::convert::FromSpecImpl<ExampleConfigVariants> for ExtendedExampleConfig {
    open spec fn obeys_from_spec() -> bool {
        true
    }

    open spec fn from_spec(value: ExampleConfigVariants) -> ExtendedExampleConfig {
        match value {
            ExampleConfigVariants::Extended(e) => e,
            ExampleConfigVariants::Simple(s) => ExtendedExampleConfig {
                extend_configurations: false,
                configurations: s,
            },
        }
    }
}

/// The explicit configurations given for the example named `name`.
#[derive(Clone, Debug)]
pub struct ExampleOverride {
    pub name: String,
    pub config: ExtendedExampleConfig,
}

/// The mathematical value of [`ExampleOverride`].
pub ghost struct OverrideView {
    pub name: Seq<char>,
    pub extend_configurations: bool,
    pub configurations: Seq<OptionsView>,
}

impl View for ExampleOverride {
    type V = OverrideView;

    open spec fn view(&self) -> OverrideView {
        OverrideView {
            name: self.name@,
            extend_configurations: self.config.extend_configurations,
            configurations: options_view(self.config.configurations@),
        }
    }
}

/// The views of a list of overrides.
pub open spec fn overrides_view(s: Seq<ExampleOverride>) -> Seq<OverrideView> {
    s.map_values(|o: ExampleOverride| o@)
}

/// A package of the workspace: its identifier, its name, the names of its
/// example targets, its run configuration and its per-example overrides.
#[derive(Clone, Debug)]
pub struct PackageMetadata {
    pub id: String,
    pub name: String,
    pub examples: Vec<String>,
    pub example_runner: PackageExampleRunnerConfig,
    pub overrides: Vec<ExampleOverride>,
}

/// The mathematical value of [`PackageMetadata`].
pub ghost struct PackageView {
    pub id: Seq<char>,
    pub name: Seq<char>,
    pub examples: Seq<Seq<char>>,
    pub example_runner: PackageConfigView,
    pub overrides: Seq<OverrideView>,
}

impl View for PackageMetadata {
    type V = PackageView;

    open spec fn view(&self) -> PackageView {
        PackageView {
            id: self.id@,
            name: self.name@,
            examples: crate::config_args::strings_view(self.examples@),
            example_runner: self.example_runner@,
            overrides: overrides_view(self.overrides@),
        }
    }
}

/// The views of a list of packages.
pub open spec fn packages_view(s: Seq<PackageMetadata>) -> Seq<PackageView> {
    s.map_values(|p: PackageMetadata| p@)
}

/// The workspace: its run configuration and its packages.
#[derive(Clone, Debug, Default)]
pub struct WorkspaceMetadata {
    pub example_runner: WorkspaceExampleRunnerConfig,
    pub packages: Vec<PackageMetadata>,
}

/// The mathematical value of [`WorkspaceMetadata`].
pub ghost struct WorkspaceView {
    pub example_runner: WorkspaceConfigView,
    pub packages: Seq<PackageView>,
}

impl View for WorkspaceMetadata {
    type V = WorkspaceView;

    open spec fn view(&self) -> WorkspaceView {
        WorkspaceView {
            example_runner: self.example_runner@,
            packages: packages_view(self.packages@),
        }
    }
}

/// An example target: the identifier of its package and its name.
#[derive(Clone, Debug, PartialEq, Eq, Hash)]
pub struct ExampleIdentity {
    pub package_id: String,
    pub target: String,
}

impl View for ExampleIdentity {
    type V = (Seq<char>, Seq<char>);

    open spec fn view(&self) -> (Seq<char>, Seq<char>) {
        (self.package_id@, self.target@)
    }
}

/// The views of a list of example identities.
pub open spec fn ids_view(s: Seq<ExampleIdentity>) -> Seq<(Seq<char>, Seq<char>)> {
    s.map_values(|i: ExampleIdentity| i@)
}

/// An example target and its resolved configuration set.
#[derive(Clone, Debug)]
pub struct ResolvedExample {
    pub id: ExampleIdentity,
    pub configurations: Vec<ExampleConfigFinalized>,
}

impl View for ResolvedExample {
    type V = ((Seq<char>, Seq<char>), Seq<FinalView>);

    open spec fn view(&self) -> ((Seq<char>, Seq<char>), Seq<FinalView>) {
        (self.id@, finals_view(self.configurations@))
    }
}

/// The views of a list of resolved examples.
pub open spec fn resolved_view(s: Seq<ResolvedExample>) -> Seq<((Seq<char>, Seq<char>), Seq<FinalView>)> {
    s.map_values(|e: ResolvedExample| e@)
}

/// What resolution yields: each configured example target with its set of
/// configurations, the example targets that got none, and the overrides that
/// name no example target.
#[derive(Clone, Debug, Default)]
pub struct ExamplesConfiguration {
    pub examples: Vec<ResolvedExample>,
    pub unconfigured: Vec<ExampleIdentity>,
    pub unknown: Vec<ExampleIdentity>,
}

/// The mathematical value of [`ExamplesConfiguration`].
pub ghost struct ResolutionView {
    pub examples: Seq<((Seq<char>, Seq<char>), Seq<FinalView>)>,
    pub unconfigured: Seq<(Seq<char>, Seq<char>)>,
    pub unknown: Seq<(Seq<char>, Seq<char>)>,
}

impl View for ExamplesConfiguration {
    type V = ResolutionView;

    open spec fn view(&self) -> ResolutionView {
        ResolutionView {
            examples: resolved_view(self.examples@),
            unconfigured: ids_view(self.unconfigured@),
            unknown: ids_view(self.unknown@),
        }
    }
}

/// Why resolution failed.
#[derive(Debug)]
pub enum ExamplesConfigurationError {
    /// A configuration could not be decoded.
    ConfigParse(serde_json::Error),
    /// A default configuration names a template that neither scope has.
    TemplateResolveError(TemplateResolveError),
    /// A configuration of `example` names a template that neither scope has.
    ExampleTemplate { example: ExampleIdentity, error: TemplateResolveError },
}

/// The mathematical value of a resolution failure.
pub ghost enum FailureView {
    /// The missing template named by a default configuration.
    Defaults(Seq<char>),
    /// The example and the missing template named by one of its configurations.
    Example((Seq<char>, Seq<char>), Seq<char>),
}

/// Ties an error to its mathematical value.
pub open spec fn failure_is(e: ExamplesConfigurationError, f: FailureView) -> bool {
    match (e, f) {
        (ExamplesConfigurationError::TemplateResolveError(t), FailureView::Defaults(n)) => t.missing() == n,
        (ExamplesConfigurationError::ExampleTemplate { example, error }, FailureView::Example(i, n)) =>
            example@ == i && error.missing() == n,
        _ => false,
    }
}

/// The overrides not yet matched and the result so far.
pub ghost struct Progress {
    pub overrides: Seq<OverrideView>,
    pub out: ResolutionView,
}

/// Whether `ovs` has an entry for `name`.
pub open spec fn has_override(ovs: Seq<OverrideView>, name: Seq<char>) -> bool {
    exists|i: int| 0 <= i < ovs.len() && ovs[i].name == name
}

/// Whether `i` is the first entry of `ovs` for `name`.
pub open spec fn is_first_override(ovs: Seq<OverrideView>, name: Seq<char>, i: int) -> bool {
    &&& 0 <= i < ovs.len()
    &&& ovs[i].name == name
    &&& forall|j: int| 0 <= j < i ==> ovs[j].name != name
}

/// The first entry of `ovs` for `name`.
pub open spec fn first_override(ovs: Seq<OverrideView>, name: Seq<char>) -> int {
    choose|i: int| is_first_override(ovs, name, i)
}

/// Resolution of one example target `name` of package `pid`, with fallback
/// set `fb`: its first override is consumed and gives its configurations
/// (with `fb` added when the override extends it); without an override it
/// gets `fb`, or is unconfigured when `fb` is empty.
pub open spec fn target_step(
    pid: Seq<char>,
    name: Seq<char>,
    fb: Seq<FinalView>,
    package: Map<Seq<char>, ConfigView>,
    workspace: Map<Seq<char>, ConfigView>,
    st: Progress,
) -> Result<Progress, FailureView> {
    let id = (pid, name);
    if has_override(st.overrides, name) {
        let k = first_override(st.overrides, name);
        let ov = st.overrides[k];
        match finalize_all(ov.configurations, package, workspace) {
            Err(n) => Err(FailureView::Example(id, n)),
            Ok(ex) => Ok(
                Progress {
                    overrides: st.overrides.remove(k),
                    out: ResolutionView {
                        examples: st.out.examples.push(
                            (id, if ov.extend_configurations { union_seq(ex, fb) } else { ex }),
                        ),
                        ..st.out
                    },
                },
            ),
        }
    } else if fb.len() == 0 {
        Ok(Progress { out: ResolutionView { unconfigured: st.out.unconfigured.push(id), ..st.out }, ..st })
    } else {
        Ok(Progress { out: ResolutionView { examples: st.out.examples.push((id, fb)), ..st.out }, ..st })
    }
}

/// Resolution of the example targets `targets`, in order, from `start`.
pub open spec fn targets_from(
    pid: Seq<char>,
    targets: Seq<Seq<char>>,
    fb: Seq<FinalView>,
    package: Map<Seq<char>, ConfigView>,
    workspace: Map<Seq<char>, ConfigView>,
    start: Progress,
) -> Result<Progress, FailureView>
    decreases targets.len(),
{
    if targets.len() == 0 {
        Ok(start)
    } else {
        match targets_from(pid, targets.drop_last(), fb, package, workspace, start) {
            Err(e) => Err(e),
            Ok(st) => target_step(pid, targets.last(), fb, package, workspace, st),
        }
    }
}

/// The unknown entries that the unmatched overrides of package `pid` give.
pub open spec fn unknown_of(pid: Seq<char>, ovs: Seq<OverrideView>) -> Seq<(Seq<char>, Seq<char>)> {
    ovs.map_values(|o: OverrideView| (pid, o.name))
}

/// Resolution of one package, with the workspace's finalized defaults `wd`
/// and templates `wt`.
pub open spec fn package_step(
    wd: Seq<FinalView>,
    wt: Map<Seq<char>, ConfigView>,
    pkg: PackageView,
    out: ResolutionView,
) -> Result<ResolutionView, FailureView> {
    let cfg = pkg.example_runner;
    match finalize_all(cfg.default, cfg.templates, wt) {
        Err(n) => Err(FailureView::Defaults(n)),
        Ok(pd) => {
            let fb = fallback_of(wd, pd, cfg.extend_workspace_defaults);
            match targets_from(
                pkg.id,
                pkg.examples,
                fb,
                cfg.templates,
                wt,
                Progress { overrides: pkg.overrides, out },
            ) {
                Err(e) => Err(e),
                Ok(st) => Ok(
                    ResolutionView {
                        unknown: st.out.unknown + unknown_of(pkg.id, st.overrides),
                        ..st.out
                    },
                ),
            }
        },
    }
}

/// Resolution of the packages `pkgs`, in order, from `start`.
pub open spec fn packages_from(
    pkgs: Seq<PackageView>,
    wd: Seq<FinalView>,
    wt: Map<Seq<char>, ConfigView>,
    start: ResolutionView,
) -> Result<ResolutionView, FailureView>
    decreases pkgs.len(),
{
    if pkgs.len() == 0 {
        Ok(start)
    } else {
        match packages_from(pkgs.drop_last(), wd, wt, start) {
            Err(e) => Err(e),
            Ok(out) => package_step(wd, wt, pkgs.last(), out),
        }
    }
}

/// The result of nothing resolved yet.
pub open spec fn empty_resolution() -> ResolutionView {
    ResolutionView { examples: Seq::empty(), unconfigured: Seq::empty(), unknown: Seq::empty() }
}

/// Resolution of a whole workspace: its defaults are resolved against its
/// own templates, then every package in order.
pub open spec fn resolve_workspace(m: WorkspaceView) -> Result<ResolutionView, FailureView> {
    let cfg = m.example_runner;
    match finalize_all(cfg.default, cfg.templates, cfg.templates) {
        Err(n) => Err(FailureView::Defaults(n)),
        Ok(wd) => packages_from(m.packages, wd, cfg.templates, empty_resolution()),
    }
}

proof fn lemma_targets_error_prefix(
    pid: Seq<char>,
    targets: Seq<Seq<char>>,
    k: int,
    fb: Seq<FinalView>,
    package: Map<Seq<char>, ConfigView>,
    workspace: Map<Seq<char>, ConfigView>,
    start: Progress,
)
    requires
        0 <= k <= targets.len(),
        targets_from(pid, targets.take(k), fb, package, workspace, start) is Err,
    ensures
        targets_from(pid, targets, fb, package, workspace, start) == targets_from(
            pid,
            targets.take(k),
            fb,
            package,
            workspace,
            start,
        ),
    decreases targets.len(),
{
    if k < targets.len() {
        assert(targets.drop_last().take(k) =~= targets.take(k));
        lemma_targets_error_prefix(pid, targets.drop_last(), k, fb, package, workspace, start);
    } else {
        assert(targets.take(k) =~= targets);
    }
}

proof fn lemma_packages_error_prefix(
    pkgs: Seq<PackageView>,
    k: int,
    wd: Seq<FinalView>,
    wt: Map<Seq<char>, ConfigView>,
    start: ResolutionView,
)
    requires
        0 <= k <= pkgs.len(),
        packages_from(pkgs.take(k), wd, wt, start) is Err,
    ensures
        packages_from(pkgs, wd, wt, start) == packages_from(pkgs.take(k), wd, wt, start),
    decreases pkgs.len(),
{
    if k < pkgs.len() {
        assert(pkgs.drop_last().take(k) =~= pkgs.take(k));
        lemma_packages_error_prefix(pkgs.drop_last(), k, wd, wt, start);
    } else {
        assert(pkgs.take(k) =~= pkgs);
    }
}

/// Resolves the example target `name` of package `pid`; see [`target_step`].
fn resolve_target(
    pid: &String,
    name: &String,
    fb: &Vec<ExampleConfigFinalized>,
    package: &TemplateMap,
    workspace: &TemplateMap,
    overrides: &mut Vec<ExampleOverride>,
    out: &mut ExamplesConfiguration,
) -> (r: Result<(), ExamplesConfigurationError>)
    ensures
        match target_step(
            pid@,
            name@,
            finals_view(fb@),
            package@,
            workspace@,
            Progress { overrides: overrides_view(old(overrides)@), out: old(out)@ },
        ) {
            Ok(st) => r is Ok && overrides_view(final(overrides)@) == st.overrides && final(out)@
                == st.out,
            Err(e) => r is Err && failure_is(r->Err_0, e),
        },
{
    let ghost ovs = overrides_view(overrides@);
    let mut i: usize = 0;
    while i < overrides.len() && !(overrides[i].name == *name)
        invariant
            i <= overrides@.len(),
            ovs == overrides_view(overrides@),
            forall|j: int| 0 <= j < i ==> ovs[j].name != name@,
        decreases overrides@.len() - i,
    {
        i = i + 1;
    }
    let id = ExampleIdentity { package_id: pid.clone(), target: name.clone() };
    let ghost old_out = out@;
    if i < overrides.len() {
        proof {
            assert(is_first_override(ovs, name@, i as int));
            assert(has_override(ovs, name@));
            let k = first_override(ovs, name@);
            assert(is_first_override(ovs, name@, k));
            assert(k == i) by {
                if k < i {
                    assert(ovs[k].name != name@);
                } else if k > i {
                    assert(ovs[i as int].name != name@);
                }
            }
        }
        let ov = overrides.remove(i);
        proof {
            assert(overrides_view(overrides@) =~= ovs.remove(i as int));
        }
        match finalize_entries(&ov.config.configurations, package, workspace) {
            Err(e) => Err(ExamplesConfigurationError::ExampleTemplate { example: id, error: e }),
            Ok(ex) => {
                let mut ex = ex;
                if ov.config.extend_configurations {
                    union_into(&mut ex, fb);
                }
                let entry = ResolvedExample { id, configurations: ex };
                out.examples.push(entry);
                proof {
                    assert(out@.examples =~= old_out.examples.push(entry@));
                }
                Ok(())
            },
        }
    } else {
        proof {
            assert(!has_override(ovs, name@));
        }
        if fb.len() == 0 {
            out.unconfigured.push(id);
            proof {
                assert(out@.unconfigured =~= old_out.unconfigured.push(id@));
            }
        } else {
            let entry = ResolvedExample { id, configurations: copy_finals(fb) };
            out.examples.push(entry);
            proof {
                assert(out@.examples =~= old_out.examples.push(entry@));
            }
        }
        Ok(())
    }
}

/// Resolves one package; see [`package_step`].
fn resolve_package(
    pkg: PackageMetadata,
    wd: &Vec<ExampleConfigFinalized>,
    wt: &TemplateMap,
    out: &mut ExamplesConfiguration,
) -> (r: Result<(), ExamplesConfigurationError>)
    ensures
        match package_step(finals_view(wd@), wt@, pkg@, old(out)@) {
            Ok(o) => r is Ok && final(out)@ == o,
            Err(e) => r is Err && failure_is(r->Err_0, e),
        },
{
    let ghost pv = pkg@;
    let PackageMetadata { id, name: _, examples, example_runner, overrides } = pkg;
    let pd = match finalize_entries(&example_runner.default, &example_runner.templates, wt) {
        Ok(x) => x,
        Err(e) => {
            return Err(ExamplesConfigurationError::TemplateResolveError(e));
        },
    };
    let ghost pdv = finals_view(pd@);
    let fb = fallback_configs(wd, pd, example_runner.extend_workspace_defaults);
    let ghost fbv = finals_view(fb@);
    let ghost start = Progress { overrides: overrides_view(overrides@), out: out@ };
    let ghost tv = pv.examples;
    let mut overrides = overrides;
    let mut i: usize = 0;
    assert(tv.take(0) =~= Seq::<Seq<char>>::empty());
    while i < examples.len()
        invariant
            i <= examples@.len(),
            tv == crate::config_args::strings_view(examples@),
            pv.id == id@,
            pv == pkg@,
            tv == pv.examples,
            fbv == finals_view(fb@),
            finalize_all(pv.example_runner.default, pv.example_runner.templates, wt@) == Ok::<
                Seq<FinalView>,
                Seq<char>,
            >(pdv),
            fbv == fallback_of(finals_view(wd@), pdv, pv.example_runner.extend_workspace_defaults),
            start == (Progress { overrides: pv.overrides, out: old(out)@ }),
            pv.example_runner.templates == example_runner.templates@,
            targets_from(id@, tv.take(i as int), fbv, example_runner.templates@, wt@, start) == Ok::<
                Progress,
                FailureView,
            >(Progress { overrides: overrides_view(overrides@), out: out@ }),
        decreases examples@.len() - i,
    {
        let ghost cur = Progress { overrides: overrides_view(overrides@), out: out@ };
        proof {
            assert(tv.take(i + 1).drop_last() =~= tv.take(i as int));
            assert(tv.take(i + 1).last() == examples@[i as int]@);
        }
        match resolve_target(&id, &examples[i], &fb, &example_runner.templates, wt, &mut overrides, out) {
            Ok(()) => {},
            Err(e) => {
                proof {
                    assert(targets_from(id@, tv.take(i + 1), fbv, example_runner.templates@, wt@, start)
                        == target_step(id@, examples@[i as int]@, fbv, example_runner.templates@, wt@, cur));
                    lemma_targets_error_prefix(
                        id@,
                        tv,
                        i + 1,
                        fbv,
                        example_runner.templates@,
                        wt@,
                        start,
                    );
                    let f = targets_from(id@, tv, fbv, example_runner.templates@, wt@, start);
                    assert(package_step(finals_view(wd@), wt@, pv, old(out)@) == Err::<ResolutionView, FailureView>(f->Err_0));
                }
                return Err(e);
            },
        }
        i = i + 1;
    }
    assert(tv.take(i as int) =~= tv);
    let ghost u0 = out@.unknown;
    let ghost e0 = out@.examples;
    let ghost c0 = out@.unconfigured;
    let ghost rest = overrides_view(overrides@);
    let mut j: usize = 0;
    while j < overrides.len()
        invariant
            j <= overrides@.len(),
            rest == overrides_view(overrides@),
            finalize_all(pv.example_runner.default, pv.example_runner.templates, wt@) == Ok::<
                Seq<FinalView>,
                Seq<char>,
            >(pdv),
            fbv == fallback_of(finals_view(wd@), pdv, pv.example_runner.extend_workspace_defaults),
            start == (Progress { overrides: pv.overrides, out: old(out)@ }),
            pv.example_runner.templates == example_runner.templates@,
            targets_from(pv.id, pv.examples, fbv, example_runner.templates@, wt@, start) == Ok::<
                Progress,
                FailureView,
            >(Progress { overrides: rest, out: ResolutionView { unknown: u0, ..out@ } }),
            pv.id == id@,
            out@.unknown == u0 + unknown_of(id@, rest.take(j as int)),
            out@.examples == e0,
            out@.unconfigured == c0,
        decreases overrides@.len() - j,
    {
        let ghost before = out@.unknown;
        out.unknown.push(ExampleIdentity { package_id: id.clone(), target: overrides[j].name.clone() });
        proof {
            assert(unknown_of(id@, rest.take(j + 1)) =~= unknown_of(id@, rest.take(j as int)).push(
                (id@, rest[j as int].name),
            ));
            assert(out@.unknown =~= before.push((id@, rest[j as int].name)));
        }
        j = j + 1;
    }
    assert(rest.take(j as int) =~= rest);
    Ok(())
}

impl ExamplesConfiguration {
    /// Resolves the configuration sets of every example target of the
    /// workspace; see [`resolve_workspace`]. Each package is expected to give
    /// at most one override per example name (see [`well_formed_packages`]);
    /// where it gives more, the first is used and the others are reported
    /// unknown.
    pub fn from_metadata(metadata: WorkspaceMetadata) -> (r: Result<
        ExamplesConfiguration,
        ExamplesConfigurationError,
    >)
        ensures
            match resolve_workspace(metadata@) {
                Ok(o) => r is Ok && r->Ok_0@ == o,
                Err(e) => r is Err && failure_is(r->Err_0, e),
            },
    {
        let ghost mv = metadata@;
        let WorkspaceMetadata { example_runner, packages } = metadata;
        let wd = match finalize_entries(
            &example_runner.default,
            &example_runner.templates,
            &example_runner.templates,
        ) {
            Ok(x) => x,
            Err(e) => {
                return Err(ExamplesConfigurationError::TemplateResolveError(e));
            },
        };
        let ghost wdv = finals_view(wd@);
        let mut out = ExamplesConfiguration {
            examples: Vec::new(),
            unconfigured: Vec::new(),
            unknown: Vec::new(),
        };
        assert(out@ == empty_resolution()) by {
            assert(out@.examples =~= Seq::<((Seq<char>, Seq<char>), Seq<FinalView>)>::empty());
            assert(out@.unconfigured =~= Seq::<(Seq<char>, Seq<char>)>::empty());
            assert(out@.unknown =~= Seq::<(Seq<char>, Seq<char>)>::empty());
        }
        let ghost orig = packages@;
        let ghost all = mv.packages;
        let mut packages = packages;
        let n = packages.len();
        let mut k: usize = 0;
        assert(all.take(0) =~= Seq::<PackageView>::empty());
        while packages.len() > 0
            invariant
                k <= orig.len(),
                k + packages@.len() == orig.len(),
                n == orig.len(),
                packages@ == orig.subrange(k as int, orig.len() as int),
                all == packages_view(orig),
                wdv == finals_view(wd@),
                finalize_all(mv.example_runner.default, mv.example_runner.templates, mv.example_runner.templates)
                    == Ok::<Seq<FinalView>, Seq<char>>(wdv),
                mv.example_runner.templates == example_runner.templates@,
                mv.packages == all,
                mv == metadata@,
                packages_from(all.take(k as int), wdv, example_runner.templates@, empty_resolution())
                    == Ok::<ResolutionView, FailureView>(out@),
            decreases packages@.len(),
        {
            let ghost cur = out@;
            let pkg = packages.remove(0);
            proof {
                assert(pkg == orig[k as int]);
                assert(all.take(k + 1).drop_last() =~= all.take(k as int));
                assert(packages@ =~= orig.subrange(k + 1, orig.len() as int));
            }
            match resolve_package(pkg, &wd, &example_runner.templates, &mut out) {
                Ok(()) => {},
                Err(e) => {
                    proof {
                        assert(packages_from(all.take(k + 1), wdv, example_runner.templates@, empty_resolution())
                            == package_step(wdv, example_runner.templates@, all[k as int], cur));
                        lemma_packages_error_prefix(
                            all,
                            k + 1,
                            wdv,
                            example_runner.templates@,
                            empty_resolution(),
                        );
                        assert(resolve_workspace(mv) == packages_from(all, wdv, example_runner.templates@, empty_resolution()));
                    }
                    return Err(e);
                },
            }
            k = k + 1;
        }
        assert(all.take(k as int) =~= all);
        Ok(out)
    }
}

/// Whether `es` has an entry for `id`.
pub open spec fn key_in(es: Seq<((Seq<char>, Seq<char>), Seq<FinalView>)>, id: (Seq<char>, Seq<char>)) -> bool {
    exists|i: int| 0 <= i < es.len() && (#[trigger] es[i]).0 == id
}

/// Whether `id` names an example target of one of `pkgs`.
pub open spec fn is_example_target(pkgs: Seq<PackageView>, id: (Seq<char>, Seq<char>)) -> bool {
    exists|i: int| 0 <= i < pkgs.len() && (#[trigger] pkgs[i]).id == id.0 && pkgs[i].examples.contains(id.1)
}

/// No two overrides name the same example.
pub open spec fn unique_override_names(ovs: Seq<OverrideView>) -> bool {
    forall|a: int, b: int| 0 <= a < ovs.len() && 0 <= b < ovs.len() && a != b ==> (#[trigger] ovs[a]).name != (#[trigger] ovs[b]).name
}

/// Package identifiers are unique; within each package, so are the example
/// target names and the names that overrides are given for.
pub open spec fn well_formed_packages(pkgs: Seq<PackageView>) -> bool {
    &&& forall|i: int, j: int| 0 <= i < pkgs.len() && 0 <= j < pkgs.len() && i != j ==> (#[trigger] pkgs[i]).id != (#[trigger] pkgs[j]).id
    &&& forall|i: int| 0 <= i < pkgs.len() ==> (#[trigger] pkgs[i]).examples.no_duplicates()
    &&& forall|i: int| 0 <= i < pkgs.len() ==> unique_override_names((#[trigger] pkgs[i]).overrides)
}

/// Every identity of `s`, and no other, is configured or unconfigured, and
/// none is both.
pub open spec fn partitioned(out: ResolutionView, s: Set<(Seq<char>, Seq<char>)>) -> bool {
    &&& forall|id: (Seq<char>, Seq<char>)| (key_in(out.examples, id) || out.unconfigured.contains(id)) <==> s.contains(id)
    &&& forall|id: (Seq<char>, Seq<char>)| !(key_in(out.examples, id) && out.unconfigured.contains(id))
}

proof fn lemma_key_in_push(
    es: Seq<((Seq<char>, Seq<char>), Seq<FinalView>)>,
    e: ((Seq<char>, Seq<char>), Seq<FinalView>),
)
    ensures
        forall|id: (Seq<char>, Seq<char>)| key_in(es.push(e), id) == (key_in(es, id) || e.0 == id),
{
    assert forall|id: (Seq<char>, Seq<char>)| key_in(es.push(e), id) == (key_in(es, id) || e.0 == id) by {
        if key_in(es.push(e), id) {
            let i = choose|i: int| 0 <= i < es.push(e).len() && (#[trigger] es.push(e)[i]).0 == id;
            if i < es.len() {
                assert(es[i].0 == id);
            }
        }
        if key_in(es, id) {
            let i = choose|i: int| 0 <= i < es.len() && (#[trigger] es[i]).0 == id;
            assert(es.push(e)[i].0 == id);
        }
        if e.0 == id {
            assert(es.push(e)[es.len() as int].0 == id);
        }
    }
}

proof fn lemma_contains_push(s: Seq<(Seq<char>, Seq<char>)>, x: (Seq<char>, Seq<char>))
    ensures
        forall|y: (Seq<char>, Seq<char>)| s.push(x).contains(y) == (s.contains(y) || x == y),
{
    assert forall|y: (Seq<char>, Seq<char>)| s.push(x).contains(y) == (s.contains(y) || x == y) by {
        if s.push(x).contains(y) {
            let i = choose|i: int| 0 <= i < s.push(x).len() && s.push(x)[i] == y;
            if i < s.len() {
                assert(s[i] == y);
            }
        }
        if s.contains(y) {
            let i = choose|i: int| 0 <= i < s.len() && s[i] == y;
            assert(s.push(x)[i] == y);
        }
        if x == y {
            assert(s.push(x)[s.len() as int] == y);
        }
    }
}

proof fn lemma_target_step_partition(
    pid: Seq<char>,
    name: Seq<char>,
    fb: Seq<FinalView>,
    package: Map<Seq<char>, ConfigView>,
    workspace: Map<Seq<char>, ConfigView>,
    st: Progress,
    s: Set<(Seq<char>, Seq<char>)>,
)
    requires
        partitioned(st.out, s),
        !s.contains((pid, name)),
        target_step(pid, name, fb, package, workspace, st) is Ok,
    ensures
        partitioned(target_step(pid, name, fb, package, workspace, st)->Ok_0.out, s.insert((pid, name))),
{
    let id = (pid, name);
    let next = target_step(pid, name, fb, package, workspace, st)->Ok_0.out;
    if has_override(st.overrides, name) || fb.len() > 0 {
        let e = next.examples.last();
        assert(next.examples == st.out.examples.push(e));
        assert(e.0 == id);
        lemma_key_in_push(st.out.examples, e);
        assert(next.unconfigured == st.out.unconfigured);
    } else {
        lemma_contains_push(st.out.unconfigured, id);
        assert(next.examples == st.out.examples);
    }
}

proof fn lemma_targets_partition(
    pid: Seq<char>,
    targets: Seq<Seq<char>>,
    fb: Seq<FinalView>,
    package: Map<Seq<char>, ConfigView>,
    workspace: Map<Seq<char>, ConfigView>,
    start: Progress,
    s: Set<(Seq<char>, Seq<char>)>,
)
    requires
        partitioned(start.out, s),
        targets.no_duplicates(),
        forall|n: Seq<char>| targets.contains(n) ==> !s.contains((pid, n)),
        targets_from(pid, targets, fb, package, workspace, start) is Ok,
    ensures
        partitioned(
            targets_from(pid, targets, fb, package, workspace, start)->Ok_0.out,
            s + Set::new(|id: (Seq<char>, Seq<char>)| id.0 == pid && targets.contains(id.1)),
        ),
        targets_from(pid, targets, fb, package, workspace, start)->Ok_0.out.unknown == start.out.unknown,
    decreases targets.len(),
{
    if targets.len() > 0 {
        let d = targets.drop_last();
        let last = targets.last();
        assert forall|n: Seq<char>| d.contains(n) implies targets.contains(n) by {
            let j = choose|j: int| 0 <= j < d.len() && d[j] == n;
            assert(targets[j] == n);
        }
        lemma_targets_partition(pid, d, fb, package, workspace, start, s);
        let mid = targets_from(pid, d, fb, package, workspace, start)->Ok_0;
        let sd = s + Set::new(|id: (Seq<char>, Seq<char>)| id.0 == pid && d.contains(id.1));
        assert(targets.contains(last)) by {
            assert(targets[targets.len() - 1] == last);
        }
        assert(!d.contains(last)) by {
            if d.contains(last) {
                let j = choose|j: int| 0 <= j < d.len() && d[j] == last;
                assert(targets[j] == targets[targets.len() - 1]);
            }
        }
        lemma_target_step_partition(pid, last, fb, package, workspace, mid, sd);
        let st = Set::new(|id: (Seq<char>, Seq<char>)| id.0 == pid && targets.contains(id.1));
        assert(sd.insert((pid, last)) =~= s + st) by {
            assert forall|id: (Seq<char>, Seq<char>)| #[trigger] (s + st).contains(id) implies sd.insert((pid, last)).contains(id) by {
                if !s.contains(id) && id != (pid, last) {
                    let j = choose|j: int| 0 <= j < targets.len() && targets[j] == id.1;
                    if j == targets.len() - 1 {
                        assert(id == (pid, last));
                    } else {
                        assert(d[j] == id.1);
                    }
                }
            }
        }
    } else {
        let st = Set::new(|id: (Seq<char>, Seq<char>)| id.0 == pid && targets.contains(id.1));
        assert(s + st =~= s);
    }
}

proof fn lemma_packages_partition(
    pkgs: Seq<PackageView>,
    wd: Seq<FinalView>,
    wt: Map<Seq<char>, ConfigView>,
    start: ResolutionView,
    s: Set<(Seq<char>, Seq<char>)>,
)
    requires
        partitioned(start, s),
        well_formed_packages(pkgs),
        forall|id: (Seq<char>, Seq<char>)| is_example_target(pkgs, id) ==> !s.contains(id),
        packages_from(pkgs, wd, wt, start) is Ok,
    ensures
        partitioned(
            packages_from(pkgs, wd, wt, start)->Ok_0,
            s + Set::new(|id: (Seq<char>, Seq<char>)| is_example_target(pkgs, id)),
        ),
    decreases pkgs.len(),
{
    let all = Set::new(|id: (Seq<char>, Seq<char>)| is_example_target(pkgs, id));
    if pkgs.len() > 0 {
        let d = pkgs.drop_last();
        let last = pkgs.last();
        let li = pkgs.len() - 1;
        assert(pkgs[li] == last);
        assert forall|id: (Seq<char>, Seq<char>)| is_example_target(d, id) implies is_example_target(pkgs, id) by {
            let i = choose|i: int| 0 <= i < d.len() && (#[trigger] d[i]).id == id.0 && d[i].examples.contains(id.1);
            assert(pkgs[i] == d[i]);
        }
        assert(well_formed_packages(d)) by {
            assert forall|i: int, j: int| 0 <= i < d.len() && 0 <= j < d.len() && i != j implies (#[trigger] d[i]).id != (#[trigger] d[j]).id by {
                assert(pkgs[i] == d[i] && pkgs[j] == d[j]);
            }
            assert forall|i: int| 0 <= i < d.len() implies (#[trigger] d[i]).examples.no_duplicates() by {
                assert(pkgs[i] == d[i]);
            }
            assert forall|i: int| 0 <= i < d.len() implies unique_override_names((#[trigger] d[i]).overrides) by {
                assert(pkgs[i] == d[i]);
            }
        }
        lemma_packages_partition(d, wd, wt, start, s);
        let mid = packages_from(d, wd, wt, start)->Ok_0;
        let sd = s + Set::new(|id: (Seq<char>, Seq<char>)| is_example_target(d, id));
        let cfg = last.example_runner;
        let pd = finalize_all(cfg.default, cfg.templates, wt)->Ok_0;
        let fb = fallback_of(wd, pd, cfg.extend_workspace_defaults);
        let pr = Progress { overrides: last.overrides, out: mid };
        assert forall|n: Seq<char>| last.examples.contains(n) implies !sd.contains((last.id, n)) by {
            assert(is_example_target(pkgs, (last.id, n)));
            if is_example_target(d, (last.id, n)) {
                let i = choose|i: int| 0 <= i < d.len() && (#[trigger] d[i]).id == last.id && d[i].examples.contains(n);
                assert(pkgs[i] == d[i]);
                assert(pkgs[i].id != pkgs[li].id);
            }
        }
        lemma_targets_partition(last.id, last.examples, fb, cfg.templates, wt, pr, sd);
        let tl = Set::new(|id: (Seq<char>, Seq<char>)| id.0 == last.id && last.examples.contains(id.1));
        assert(sd + tl =~= s + all) by {
            assert forall|id: (Seq<char>, Seq<char>)| #[trigger] (s + all).contains(id) implies (sd + tl).contains(id) by {
                if all.contains(id) && !s.contains(id) {
                    let i = choose|i: int| 0 <= i < pkgs.len() && (#[trigger] pkgs[i]).id == id.0 && pkgs[i].examples.contains(id.1);
                    if i < li {
                        assert(d[i] == pkgs[i]);
                        assert(is_example_target(d, id));
                    }
                }
            }
            assert forall|id: (Seq<char>, Seq<char>)| #[trigger] (sd + tl).contains(id) implies (s + all).contains(id) by {
                if tl.contains(id) {
                    assert(is_example_target(pkgs, id));
                }
            }
        }
    } else {
        assert(s + all =~= s);
    }
}

/// Every example target of a workspace whose package identifiers are unique,
/// and whose packages name each example target once, ends up either with a
/// configuration set or unconfigured, never both; nothing else ends up in
/// either.
pub proof fn lemma_configured_or_unconfigured(m: WorkspaceView)
    requires
        well_formed_packages(m.packages),
        resolve_workspace(m) is Ok,
    ensures
        forall|id: (Seq<char>, Seq<char>)|
            is_example_target(m.packages, id) ==> (key_in(resolve_workspace(m)->Ok_0.examples, id)
                != resolve_workspace(m)->Ok_0.unconfigured.contains(id)),
        forall|id: (Seq<char>, Seq<char>)|
            key_in(resolve_workspace(m)->Ok_0.examples, id) || resolve_workspace(m)->Ok_0.unconfigured.contains(id)
                ==> is_example_target(m.packages, id),
{
    let cfg = m.example_runner;
    let wd = finalize_all(cfg.default, cfg.templates, cfg.templates)->Ok_0;
    let e = empty_resolution();
    assert(partitioned(e, Set::empty()));
    lemma_packages_partition(m.packages, wd, cfg.templates, e, Set::empty());
    let all = Set::new(|id: (Seq<char>, Seq<char>)| is_example_target(m.packages, id));
    assert(Set::<(Seq<char>, Seq<char>)>::empty() + all =~= all);
    let out = resolve_workspace(m)->Ok_0;
    assert(out == packages_from(m.packages, wd, cfg.templates, e)->Ok_0);
    assert(partitioned(out, all));
    assert forall|id: (Seq<char>, Seq<char>)| is_example_target(m.packages, id) implies (key_in(out.examples, id)
        != out.unconfigured.contains(id)) by {
        assert(all.contains(id));
    }
    assert forall|id: (Seq<char>, Seq<char>)| key_in(out.examples, id) || out.unconfigured.contains(id)
        implies is_example_target(m.packages, id) by {
        assert(all.contains(id));
    }
}

proof fn lemma_first_exists(ovs: Seq<OverrideView>, name: Seq<char>)
    requires
        has_override(ovs, name),
    ensures
        is_first_override(ovs, name, first_override(ovs, name)),
    decreases ovs.len(),
{
    let d = ovs.drop_last();
    if has_override(d, name) {
        lemma_first_exists(d, name);
        let k = first_override(d, name);
        assert forall|j: int| 0 <= j < k implies ovs[j].name != name by {
            assert(ovs[j] == d[j]);
        }
        assert(ovs[k] == d[k]);
        assert(is_first_override(ovs, name, k));
    } else {
        let k = ovs.len() - 1;
        let w = choose|i: int| 0 <= i < ovs.len() && ovs[i].name == name;
        if w < k {
            assert(d[w].name == name);
        }
        assert forall|j: int| 0 <= j < k implies ovs[j].name != name by {
            if ovs[j].name == name {
                assert(d[j].name == name);
            }
        }
        assert(is_first_override(ovs, name, k));
    }
}

proof fn lemma_targets_keep(
    pid: Seq<char>,
    targets: Seq<Seq<char>>,
    fb: Seq<FinalView>,
    package: Map<Seq<char>, ConfigView>,
    workspace: Map<Seq<char>, ConfigView>,
    start: Progress,
    ov: OverrideView,
)
    requires
        targets_from(pid, targets, fb, package, workspace, start) is Ok,
    ensures
        targets_from(pid, targets, fb, package, workspace, start)->Ok_0.out.unknown == start.out.unknown,
        start.overrides.contains(ov) && !targets.contains(ov.name) ==> targets_from(
            pid,
            targets,
            fb,
            package,
            workspace,
            start,
        )->Ok_0.overrides.contains(ov),
    decreases targets.len(),
{
    if targets.len() > 0 {
        let d = targets.drop_last();
        let last = targets.last();
        if targets.contains(ov.name) {
        } else {
            assert(!d.contains(ov.name)) by {
                if d.contains(ov.name) {
                    let j = choose|j: int| 0 <= j < d.len() && d[j] == ov.name;
                    assert(targets[j] == ov.name);
                }
            }
        }
        lemma_targets_keep(pid, d, fb, package, workspace, start, ov);
        let mid = targets_from(pid, d, fb, package, workspace, start)->Ok_0;
        if start.overrides.contains(ov) && !targets.contains(ov.name) && has_override(mid.overrides, last) {
            lemma_first_exists(mid.overrides, last);
            let k = first_override(mid.overrides, last);
            assert(targets[targets.len() - 1] == last);
            assert(ov.name != last);
            let a = choose|a: int| 0 <= a < mid.overrides.len() && mid.overrides[a] == ov;
            let r = mid.overrides.remove(k);
            if a < k {
                assert(r[a] == ov);
            } else {
                assert(a != k);
                assert(r[a - 1] == ov);
            }
        }
    }
}

proof fn lemma_packages_unknown_grow(
    pkgs: Seq<PackageView>,
    wd: Seq<FinalView>,
    wt: Map<Seq<char>, ConfigView>,
    start: ResolutionView,
    k: int,
)
    requires
        packages_from(pkgs, wd, wt, start) is Ok,
        0 <= k <= pkgs.len(),
    ensures
        packages_from(pkgs.take(k), wd, wt, start) is Ok,
        forall|x: (Seq<char>, Seq<char>)|
            packages_from(pkgs.take(k), wd, wt, start)->Ok_0.unknown.contains(x) ==> packages_from(
                pkgs,
                wd,
                wt,
                start,
            )->Ok_0.unknown.contains(x),
        forall|x: ((Seq<char>, Seq<char>), Seq<FinalView>)|
            packages_from(pkgs.take(k), wd, wt, start)->Ok_0.examples.contains(x) ==> packages_from(
                pkgs,
                wd,
                wt,
                start,
            )->Ok_0.examples.contains(x),
        forall|x: (Seq<char>, Seq<char>)|
            packages_from(pkgs.take(k), wd, wt, start)->Ok_0.unconfigured.contains(x) ==> packages_from(
                pkgs,
                wd,
                wt,
                start,
            )->Ok_0.unconfigured.contains(x),
    decreases pkgs.len(),
{
    if k == pkgs.len() {
        assert(pkgs.take(k) =~= pkgs);
    } else {
        let d = pkgs.drop_last();
        assert(d.take(k) =~= pkgs.take(k));
        lemma_packages_unknown_grow(d, wd, wt, start, k);
        let mid = packages_from(d, wd, wt, start)->Ok_0;
        let last = pkgs.last();
        let cfg = last.example_runner;
        let pd = finalize_all(cfg.default, cfg.templates, wt)->Ok_0;
        let fb = fallback_of(wd, pd, cfg.extend_workspace_defaults);
        let pr = Progress { overrides: last.overrides, out: mid };
        lemma_targets_keep(last.id, last.examples, fb, cfg.templates, wt, pr, arbitrary());
        let st = targets_from(last.id, last.examples, fb, cfg.templates, wt, pr)->Ok_0;
        let fin = packages_from(pkgs, wd, wt, start)->Ok_0;
        assert(fin.unknown == mid.unknown + unknown_of(last.id, st.overrides));
        assert forall|x: (Seq<char>, Seq<char>)| mid.unknown.contains(x) implies fin.unknown.contains(x) by {
            let j = choose|j: int| 0 <= j < mid.unknown.len() && mid.unknown[j] == x;
            assert(fin.unknown[j] == x);
        }
        lemma_targets_monotone(last.id, last.examples, fb, cfg.templates, wt, pr);
        assert(fin.examples == st.out.examples);
        assert(fin.unconfigured == st.out.unconfigured);
        assert forall|x: ((Seq<char>, Seq<char>), Seq<FinalView>)| mid.examples.contains(x) implies fin.examples.contains(x) by {
            assert(pr.out.examples.contains(x));
        }
        assert forall|x: (Seq<char>, Seq<char>)| mid.unconfigured.contains(x) implies fin.unconfigured.contains(x) by {
            assert(pr.out.unconfigured.contains(x));
        }
    }
}

/// In a workspace whose package identifiers are unique and whose packages
/// name each example target once, an override that names no example target of
/// its package gets no configuration set and is reported as unknown under its
/// package's identifier.
pub proof fn lemma_unknown_detection(m: WorkspaceView, i: int, j: int)
    requires
        well_formed_packages(m.packages),
        resolve_workspace(m) is Ok,
        0 <= i < m.packages.len(),
        0 <= j < m.packages[i].overrides.len(),
        !m.packages[i].examples.contains(m.packages[i].overrides[j].name),
    ensures
        !key_in(resolve_workspace(m)->Ok_0.examples, (m.packages[i].id, m.packages[i].overrides[j].name)),
        resolve_workspace(m)->Ok_0.unknown.contains((m.packages[i].id, m.packages[i].overrides[j].name)),
{
    let pkgs = m.packages;
    let pkg = pkgs[i];
    let ov = pkg.overrides[j];
    let id = (pkg.id, ov.name);
    let out = resolve_workspace(m)->Ok_0;
    lemma_configured_or_unconfigured(m);
    if key_in(out.examples, id) {
        assert(is_example_target(pkgs, id));
        let a = choose|a: int| 0 <= a < pkgs.len() && (#[trigger] pkgs[a]).id == id.0 && pkgs[a].examples.contains(id.1);
        if a != i {
            assert(pkgs[a].id != pkgs[i].id);
        }
        assert(false);
    }
    let cfg = m.example_runner;
    let wd = finalize_all(cfg.default, cfg.templates, cfg.templates)->Ok_0;
    let e = empty_resolution();
    lemma_packages_unknown_grow(pkgs, wd, cfg.templates, e, i + 1);
    assert(pkgs.take(i + 1).drop_last() =~= pkgs.take(i));
    let before = packages_from(pkgs.take(i), wd, cfg.templates, e)->Ok_0;
    let pcfg = pkg.example_runner;
    let pd = finalize_all(pcfg.default, pcfg.templates, cfg.templates)->Ok_0;
    let fb = fallback_of(wd, pd, pcfg.extend_workspace_defaults);
    let pr = Progress { overrides: pkg.overrides, out: before };
    assert(pkg.overrides[j] == ov);
    lemma_targets_keep(pkg.id, pkg.examples, fb, pcfg.templates, cfg.templates, pr, ov);
    let st = targets_from(pkg.id, pkg.examples, fb, pcfg.templates, cfg.templates, pr)->Ok_0;
    let b = choose|b: int| 0 <= b < st.overrides.len() && st.overrides[b] == ov;
    let after = packages_from(pkgs.take(i + 1), wd, cfg.templates, e)->Ok_0;
    assert(after.unknown == st.out.unknown + unknown_of(pkg.id, st.overrides));
    assert(after.unknown[st.out.unknown.len() + b] == id);
    assert(after.unknown.contains(id));
}

proof fn lemma_remove_contains<A>(s: Seq<A>, k: int)
    requires
        0 <= k < s.len(),
    ensures
        forall|x: A| s.remove(k).contains(x) ==> s.contains(x),
{
    assert forall|x: A| s.remove(k).contains(x) implies s.contains(x) by {
        let j = choose|j: int| 0 <= j < s.remove(k).len() && s.remove(k)[j] == x;
        if j < k {
            assert(s[j] == x);
        } else {
            assert(s[j + 1] == x);
        }
    }
}

proof fn lemma_push_contains<A>(s: Seq<A>, y: A)
    ensures
        forall|x: A| s.contains(x) ==> s.push(y).contains(x),
        s.push(y).contains(y),
{
    assert forall|x: A| s.contains(x) implies s.push(y).contains(x) by {
        let j = choose|j: int| 0 <= j < s.len() && s[j] == x;
        assert(s.push(y)[j] == x);
    }
    assert(s.push(y)[s.len() as int] == y);
}

proof fn lemma_targets_monotone(
    pid: Seq<char>,
    targets: Seq<Seq<char>>,
    fb: Seq<FinalView>,
    package: Map<Seq<char>, ConfigView>,
    workspace: Map<Seq<char>, ConfigView>,
    start: Progress,
)
    requires
        targets_from(pid, targets, fb, package, workspace, start) is Ok,
    ensures
        forall|o: OverrideView|
            targets_from(pid, targets, fb, package, workspace, start)->Ok_0.overrides.contains(o)
                ==> start.overrides.contains(o),
        forall|x: ((Seq<char>, Seq<char>), Seq<FinalView>)|
            start.out.examples.contains(x) ==> targets_from(pid, targets, fb, package, workspace, start)->Ok_0.out.examples.contains(x),
        forall|x: (Seq<char>, Seq<char>)|
            start.out.unconfigured.contains(x) ==> targets_from(pid, targets, fb, package, workspace, start)->Ok_0.out.unconfigured.contains(x),
        forall|t: Seq<char>|
            targets.contains(t) && !has_override(start.overrides, t) ==> (if fb.len() == 0 {
                targets_from(pid, targets, fb, package, workspace, start)->Ok_0.out.unconfigured.contains((pid, t))
            } else {
                targets_from(pid, targets, fb, package, workspace, start)->Ok_0.out.examples.contains(((pid, t), fb))
            }),
    decreases targets.len(),
{
    if targets.len() > 0 {
        let d = targets.drop_last();
        let last = targets.last();
        lemma_targets_monotone(pid, d, fb, package, workspace, start);
        let mid = targets_from(pid, d, fb, package, workspace, start)->Ok_0;
        let next = targets_from(pid, targets, fb, package, workspace, start)->Ok_0;
        assert(next == target_step(pid, last, fb, package, workspace, mid)->Ok_0);
        if has_override(mid.overrides, last) {
            let k = first_override(mid.overrides, last);
            lemma_first_exists(mid.overrides, last);
            lemma_remove_contains(mid.overrides, k);
            lemma_push_contains(mid.out.examples, next.out.examples.last());
            assert(next.out.examples == mid.out.examples.push(next.out.examples.last()));
        } else if fb.len() == 0 {
            lemma_push_contains(mid.out.unconfigured, (pid, last));
        } else {
            lemma_push_contains(mid.out.examples, ((pid, last), fb));
        }
        assert forall|t: Seq<char>| targets.contains(t) && !has_override(start.overrides, t) implies (if fb.len() == 0 {
            next.out.unconfigured.contains((pid, t))
        } else {
            next.out.examples.contains(((pid, t), fb))
        }) by {
            let j = choose|j: int| 0 <= j < targets.len() && targets[j] == t;
            if j < targets.len() - 1 {
                assert(d[j] == t);
                assert(d.contains(t));
                assert(if fb.len() == 0 {
                    mid.out.unconfigured.contains((pid, t))
                } else {
                    mid.out.examples.contains(((pid, t), fb))
                });
                if has_override(mid.overrides, last) {
                    lemma_push_contains(mid.out.examples, next.out.examples.last());
                    assert(next.out.examples == mid.out.examples.push(next.out.examples.last()));
                    assert(next.out.unconfigured == mid.out.unconfigured);
                } else if fb.len() == 0 {
                    lemma_push_contains(mid.out.unconfigured, (pid, last));
                    assert(next.out.examples == mid.out.examples);
                } else {
                    lemma_push_contains(mid.out.examples, ((pid, last), fb));
                    assert(next.out.unconfigured == mid.out.unconfigured);
                }
            } else {
                assert(!has_override(mid.overrides, t)) by {
                    if has_override(mid.overrides, t) {
                        let a = choose|a: int| 0 <= a < mid.overrides.len() && mid.overrides[a].name == t;
                        assert(mid.overrides.contains(mid.overrides[a]));
                        assert(start.overrides.contains(mid.overrides[a]));
                        let b = choose|b: int| 0 <= b < start.overrides.len() && start.overrides[b] == mid.overrides[a];
                        assert(start.overrides[b].name == t);
                    }
                }
                assert(t == last);
                if fb.len() == 0 {
                    lemma_push_contains(mid.out.unconfigured, (pid, last));
                    assert(next.out.unconfigured == mid.out.unconfigured.push((pid, last)));
                } else {
                    lemma_push_contains(mid.out.examples, ((pid, last), fb));
                    assert(next.out.examples == mid.out.examples.push(((pid, last), fb)));
                }
            }
        }
    }
}

/// The workspace's default configurations, resolved and finalized.
pub open spec fn workspace_defaults(m: WorkspaceView) -> Seq<FinalView> {
    let cfg = m.example_runner;
    finalize_all(cfg.default, cfg.templates, cfg.templates)->Ok_0
}

/// The default configurations of package `i`, resolved and finalized.
pub open spec fn package_defaults(m: WorkspaceView, i: int) -> Seq<FinalView> {
    let cfg = m.packages[i].example_runner;
    finalize_all(cfg.default, cfg.templates, m.example_runner.templates)->Ok_0
}

/// An example target without an override gets the fallback set of its
/// package, which depends on the workspace's defaults `W`, the package's
/// defaults `P` and its extend flag alone: without extending it is `P`, or
/// `W` when `P` is empty; with extending it is the union of `W` and `P`. When
/// that set is empty the target is unconfigured.
pub proof fn lemma_fallback_of_target(m: WorkspaceView, i: int, t: Seq<char>)
    requires
        resolve_workspace(m) is Ok,
        0 <= i < m.packages.len(),
        m.packages[i].examples.contains(t),
        !has_override(m.packages[i].overrides, t),
    ensures
        ({
            let w = workspace_defaults(m);
            let p = package_defaults(m, i);
            let extend = m.packages[i].example_runner.extend_workspace_defaults;
            let f = fallback_of(w, p, extend);
            let out = resolve_workspace(m)->Ok_0;
            let id = (m.packages[i].id, t);
            &&& f.len() == 0 ==> out.unconfigured.contains(id)
            &&& f.len() > 0 ==> out.examples.contains((id, f))
            &&& !extend ==> f.to_set() == (if p.len() > 0 { p.to_set() } else { w.to_set() })
            &&& extend ==> f.to_set() == w.to_set() + p.to_set()
        }),
{
    let pkgs = m.packages;
    let pkg = pkgs[i];
    let cfg = m.example_runner;
    let wd = workspace_defaults(m);
    let e = empty_resolution();
    lemma_packages_unknown_grow(pkgs, wd, cfg.templates, e, i + 1);
    assert(pkgs.take(i + 1).drop_last() =~= pkgs.take(i));
    assert(pkgs.take(i + 1).last() == pkg);
    let before = packages_from(pkgs.take(i), wd, cfg.templates, e)->Ok_0;
    let pcfg = pkg.example_runner;
    let pd = package_defaults(m, i);
    let fb = fallback_of(wd, pd, pcfg.extend_workspace_defaults);
    let pr = Progress { overrides: pkg.overrides, out: before };
    lemma_targets_monotone(pkg.id, pkg.examples, fb, pcfg.templates, cfg.templates, pr);
    crate::fallback::lemma_fallback_sets(wd, pd, pcfg.extend_workspace_defaults);
}

proof fn lemma_step_keeps(
    pid: Seq<char>,
    name: Seq<char>,
    fb: Seq<FinalView>,
    package: Map<Seq<char>, ConfigView>,
    workspace: Map<Seq<char>, ConfigView>,
    st: Progress,
)
    requires
        target_step(pid, name, fb, package, workspace, st) is Ok,
    ensures
        forall|x: ((Seq<char>, Seq<char>), Seq<FinalView>)|
            st.out.examples.contains(x) ==> target_step(pid, name, fb, package, workspace, st)->Ok_0.out.examples.contains(x),
{
    let next = target_step(pid, name, fb, package, workspace, st)->Ok_0;
    if has_override(st.overrides, name) || fb.len() > 0 {
        lemma_push_contains(st.out.examples, next.out.examples.last());
        assert(next.out.examples == st.out.examples.push(next.out.examples.last()));
    } else {
        assert(next.out.examples == st.out.examples);
    }
}

proof fn lemma_targets_prefix_grow(
    pid: Seq<char>,
    targets: Seq<Seq<char>>,
    k: int,
    fb: Seq<FinalView>,
    package: Map<Seq<char>, ConfigView>,
    workspace: Map<Seq<char>, ConfigView>,
    start: Progress,
)
    requires
        targets_from(pid, targets, fb, package, workspace, start) is Ok,
        0 <= k <= targets.len(),
    ensures
        targets_from(pid, targets.take(k), fb, package, workspace, start) is Ok,
        forall|x: ((Seq<char>, Seq<char>), Seq<FinalView>)|
            targets_from(pid, targets.take(k), fb, package, workspace, start)->Ok_0.out.examples.contains(x)
                ==> targets_from(pid, targets, fb, package, workspace, start)->Ok_0.out.examples.contains(x),
    decreases targets.len(),
{
    if k == targets.len() {
        assert(targets.take(k) =~= targets);
    } else {
        let d = targets.drop_last();
        assert(d.take(k) =~= targets.take(k));
        lemma_targets_prefix_grow(pid, d, k, fb, package, workspace, start);
        let mid = targets_from(pid, d, fb, package, workspace, start)->Ok_0;
        lemma_step_keeps(pid, targets.last(), fb, package, workspace, mid);
        let full = targets_from(pid, targets, fb, package, workspace, start)->Ok_0;
        assert(full == target_step(pid, targets.last(), fb, package, workspace, mid)->Ok_0);
        assert forall|x: ((Seq<char>, Seq<char>), Seq<FinalView>)|
            targets_from(pid, targets.take(k), fb, package, workspace, start)->Ok_0.out.examples.contains(x)
                implies full.out.examples.contains(x) by {
            assert(mid.out.examples.contains(x));
        }
    }
}

/// An example target with an override gets the override's configurations,
/// each resolved against its package's templates then the workspace's and
/// finalized, joined with its package's fallback set only when the override
/// extends it. Resolution succeeds only if all of them resolve: a
/// configuration naming a template that neither scope has makes it fail.
pub proof fn lemma_override_of_target(m: WorkspaceView, i: int, a: int)
    requires
        well_formed_packages(m.packages),
        resolve_workspace(m) is Ok,
        0 <= i < m.packages.len(),
        0 <= a < m.packages[i].overrides.len(),
        m.packages[i].examples.contains(m.packages[i].overrides[a].name),
    ensures
        ({
            let pkg = m.packages[i];
            let ov = pkg.overrides[a];
            let ex = finalize_all(ov.configurations, pkg.example_runner.templates, m.example_runner.templates);
            let f = fallback_of(
                workspace_defaults(m),
                package_defaults(m, i),
                pkg.example_runner.extend_workspace_defaults,
            );
            &&& ex is Ok
            &&& resolve_workspace(m)->Ok_0.examples.contains(
                ((pkg.id, ov.name), if ov.extend_configurations { union_seq(ex->Ok_0, f) } else { ex->Ok_0 }),
            )
        }),
{
    let pkgs = m.packages;
    let pkg = pkgs[i];
    let ov = pkg.overrides[a];
    let t = ov.name;
    let cfg = m.example_runner;
    let wd = workspace_defaults(m);
    let e = empty_resolution();
    lemma_packages_unknown_grow(pkgs, wd, cfg.templates, e, i + 1);
    assert(pkgs.take(i + 1).drop_last() =~= pkgs.take(i));
    assert(pkgs.take(i + 1).last() == pkg);
    let before = packages_from(pkgs.take(i), wd, cfg.templates, e)->Ok_0;
    let pcfg = pkg.example_runner;
    let pd = package_defaults(m, i);
    let fb = fallback_of(wd, pd, pcfg.extend_workspace_defaults);
    let pr = Progress { overrides: pkg.overrides, out: before };
    let targets = pkg.examples;
    assert(targets_from(pkg.id, targets, fb, pcfg.templates, cfg.templates, pr) is Ok);
    let j = choose|j: int| 0 <= j < targets.len() && targets[j] == t;
    lemma_targets_prefix_grow(pkg.id, targets, j + 1, fb, pcfg.templates, cfg.templates, pr);
    let tj = targets.take(j);
    assert(targets.take(j + 1).drop_last() =~= tj);
    assert(targets.take(j + 1).last() == t);
    assert(targets_from(pkg.id, tj, fb, pcfg.templates, cfg.templates, pr) is Ok);
    assert(!tj.contains(t)) by {
        if tj.contains(t) {
            let b = choose|b: int| 0 <= b < tj.len() && tj[b] == t;
            assert(targets[b] == targets[j]);
        }
    }
    assert(pkg.overrides.contains(ov)) by {
        assert(pkg.overrides[a] == ov);
    }
    lemma_targets_keep(pkg.id, tj, fb, pcfg.templates, cfg.templates, pr, ov);
    lemma_targets_monotone(pkg.id, tj, fb, pcfg.templates, cfg.templates, pr);
    let mid = targets_from(pkg.id, tj, fb, pcfg.templates, cfg.templates, pr)->Ok_0;
    let c = choose|c: int| 0 <= c < mid.overrides.len() && mid.overrides[c] == ov;
    assert(has_override(mid.overrides, t)) by {
        assert(mid.overrides[c].name == t);
    }
    lemma_first_exists(mid.overrides, t);
    let k = first_override(mid.overrides, t);
    assert(mid.overrides[k] == ov) by {
        let o = mid.overrides[k];
        assert(mid.overrides.contains(o));
        assert(targets_from(pkg.id, tj, fb, pcfg.templates, cfg.templates, pr)->Ok_0.overrides.contains(o));
        assert(pr.overrides.contains(o));
        assert(pkg.overrides.contains(o));
        let b = choose|b: int| 0 <= b < pkg.overrides.len() && pkg.overrides[b] == mid.overrides[k];
        assert(pkgs[i] == pkg);
        assert(unique_override_names(pkg.overrides));
        if b != a {
            assert(pkg.overrides[b].name != pkg.overrides[a].name);
        }
    }
    let step = target_step(pkg.id, t, fb, pcfg.templates, cfg.templates, mid);
    assert(step is Ok);
    let entry = ((pkg.id, t), if ov.extend_configurations {
        union_seq(finalize_all(ov.configurations, pcfg.templates, cfg.templates)->Ok_0, fb)
    } else {
        finalize_all(ov.configurations, pcfg.templates, cfg.templates)->Ok_0
    });
    assert(step->Ok_0.out.examples == mid.out.examples.push(entry));
    lemma_push_contains(mid.out.examples, entry);
    let st = targets_from(pkg.id, targets, fb, pcfg.templates, cfg.templates, pr)->Ok_0;
    assert(st.out.examples.contains(entry));
    let after = packages_from(pkgs.take(i + 1), wd, cfg.templates, e)->Ok_0;
    assert(after.examples == st.out.examples);
}

/// A finding of resolution that the caller asked to treat as an error.
#[derive(Clone, Copy, Debug, PartialEq, Eq, Structural)]
pub enum ResolutionIssue {
    /// Some example target has no configuration.
    UnconfiguredExample,
    /// Some override names no example target.
    UnknownExample,
}

impl ExamplesConfiguration {
    /// Fails when an example target is unconfigured and
    /// `error_on_unconfigured` is set, else when an override is unknown and
    /// `error_on_unknown` is set.
    pub fn check(&self, error_on_unconfigured: bool, error_on_unknown: bool) -> (r: Result<(), ResolutionIssue>)
        ensures
            r == (if error_on_unconfigured && self@.unconfigured.len() > 0 {
                Err::<(), ResolutionIssue>(ResolutionIssue::UnconfiguredExample)
            } else if error_on_unknown && self@.unknown.len() > 0 {
                Err(ResolutionIssue::UnknownExample)
            } else {
                Ok(())
            }),
    {
        if error_on_unconfigured && self.unconfigured.len() > 0 {
            Err(ResolutionIssue::UnconfiguredExample)
        } else if error_on_unknown && self.unknown.len() > 0 {
            Err(ResolutionIssue::UnknownExample)
        } else {
            Ok(())
        }
    }
}

} // verus!
