use vstd::prelude::*;

use crate::config_args::{
    copy_label, finalize_args, label_view, ArgsView, ConfigArgs, FinalArgsView,
    FinalizedConfigArgs,
};
use crate::struct_merge::StructMerge;

verus! {

/// How an example is handled.
#[derive(Clone, Copy, Debug, PartialEq, Eq, Structural, PartialOrd, Ord, Hash)]
pub enum RunnerType {
    /// Run it and check its exit status.
    Explicit,
    /// Build it without running it.
    NoRun,
    /// Neither build nor run it.
    Ignore,
}

/// A configuration of one run, each field possibly left unset.
#[derive(Clone, Debug, Default)]
pub struct ExampleConfig {
    pub runner_type: Option<RunnerType>,
    pub args: ConfigArgs,
}

/// The mathematical value of [`ExampleConfig`].
pub ghost struct ConfigView {
    pub runner_type: Option<RunnerType>,
    pub args: ArgsView,
}

impl View for ExampleConfig {
    type V = ConfigView;

    open spec fn view(&self) -> ConfigView {
        ConfigView { runner_type: self.runner_type, args: self.args@ }
    }
}

/// Fill-if-absent on configurations.
pub open spec fn join_config(a: ConfigView, b: ConfigView) -> ConfigView {
    ConfigView {
        runner_type: match a.runner_type {
            Some(t) => Some(t),
            None => b.runner_type,
        },
        args: crate::config_args::join_args(a.args, b.args),
    }
}

impl StructMerge for ExampleConfig {
    open spec fn joined(a: ConfigView, b: ConfigView) -> ConfigView {
        join_config(a, b)
    }

    proof fn lemma_joined_self(a: ConfigView) {
    }

    fn join_inplace(&mut self, other: ExampleConfig) {
        if self.runner_type.is_none() {
            self.runner_type = other.runner_type;
        }
        self.args.join_inplace(other.args);
    }
}

/// Fill-if-absent: each field of the join of `a` and `b` is `a`'s where `a`
/// sets it and `b`'s otherwise, and joining a configuration with itself
/// gives it back.
pub proof fn lemma_join_fill_if_absent(a: ConfigView, b: ConfigView)
    ensures
        join_config(a, b).runner_type == (if a.runner_type is Some { a.runner_type } else { b.runner_type }),
        join_config(a, b).args.label == (if a.args.label is Some { a.args.label } else { b.args.label }),
        join_config(a, b).args.arguments == (if a.args.arguments is Some { a.args.arguments } else { b.args.arguments }),
        join_config(a, b).args.expected_exit_status == (if a.args.expected_exit_status is Some {
            a.args.expected_exit_status
        } else {
            b.args.expected_exit_status
        }),
        join_config(a, a) == a,
{
}

/// A configuration with every default applied.
#[derive(Clone, Debug)]
pub struct ExampleConfigFinalized {
    pub runner_type: RunnerType,
    pub args: FinalizedConfigArgs,
}

/// The mathematical value of [`ExampleConfigFinalized`].
pub ghost struct FinalView {
    pub runner_type: RunnerType,
    pub args: FinalArgsView,
}

impl View for ExampleConfigFinalized {
    type V = FinalView;

    open spec fn view(&self) -> FinalView {
        FinalView { runner_type: self.runner_type, args: self.args@ }
    }
}

/// Applies the defaults, with `t` as the run type where none is set.
pub open spec fn finalize_config(c: ConfigView, t: RunnerType) -> FinalView {
    FinalView {
        runner_type: match c.runner_type {
            Some(x) => x,
            None => t,
        },
        args: finalize_args(c.args),
    }
}

impl ExampleConfig {
    /// Applies the defaults, with `runner_type` where no run type is set.
    pub fn with_default_type(self, runner_type: RunnerType) -> (r: ExampleConfigFinalized)
        ensures
            r@ == finalize_config(self@, runner_type),
    {
        let t = match self.runner_type {
            Some(x) => x,
            None => runner_type,
        };
        ExampleConfigFinalized { runner_type: t, args: self.args.finalize() }
    }

    /// A copy with the same contents.
    pub fn copied(&self) -> (r: ExampleConfig)
        ensures
            r@ == self@,
    {
        ExampleConfig { runner_type: self.runner_type, args: self.args.copied() }
    }
}

impl ExampleConfigFinalized {
    /// A copy with the same contents.
    pub fn copied(&self) -> (r: ExampleConfigFinalized)
        ensures
            r@ == self@,
    {
        ExampleConfigFinalized { runner_type: self.runner_type, args: self.args.copied() }
    }

    /// Compares two finalized configurations by content.
    pub fn same_as(&self, other: &ExampleConfigFinalized) -> (r: bool)
        ensures
            r == (self@ == other@),
    {
        self.runner_type == other.runner_type && self.args.same_as(&other.args)
    }
}

impl PartialEq for ExampleConfigFinalized {
    fn eq(&self, other: &ExampleConfigFinalized) -> (r: bool) {
        self.same_as(other)
    }
}

impl vstd::std_specs::cmp::PartialEqSpecImpl for ExampleConfigFinalized {
    open spec fn obeys_eq_spec() -> bool {
        true
    }

    open spec fn eq_spec(&self, other: &ExampleConfigFinalized) -> bool {
        self@ == other@
    }
}

/// A table of named configurations; a later entry for a name hides the
/// earlier ones.
#[derive(Clone, Debug, Default)]
pub struct TemplateMap {
    entries: Vec<(String, ExampleConfig)>,
}

/// The map that a list of named configurations describes, later entries
/// winning.
pub open spec fn entries_map(s: Seq<(String, ExampleConfig)>) -> Map<Seq<char>, ConfigView>
    decreases s.len(),
{
    if s.len() == 0 {
        Map::empty()
    } else {
        entries_map(s.drop_last()).insert(s.last().0@, s.last().1@)
    }
}

proof fn lemma_entries_map_prefix(s: Seq<(String, ExampleConfig)>, i: int, k: Seq<char>)
    requires
        0 <= i <= s.len(),
        forall|j: int| i <= j < s.len() ==> s[j].0@ != k,
    ensures
        entries_map(s).contains_key(k) == entries_map(s.take(i)).contains_key(k),
        entries_map(s).contains_key(k) ==> entries_map(s)[k] == entries_map(s.take(i))[k],
    decreases s.len(),
{
    if i < s.len() {
        let d = s.drop_last();
        assert(d.take(i) =~= s.take(i));
        lemma_entries_map_prefix(d, i, k);
    } else {
        assert(s.take(i) =~= s);
    }
}

impl View for TemplateMap {
    type V = Map<Seq<char>, ConfigView>;

    closed spec fn view(&self) -> Map<Seq<char>, ConfigView> {
        entries_map(self.entries@)
    }
}

impl TemplateMap {
    /// An empty table.
    pub fn new() -> (r: TemplateMap)
        ensures
            r@ == Map::<Seq<char>, ConfigView>::empty(),
    {
        let r = TemplateMap { entries: Vec::new() };
        proof {
            assert(r.entries@.len() == 0);
        }
        r
    }

    /// Sets the configuration of `name`, replacing any earlier one.
    pub fn insert(&mut self, name: String, config: ExampleConfig)
        ensures
            final(self)@ == old(self)@.insert(name@, config@),
    {
        self.entries.push((name, config));
        proof {
            assert(self.entries@.drop_last() =~= old(self).entries@);
        }
    }

    /// The configuration stored under `name`.
    pub fn get(&self, name: &String) -> (r: Option<&ExampleConfig>)
        ensures
            match r {
                Some(c) => self@.contains_key(name@) && self@[name@] == c@,
                None => !self@.contains_key(name@),
            },
    {
        let mut i: usize = self.entries.len();
        while i > 0
            invariant
                i <= self.entries@.len(),
                forall|j: int| i <= j < self.entries@.len() ==> self.entries@[j].0@ != name@,
            decreases i,
        {
            if self.entries[i - 1].0 == *name {
                proof {
                    let s = self.entries@;
                    lemma_entries_map_prefix(s, i as int, name@);
                    assert(s.take(i as int).drop_last() =~= s.take(i - 1));
                }
                return Some(&self.entries[i - 1].1);
            }
            i = i - 1;
        }
        proof {
            lemma_entries_map_prefix(self.entries@, 0, name@);
        }
        None
    }
}

/// A configuration entry: a partial configuration that may name a template
/// to inherit its unset fields from.
#[derive(Clone, Debug, Default)]
pub struct RunnerOptions {
    pub template: Option<String>,
    pub config: ExampleConfig,
}

/// The mathematical value of [`RunnerOptions`].
pub ghost struct OptionsView {
    pub template: Option<Seq<char>>,
    pub config: ConfigView,
}

impl View for RunnerOptions {
    type V = OptionsView;

    open spec fn view(&self) -> OptionsView {
        OptionsView { template: label_view(self.template), config: self.config@ }
    }
}

/// The failure of a template lookup.
#[derive(Clone, Debug)]
pub enum TemplateResolveError {
    NoSuchTemplate { name: String },
}

impl TemplateResolveError {
    /// The name of the missing template.
    pub open spec fn missing(&self) -> Seq<char> {
        match self {
            TemplateResolveError::NoSuchTemplate { name } => name@,
        }
    }

    /// A message naming the missing template.
    pub fn message(&self) -> (r: String)
        ensures
            r@ == seq!['N', 'o', ' ', 's', 'u', 'c', 'h', ' ', 't', 'e', 'm', 'p', 'l', 'a',
                't', 'e', ' ', '`'] + self.missing() + seq!['`'],
    {
        match self {
            TemplateResolveError::NoSuchTemplate { name } => {
                let head = String::from_str("No such template `");
                let r = head.concat(name.as_str()).concat("`");
                proof {
                    reveal_strlit("No such template `");
                    reveal_strlit("`");
                }
                r
            },
        }
    }
}

/// Resolution against one table: an entry without a template reference is
/// kept; one whose template the table holds gets its unset fields filled from
/// it and loses the reference; otherwise the missing name is the error.
pub open spec fn resolve_in(o: OptionsView, t: Map<Seq<char>, ConfigView>) -> Result<
    OptionsView,
    Seq<char>,
> {
    match o.template {
        None => Ok(o),
        Some(n) => if t.contains_key(n) {
            Ok(OptionsView { template: None, config: join_config(o.config, t[n]) })
        } else {
            Err(n)
        },
    }
}

/// Resolution against the package's table first and the workspace's next.
pub open spec fn resolve_scoped(
    o: OptionsView,
    package: Map<Seq<char>, ConfigView>,
    workspace: Map<Seq<char>, ConfigView>,
) -> Result<OptionsView, Seq<char>> {
    match resolve_in(o, package) {
        Ok(x) => Ok(x),
        Err(_) => resolve_in(o, workspace),
    }
}

/// Ties an executable resolution result to its mathematical value.
pub open spec fn resolved_as(r: Result<RunnerOptions, TemplateResolveError>, s: Result<OptionsView, Seq<char>>) -> bool {
    match s {
        Ok(x) => r is Ok && r->Ok_0@ == x,
        Err(n) => r is Err && r->Err_0.missing() == n,
    }
}

/// Resolution is a function of the entry and the two tables: two results
/// obtained from the same inputs agree, down to their finalized
/// configurations; an entry without a template reference comes back
/// unchanged.
pub proof fn lemma_resolution_deterministic(
    o: OptionsView,
    package: Map<Seq<char>, ConfigView>,
    workspace: Map<Seq<char>, ConfigView>,
    r1: Result<RunnerOptions, TemplateResolveError>,
    r2: Result<RunnerOptions, TemplateResolveError>,
)
    requires
        resolved_as(r1, resolve_scoped(o, package, workspace)),
        resolved_as(r2, resolve_scoped(o, package, workspace)),
    ensures
        r1 is Ok <==> r2 is Ok,
        r1 is Ok ==> r1->Ok_0@ == r2->Ok_0@ && finalize_config(r1->Ok_0@.config, RunnerType::Explicit)
            == finalize_config(r2->Ok_0@.config, RunnerType::Explicit),
        r1 is Err ==> r1->Err_0.missing() == r2->Err_0.missing(),
        o.template is None ==> r1 is Ok && r1->Ok_0@ == o,
{
}

impl RunnerOptions {
    /// Fills the unset fields from the referenced template of `templates` and
    /// drops the reference. Fails, leaving `self` as it was, when `templates`
    /// has no such template.
    pub fn resolve_templates(&mut self, templates: &TemplateMap) -> (r: Result<(), TemplateResolveError>)
        ensures
            match resolve_in(old(self)@, templates@) {
                Ok(x) => r is Ok && final(self)@ == x,
                Err(n) => r is Err && r->Err_0.missing() == n && final(self)@ == old(self)@,
            },
    {
        let found = match &self.template {
            None => return Ok(()),
            Some(name) => match templates.get(name) {
                Some(t) => t.copied(),
                None => {
                    return Err(TemplateResolveError::NoSuchTemplate { name: name.clone() });
                },
            },
        };
        self.config.join_inplace(found);
        self.template = None;
        Ok(())
    }

    /// Resolves the template reference against the package's templates, and
    /// against the workspace's where the package has no such template.
    pub fn resolve_in_scopes(self, package: &TemplateMap, workspace: &TemplateMap) -> (r: Result<
        RunnerOptions,
        TemplateResolveError,
    >)
        ensures
            resolved_as(r, resolve_scoped(self@, package@, workspace@)),
    {
        let mut o = self;
        match o.resolve_templates(package) {
            Ok(()) => Ok(o),
            Err(_) => match o.resolve_templates(workspace) {
                Ok(()) => Ok(o),
                Err(e) => Err(e),
            },
        }
    }

    /// A copy with the same contents.
    pub fn copied(&self) -> (r: RunnerOptions)
        ensures
            r@ == self@,
    {
        RunnerOptions { template: copy_label(&self.template), config: self.config.copied() }
    }

    /// An entry that sets only the run type.
    pub fn from_type(runner_type: RunnerType) -> (r: RunnerOptions)
        ensures
            r@ == (OptionsView {
                template: None,
                config: ConfigView {
                    runner_type: Some(runner_type),
                    args: ArgsView { label: None, arguments: None, expected_exit_status: None },
                },
            }),
    {
        RunnerOptions {
            template: None,
            config: ExampleConfig {
                runner_type: Some(runner_type),
                args: ConfigArgs { label: None, arguments: None, expected_exit_status: None },
            },
        }
    }

    /// The configuration of this entry, its template reference dropped.
    pub fn extract_config(self) -> (r: ExampleConfig)
        ensures
            r@ == self@.config,
    {
        self.config
    }
}

/// A configuration entry as written: a bare run type, or a full entry.
#[derive(Clone, Debug)]
pub enum RunnerOptionVariants {
    Type(RunnerType),
    Options(RunnerOptions),
}

impl From<RunnerOptionVariants> for RunnerOptions {
    /// Expands the shorthand form to a full entry.
    fn from(value: RunnerOptionVariants) -> (r: RunnerOptions) {
        match value {
            RunnerOptionVariants::Type(t) => RunnerOptions::from_type(t),
            RunnerOptionVariants::Options(o) => o,
        }
    }
}

impl vstd::std_specs::convert::FromSpecImpl<RunnerOptionVariants> for RunnerOptions {
    open spec fn obeys_from_spec() -> bool {
        true
    }

    open spec fn from_spec(value: RunnerOptionVariants) -> RunnerOptions {
        match value {
            RunnerOptionVariants::Type(t) => RunnerOptions {
                template: None,
                config: ExampleConfig {
                    runner_type: Some(t),
                    args: ConfigArgs { label: None, arguments: None, expected_exit_status: None },
                },
            },
            RunnerOptionVariants::Options(o) => o,
        }
    }
}

} // verus!
