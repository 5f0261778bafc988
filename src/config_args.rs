use vstd::prelude::*;

use crate::struct_merge::StructMerge;

verus! {

/// Copies a list of strings element by element.
pub fn copy_strings(v: &Vec<String>) -> (r: Vec<String>)
    ensures
        r@ == v@,
{
    let mut r: Vec<String> = Vec::new();
    let mut i: usize = 0;
    while i < v.len()
        invariant
            i <= v@.len(),
            r@ == v@.subrange(0, i as int),
        decreases v@.len() - i,
    {
        r.push(v[i].clone());
        i = i + 1;
    }
    assert(r@ =~= v@);
    r
}

/// Copies an optional string.
pub fn copy_label(l: &Option<String>) -> (r: Option<String>)
    ensures
        r == *l,
{
    match l {
        Some(s) => Some(s.clone()),
        None => None,
    }
}

/// Compares two lists of strings by content.
pub fn same_strings(a: &Vec<String>, b: &Vec<String>) -> (r: bool)
    ensures
        r == (strings_view(a@) == strings_view(b@)),
{
    if a.len() != b.len() {
        assert(strings_view(a@).len() != strings_view(b@).len());
        return false;
    }
    let mut i: usize = 0;
    while i < a.len()
        invariant
            a@.len() == b@.len(),
            i <= a@.len(),
            forall|j: int| 0 <= j < i ==> a@[j]@ == b@[j]@,
        decreases a@.len() - i,
    {
        if a[i] != b[i] {
            assert(strings_view(a@)[i as int] != strings_view(b@)[i as int]);
            return false;
        }
        i = i + 1;
    }
    assert(strings_view(a@) =~= strings_view(b@));
    true
}

/// The characters of each string of a list.
pub open spec fn strings_view(v: Seq<String>) -> Seq<Seq<char>> {
    v.map_values(|s: String| s@)
}

/// The characters of an optional string.
pub open spec fn label_view(l: Option<String>) -> Option<Seq<char>> {
    match l {
        Some(s) => Some(s@),
        None => None,
    }
}

/// The named groups of exit statuses.
#[derive(Clone, Copy, Debug, PartialEq, Eq, Structural, PartialOrd, Ord, Hash)]
pub enum ExitStatusGroup {
    Success,
    Failure,
}

impl Default for ExitStatusGroup {
    fn default() -> (r: Self)
        ensures
            r == ExitStatusGroup::Success,
    {
        ExitStatusGroup::Success
    }
}

/// The outcome a run is expected to have: a named group or an exact exit code.
#[derive(Clone, Copy, Debug, PartialEq, Eq, Structural, PartialOrd, Ord, Hash)]
pub enum ExpectedExitStatus {
    Group(ExitStatusGroup),
    Code(i32),
}

impl Default for ExpectedExitStatus {
    fn default() -> (r: Self)
        ensures
            r == ExpectedExitStatus::Group(ExitStatusGroup::Success),
    {
        ExpectedExitStatus::Group(ExitStatusGroup::Success)
    }
}

/// Whether a process that ended with `code` (`None`: ended by a signal) meets
/// the expectation `e`.
pub open spec fn status_matches(e: ExpectedExitStatus, code: Option<i32>) -> bool {
    match e {
        ExpectedExitStatus::Group(ExitStatusGroup::Success) => code == Some(0i32),
        ExpectedExitStatus::Group(ExitStatusGroup::Failure) => code != Some(0i32),
        ExpectedExitStatus::Code(c) => code == Some(c),
    }
}

impl ExpectedExitStatus {
    /// Compares the exit code of a finished process (`None` when it was ended
    /// by a signal) against this expectation. A process succeeds when its code
    /// is zero.
    pub fn matches(&self, code: Option<i32>) -> (r: bool)
        ensures
            r == status_matches(*self, code),
    {
        match self {
            ExpectedExitStatus::Group(ExitStatusGroup::Success) => code == Some(0i32),
            ExpectedExitStatus::Group(ExitStatusGroup::Failure) => code != Some(0i32),
            ExpectedExitStatus::Code(c) => match code {
                Some(x) => x == *c,
                None => false,
            },
        }
    }
}

/// The arguments of one run, each field possibly left unset.
#[derive(Clone, Debug, Default)]
pub struct ConfigArgs {
    pub label: Option<String>,
    pub arguments: Option<Vec<String>>,
    pub expected_exit_status: Option<ExpectedExitStatus>,
}

/// The mathematical value of [`ConfigArgs`].
pub ghost struct ArgsView {
    pub label: Option<Seq<char>>,
    pub arguments: Option<Seq<Seq<char>>>,
    pub expected_exit_status: Option<ExpectedExitStatus>,
}

/// The characters of each string of an optional list.
pub open spec fn arguments_view(a: Option<Vec<String>>) -> Option<Seq<Seq<char>>> {
    match a {
        Some(v) => Some(strings_view(v@)),
        None => None,
    }
}

impl View for ConfigArgs {
    type V = ArgsView;

    open spec fn view(&self) -> ArgsView {
        ArgsView {
            label: label_view(self.label),
            arguments: arguments_view(self.arguments),
            expected_exit_status: self.expected_exit_status,
        }
    }
}

/// Keeps `a` where it is set, else takes `b`.
pub open spec fn fill<T>(a: Option<T>, b: Option<T>) -> Option<T> {
    match a {
        Some(x) => Some(x),
        None => b,
    }
}

/// Fill-if-absent on run arguments: every field set in `a` is kept, every
/// other field comes from `b`.
pub open spec fn join_args(a: ArgsView, b: ArgsView) -> ArgsView {
    ArgsView {
        label: fill(a.label, b.label),
        arguments: fill(a.arguments, b.arguments),
        expected_exit_status: fill(a.expected_exit_status, b.expected_exit_status),
    }
}

/// Fill-if-absent on run arguments: each field of the join of `a` and `b` is
/// `a`'s where `a` sets it and `b`'s otherwise, and joining arguments with
/// themselves gives them back.
pub proof fn lemma_join_args_fill_if_absent(a: ArgsView, b: ArgsView)
    ensures
        join_args(a, b).label == (if a.label is Some { a.label } else { b.label }),
        join_args(a, b).arguments == (if a.arguments is Some { a.arguments } else { b.arguments }),
        join_args(a, b).expected_exit_status == (if a.expected_exit_status is Some {
            a.expected_exit_status
        } else {
            b.expected_exit_status
        }),
        join_args(a, a) == a,
{
}

/// Run arguments with every default applied.
#[derive(Clone, Debug, Default)]
pub struct FinalizedConfigArgs {
    pub label: Option<String>,
    pub arguments: Vec<String>,
    pub expected_exit_status: ExpectedExitStatus,
}

/// The mathematical value of [`FinalizedConfigArgs`].
pub ghost struct FinalArgsView {
    pub label: Option<Seq<char>>,
    pub arguments: Seq<Seq<char>>,
    pub expected_exit_status: ExpectedExitStatus,
}

impl View for FinalizedConfigArgs {
    type V = FinalArgsView;

    open spec fn view(&self) -> FinalArgsView {
        FinalArgsView {
            label: label_view(self.label),
            arguments: strings_view(self.arguments@),
            expected_exit_status: self.expected_exit_status,
        }
    }
}

/// Applies the defaults: no arguments, and an expected successful exit.
pub open spec fn finalize_args(a: ArgsView) -> FinalArgsView {
    FinalArgsView {
        label: a.label,
        arguments: match a.arguments {
            Some(v) => v,
            None => Seq::empty(),
        },
        expected_exit_status: match a.expected_exit_status {
            Some(e) => e,
            None => ExpectedExitStatus::Group(ExitStatusGroup::Success),
        },
    }
}

impl ConfigArgs {
    /// Applies the defaults to every unset field.
    pub fn finalize(self) -> (r: FinalizedConfigArgs)
        ensures
            r@ == finalize_args(self@),
    {
        let arguments = match self.arguments {
            Some(v) => v,
            None => Vec::new(),
        };
        assert(strings_view(Seq::<String>::empty()) =~= Seq::<Seq<char>>::empty());
        let expected_exit_status = match self.expected_exit_status {
            Some(e) => e,
            None => ExpectedExitStatus::default(),
        };
        FinalizedConfigArgs { label: self.label, arguments, expected_exit_status }
    }

    /// A copy with the same contents.
    pub fn copied(&self) -> (r: ConfigArgs)
        ensures
            r@ == self@,
    {
        let arguments = match &self.arguments {
            Some(v) => Some(copy_strings(v)),
            None => None,
        };
        ConfigArgs {
            label: copy_label(&self.label),
            arguments,
            expected_exit_status: self.expected_exit_status,
        }
    }
}

impl StructMerge for ConfigArgs {
    open spec fn joined(a: ArgsView, b: ArgsView) -> ArgsView {
        join_args(a, b)
    }

    proof fn lemma_joined_self(a: ArgsView) {
    }

    fn join_inplace(&mut self, other: ConfigArgs) {
        if self.label.is_none() {
            self.label = other.label;
        }
        if self.arguments.is_none() {
            self.arguments = other.arguments;
        }
        if self.expected_exit_status.is_none() {
            self.expected_exit_status = other.expected_exit_status;
        }
    }
}

impl PartialEq for FinalizedConfigArgs {
    fn eq(&self, other: &FinalizedConfigArgs) -> (r: bool) {
        self.same_as(other)
    }
}

impl vstd::std_specs::cmp::PartialEqSpecImpl for FinalizedConfigArgs {
    open spec fn obeys_eq_spec() -> bool {
        true
    }

    open spec fn eq_spec(&self, other: &FinalizedConfigArgs) -> bool {
        self@ == other@
    }
}

impl FinalizedConfigArgs {
    /// A copy with the same contents.
    pub fn copied(&self) -> (r: FinalizedConfigArgs)
        ensures
            r@ == self@,
    {
        FinalizedConfigArgs {
            label: copy_label(&self.label),
            arguments: copy_strings(&self.arguments),
            expected_exit_status: self.expected_exit_status,
        }
    }

    /// Compares two finalized argument sets by content.
    pub fn same_as(&self, other: &FinalizedConfigArgs) -> (r: bool)
        ensures
            r == (self@ == other@),
    {
        let labels = match (&self.label, &other.label) {
            (Some(a), Some(b)) => *a == *b,
            (None, None) => true,
            _ => false,
        };
        labels && same_strings(&self.arguments, &other.arguments)
            && self.expected_exit_status == other.expected_exit_status
    }
}

} // verus!
